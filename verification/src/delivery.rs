//! Outbound delivery decisions: recipient grouping, MX ordering, retry
//! backoff, the fate of a queue entry, and the dot-stuffed wire form of a
//! message body.
use vstd::prelude::*;

use crate::smtp_session::{is_data_end, spec_data_line, unstuff, SessionView, StepView};
use crate::text::{chars_of, eq_chars, str_lower, string_of, sub_vec, to_lowercase};

verus! {

broadcast use vstd::seq_lib::group_seq_properties;

// ---------------------------------------------------------------------------
// Recipient grouping
// ---------------------------------------------------------------------------

/// `i` is the last position of `c` in `s`.
pub open spec fn is_last_index(s: Seq<char>, c: char, i: int) -> bool {
    &&& 0 <= i < s.len()
    &&& s[i] == c
    &&& forall|j: int| i < j < s.len() ==> s[j] != c
}

/// The part of `s` after its last `@` (all of `s` when it has none):
/// `s.rsplit('@').next()`.
pub open spec fn after_last_at(s: Seq<char>) -> Seq<char> {
    if s.contains('@') {
        s.skip((choose|i: int| is_last_index(s, '@', i)) + 1)
    } else {
        s
    }
}

/// The lower-cased domain of an address.
pub open spec fn domain_of(addr: Seq<char>) -> Seq<char> {
    str_lower(after_last_at(addr))
}

/// Addresses that belong to domain `d`.
pub open spec fn in_domain(d: Seq<char>) -> spec_fn(Seq<char>) -> bool {
    |a: Seq<char>| domain_of(a) == d
}

/// The grouping of `addrs` by domain: each group holds, in their original
/// order, exactly the addresses of its domain; the domains are distinct, and
/// every address has its group.
pub open spec fn is_grouping(addrs: Seq<Seq<char>>, groups: Seq<(Seq<char>, Seq<Seq<char>>)>) -> bool {
    &&& forall|g: int| 0 <= g < groups.len() ==> #[trigger] groups[g].1 == addrs.filter(in_domain(groups[g].0))
    &&& forall|g: int, h: int| 0 <= g < h < groups.len() ==> groups[g].0 != groups[h].0
    &&& forall|i: int| 0 <= i < addrs.len() ==> exists|g: int| 0 <= g < groups.len() && #[trigger] groups[g].0 == domain_of(#[trigger] addrs[i])
    &&& forall|g: int| 0 <= g < groups.len() ==> exists|i: int| 0 <= i < addrs.len() && #[trigger] groups[g].0 == domain_of(#[trigger] addrs[i])
}

/// Abstract form of a list of domain groups.
pub open spec fn groups_view(groups: Seq<(String, Vec<String>)>) -> Seq<(Seq<char>, Seq<Seq<char>>)> {
    Seq::new(groups.len(), |i: int| (groups[i].0@, groups[i].1.deep_view()))
}

proof fn lemma_after_last_at(s: Seq<char>, i: int)
    requires
        is_last_index(s, '@', i),
    ensures
        after_last_at(s) == s.skip(i + 1),
{
    let j = choose|j: int| is_last_index(s, '@', j);
    assert(is_last_index(s, '@', j));
    if j < i {
        assert(s[i] == '@');
    }
    if i < j {
        assert(s[j] == '@');
    }
}

/// The part of `addr` after its last `@`, all of it when it has none.
pub fn after_last_at_str(addr: &str) -> (d: String)
    ensures
        d@ == after_last_at(addr@),
{
    let v = chars_of(addr);
    let mut k = v.len();
    while k > 0 && v[k - 1] != '@'
        invariant
            k <= v@.len(),
            forall|j: int| k <= j < v@.len() ==> v@[j] != '@',
        decreases k,
    {
        k = k - 1;
    }
    if k == 0 {
        assert(!v@.contains('@'));
        addr.to_owned()
    } else {
        proof {
            lemma_after_last_at(v@, k - 1);
        }
        let rest = sub_vec(&v, k, v.len());
        assert(rest@ =~= v@.skip(k as int));
        string_of(&rest)
    }
}

/// The lower-cased domain of an address (the part after its last `@`).
pub fn address_domain(addr: &str) -> (d: String)
    ensures
        d@ == domain_of(addr@),
{
    let s = after_last_at_str(addr);
    to_lowercase(s.as_str())
}

/// Group email addresses by domain, the groups in the order their domains
/// first occur.
pub fn group_by_domain(addrs: &[String]) -> (groups: Vec<(String, Vec<String>)>)
    ensures
        is_grouping(addrs.deep_view(), groups_view(groups@)),
{
    let mut groups: Vec<(String, Vec<String>)> = Vec::new();
    let ghost all = addrs.deep_view();
    let mut i: usize = 0;
    while i < addrs.len()
        invariant
            i <= addrs@.len(),
            all == addrs.deep_view(),
            is_grouping(all.take(i as int), groups_view(groups@)),
        decreases addrs@.len() - i,
    {
        let ghost pre = all.take(i as int);
        let ghost old_groups = groups_view(groups@);
        let a = addrs[i].clone();
        assert(a@ == all[i as int]);
        let d = address_domain(a.as_str());
        let dv = chars_of(d.as_str());
        let mut g: usize = 0;
        let mut found = false;
        while g < groups.len()
            invariant_except_break
                !found,
            invariant
                g <= groups@.len(),
                dv@ == d@,
                forall|h: int| 0 <= h < g ==> groups@[h].0@ != d@,
            ensures
                found ==> g < groups@.len() && groups@[g as int].0@ == d@,
                !found ==> g == groups@.len(),
            decreases groups@.len() - g,
        {
            let kv = chars_of(groups[g].0.as_str());
            if eq_chars(&kv, &dv) {
                found = true;
                break;
            }
            g = g + 1;
        }
        assert(all.take(i + 1) =~= pre.push(a@));
        proof {
            assert forall|h: int| 0 <= h < old_groups.len() implies
                #[trigger] pre.push(a@).filter(in_domain(old_groups[h].0)) == if in_domain(old_groups[h].0)(a@) {
                    old_groups[h].1.push(a@)
                } else {
                    old_groups[h].1
                } by {
                pre.lemma_filter_push(a@, in_domain(old_groups[h].0));
            }
        }
        if found {
            let mut entry = groups.remove(g);
            entry.1.push(a);
            groups.insert(g, entry);
            proof {
                let ng = groups_view(groups@);
                assert(ng.len() == old_groups.len());
                assert forall|h: int| 0 <= h < ng.len() implies ng[h].0 == old_groups[h].0 by {}
                assert(ng[g as int].1 =~= old_groups[g as int].1.push(a@));
                assert forall|h: int| 0 <= h < ng.len() && h != g implies ng[h].1 == old_groups[h].1 by {}
                assert forall|h: int| 0 <= h < ng.len() implies #[trigger] ng[h].1 == all.take(i + 1).filter(in_domain(ng[h].0)) by {
                    assert(in_domain(old_groups[h].0)(a@) == (d@ == old_groups[h].0));
                }
                assert forall|j: int| 0 <= j < i + 1 implies exists|h: int| 0 <= h < ng.len() && #[trigger] ng[h].0 == domain_of(#[trigger] all.take(i + 1)[j]) by {
                    if j < i {
                        assert(all.take(i + 1)[j] == pre[j]);
                        let h = choose|h: int| 0 <= h < old_groups.len() && #[trigger] old_groups[h].0 == domain_of(pre[j]);
                        assert(ng[h].0 == domain_of(all.take(i + 1)[j]));
                    } else {
                        assert(ng[g as int].0 == domain_of(all.take(i + 1)[j]));
                    }
                }
                assert forall|h: int| 0 <= h < ng.len() implies exists|j: int| 0 <= j < i + 1 && #[trigger] ng[h].0 == domain_of(#[trigger] all.take(i + 1)[j]) by {
                    let j = choose|j: int| 0 <= j < pre.len() && #[trigger] old_groups[h].0 == domain_of(#[trigger] pre[j]);
                    assert(all.take(i + 1)[j] == pre[j]);
                }
            }
        } else {
            let mut members: Vec<String> = Vec::new();
            members.push(a);
            groups.push((d, members));
            proof {
                let ng = groups_view(groups@);
                assert(ng.len() == old_groups.len() + 1);
                assert forall|h: int| 0 <= h < old_groups.len() implies ng[h] == old_groups[h] by {}
                assert(ng[old_groups.len() as int].0 == d@);
                assert(ng[old_groups.len() as int].1 =~= seq![a@]);
                assert forall|j: int| 0 <= j < pre.len() implies !in_domain(d@)(pre[j]) by {
                    let h = choose|h: int| 0 <= h < old_groups.len() && #[trigger] old_groups[h].0 == domain_of(pre[j]);
                    assert(groups@[h].0@ == old_groups[h].0);
                }
                lemma_filter_none(pre, in_domain(d@));
                pre.lemma_filter_push(a@, in_domain(d@));
                assert(all.take(i + 1).filter(in_domain(d@)) =~= seq![a@]);
                assert forall|h: int| 0 <= h < ng.len() implies #[trigger] ng[h].1 == all.take(i + 1).filter(in_domain(ng[h].0)) by {
                    if h < old_groups.len() {
                        assert(in_domain(old_groups[h].0)(a@) == (d@ == old_groups[h].0));
                    }
                }
                assert forall|j: int| 0 <= j < i + 1 implies exists|h: int| 0 <= h < ng.len() && #[trigger] ng[h].0 == domain_of(#[trigger] all.take(i + 1)[j]) by {
                    if j < i {
                        assert(all.take(i + 1)[j] == pre[j]);
                        let h = choose|h: int| 0 <= h < old_groups.len() && #[trigger] old_groups[h].0 == domain_of(pre[j]);
                        assert(ng[h].0 == domain_of(all.take(i + 1)[j]));
                    } else {
                        assert(ng[old_groups.len() as int].0 == domain_of(all.take(i + 1)[j]));
                    }
                }
                assert forall|h: int| 0 <= h < ng.len() implies exists|j: int| 0 <= j < i + 1 && #[trigger] ng[h].0 == domain_of(#[trigger] all.take(i + 1)[j]) by {
                    if h < old_groups.len() {
                        let j = choose|j: int| 0 <= j < pre.len() && #[trigger] old_groups[h].0 == domain_of(#[trigger] pre[j]);
                        assert(all.take(i + 1)[j] == pre[j]);
                    } else {
                        assert(all.take(i + 1)[i as int] == a@);
                    }
                }
            }
        }
        i = i + 1;
    }
    assert(all.take(addrs@.len() as int) =~= all);
    groups
}

proof fn lemma_filter_none(s: Seq<Seq<char>>, p: spec_fn(Seq<char>) -> bool)
    requires
        forall|j: int| 0 <= j < s.len() ==> !p(s[j]),
    ensures
        s.filter(p) == Seq::<Seq<char>>::empty(),
    decreases s.len(),
{
    reveal(Seq::filter);
    if s.len() > 0 {
        lemma_filter_none(s.drop_last(), p);
    }
}

// ---------------------------------------------------------------------------
// Retry backoff and the fate of a queue entry
// ---------------------------------------------------------------------------

/// Three to the power `e`.
pub open spec fn pow3(e: nat) -> nat
    decreases e,
{
    if e == 0 {
        1
    } else {
        3 * pow3((e - 1) as nat)
    }
}

/// Minutes to wait before the next attempt after `attempts` failed ones:
/// `3^min(attempts, 8)`.
pub open spec fn spec_backoff_minutes(attempts: int) -> int {
    pow3(if attempts < 8 {
        attempts as nat
    } else {
        8
    }) as int
}

/// Minutes of exponential backoff after `attempts` failed deliveries.
pub fn backoff_minutes(attempts: i32) -> (m: i64)
    requires
        attempts >= 0,
    ensures
        m == spec_backoff_minutes(attempts as int),
{
    let e: i32 = if attempts < 8 {
        attempts
    } else {
        8
    };
    let mut m: i64 = 1;
    let mut k: i32 = 0;
    while k < e
        invariant
            0 <= k <= e <= 8,
            m == pow3(k as nat),
            m <= 6561,
        decreases e - k,
    {
        proof {
            lemma_pow3_bound(k as nat);
        }
        m = m * 3;
        k = k + 1;
        proof {
            lemma_pow3_bound(k as nat);
        }
    }
    m
}

proof fn lemma_pow3_bound(e: nat)
    requires
        e <= 8,
    ensures
        pow3(e) <= 6561,
    decreases e,
{
    reveal_with_fuel(pow3, 9);
    assert(pow3(8) == 6561);
    lemma_pow3_le(e, 8);
}

proof fn lemma_pow3_le(a: nat, b: nat)
    requires
        a <= b,
    ensures
        pow3(a) <= pow3(b),
        pow3(a) >= 1,
    decreases b,
{
    if b > a {
        lemma_pow3_le(a, (b - 1) as nat);
    } else if a > 0 {
        lemma_pow3_le((a - 1) as nat, (a - 1) as nat);
    }
}

/// The backoff never shrinks as failures accumulate, and never exceeds
/// 3^8 = 6561 minutes.
pub proof fn law_backoff_monotone_bounded(a: i32, b: i32)
    requires
        0 <= a <= b,
    ensures
        spec_backoff_minutes(a as int) <= spec_backoff_minutes(b as int),
        spec_backoff_minutes(b as int) <= 6561,
        1 <= spec_backoff_minutes(a as int),
{
    let ea: nat = if a < 8 { a as nat } else { 8 };
    let eb: nat = if b < 8 { b as nat } else { 8 };
    lemma_pow3_le(ea, eb);
    lemma_pow3_bound(eb);
}

/// Entries with this many attempts or more are no longer fetched for delivery.
pub open spec fn spec_is_ready_attempts(attempts: int) -> bool {
    attempts < 10
}

/// An entry is still retried while it has had fewer than ten attempts.
pub fn is_retryable(attempts: i32) -> (b: bool)
    ensures
        b == spec_is_ready_attempts(attempts as int),
{
    attempts < 10
}

/// What the delivery worker does with a queue entry.
#[derive(PartialEq, Eq, Structural, Debug, Clone, Copy)]
pub enum QueueAction {
    /// Remove the entry: every domain accepted the message.
    MarkDelivered,
    /// Count one more failed attempt and schedule a retry with backoff.
    MarkFailed,
    /// Remove the entry for good.
    MarkPermanentFailure,
    /// Send a non-delivery report to the sender.
    SendBounce,
}

/// Actions for one failed domain delivery of an entry with `attempts`
/// earlier attempts: from the tenth attempt on, the entry is removed and a
/// bounce is generated; before, a retry is scheduled.
pub open spec fn spec_failure_actions(attempts: int) -> Seq<QueueAction> {
    if attempts >= 9 {
        seq![QueueAction::MarkPermanentFailure, QueueAction::SendBounce]
    } else {
        seq![QueueAction::MarkFailed]
    }
}

/// The actions that follow the failed domains among `results`, in order.
pub open spec fn spec_failure_plan(attempts: int, results: Seq<bool>) -> Seq<QueueAction>
    decreases results.len(),
{
    if results.len() == 0 {
        Seq::empty()
    } else {
        spec_failure_plan(attempts, results.drop_last()) + if results.last() {
            Seq::empty()
        } else {
            spec_failure_actions(attempts)
        }
    }
}

/// Every domain accepted the message.
pub open spec fn all_delivered(results: Seq<bool>) -> bool {
    forall|i: int| 0 <= i < results.len() ==> #[trigger] results[i]
}

/// The actions for the domains' results in order, then `MarkDelivered` when none failed.
pub open spec fn spec_plan_entry(attempts: int, results: Seq<bool>) -> Seq<QueueAction> {
    spec_failure_plan(attempts, results) + if all_delivered(results) {
        seq![QueueAction::MarkDelivered]
    } else {
        Seq::empty()
    }
}

/// Number of failed domains.
pub open spec fn failures(results: Seq<bool>) -> nat
    decreases results.len(),
{
    if results.len() == 0 {
        0
    } else {
        failures(results.drop_last()) + if results.last() {
            0nat
        } else {
            1nat
        }
    }
}

/// The actions that follow one failed domain delivery.
pub fn failure_actions(attempts: i32) -> (acts: Vec<QueueAction>)
    ensures
        acts@ == spec_failure_actions(attempts as int),
{
    let mut acts = Vec::new();
    if attempts >= 9 {
        acts.push(QueueAction::MarkPermanentFailure);
        acts.push(QueueAction::SendBounce);
    } else {
        acts.push(QueueAction::MarkFailed);
    }
    assert(acts@ =~= spec_failure_actions(attempts as int));
    acts
}

/// The queue actions for an entry whose per-domain deliveries gave `results`.
pub fn plan_entry(attempts: i32, results: &[bool]) -> (acts: Vec<QueueAction>)
    ensures
        acts@ == spec_plan_entry(attempts as int, results@),
{
    let mut acts: Vec<QueueAction> = Vec::new();
    let mut all_ok = true;
    let mut i: usize = 0;
    while i < results.len()
        invariant
            i <= results@.len(),
            all_ok == all_delivered(results@.take(i as int)),
            acts@ == spec_failure_plan(attempts as int, results@.take(i as int)),
        decreases results@.len() - i,
    {
        let ghost t = results@.take(i as int + 1);
        assert(t.drop_last() =~= results@.take(i as int));
        if !results[i] {
            let f = failure_actions(attempts);
            let mut k: usize = 0;
            let ghost before = acts@;
            while k < f.len()
                invariant
                    k <= f@.len(),
                    f@ == spec_failure_actions(attempts as int),
                    acts@ == before + f@.take(k as int),
                decreases f@.len() - k,
            {
                acts.push(f[k]);
                k = k + 1;
                assert(acts@ =~= before + f@.take(k as int));
            }
            assert(f@.take(f@.len() as int) =~= f@);
            all_ok = false;
            assert(!t[i as int]);
        } else {
            assert(acts@ =~= acts@ + Seq::<QueueAction>::empty());
        }
        i = i + 1;
        assert(results@.take(i as int) =~= t);
        assert(all_ok == all_delivered(t)) by {
            if all_ok {
                assert forall|j: int| 0 <= j < t.len() implies #[trigger] t[j] by {
                    if j < t.len() - 1 {
                        assert(t[j] == t.drop_last()[j]);
                    }
                }
            } else if all_delivered(t.drop_last()) {
                assert(!t[t.len() - 1]);
            } else {
                let j = choose|j: int| 0 <= j < t.drop_last().len() && !t.drop_last()[j];
                assert(!t[j]);
            }
        }
    }
    assert(results@.take(results@.len() as int) =~= results@);
    if all_ok {
        acts.push(QueueAction::MarkDelivered);
    }
    assert(acts@ =~= spec_plan_entry(attempts as int, results@));
    acts
}

proof fn lemma_failure_plan_never_delivers(attempts: int, results: Seq<bool>)
    ensures
        !spec_failure_plan(attempts, results).contains(QueueAction::MarkDelivered),
        results.len() > 0 && !results.last() ==> spec_failure_plan(attempts, results).len() > 0,
    decreases results.len(),
{
    if results.len() > 0 {
        let d = results.drop_last();
        lemma_failure_plan_never_delivers(attempts, d);
        let tail = if results.last() { Seq::<QueueAction>::empty() } else { spec_failure_actions(attempts) };
        let p = spec_failure_plan(attempts, d);
        assert(spec_failure_plan(attempts, results) == p + tail);
        if (p + tail).contains(QueueAction::MarkDelivered) {
            let k = choose|k: int| 0 <= k < (p + tail).len() && (p + tail)[k] == QueueAction::MarkDelivered;
            if k < p.len() {
                assert(p[k] == (p + tail)[k]);
            } else {
                assert(tail[k - p.len()] == (p + tail)[k]);
            }
        }
    }
}

proof fn lemma_failure_plan_has_failure(attempts: int, results: Seq<bool>, i: int)
    requires
        0 <= i < results.len(),
        !results[i],
    ensures
        spec_failure_plan(attempts, results).len() > 0,
    decreases results.len(),
{
    if i < results.len() - 1 {
        assert(results.drop_last()[i] == results[i]);
        lemma_failure_plan_has_failure(attempts, results.drop_last(), i);
    }
}

/// An entry is marked delivered exactly when every domain accepted the
/// message: one failed domain, at any position, keeps it queued (or fails
/// it for good), and then its plan starts with the failure's actions
/// rather than ending in `MarkDelivered`.
pub proof fn law_delivered_iff_all_domains(attempts: int, results: Seq<bool>)
    ensures
        spec_plan_entry(attempts, results).contains(QueueAction::MarkDelivered) <==> (forall|i: int|
            0 <= i < results.len() ==> results[i]),
        (exists|i: int| 0 <= i < results.len() && !results[i]) ==> spec_plan_entry(attempts, results)
            == spec_failure_plan(attempts, results) && spec_failure_plan(attempts, results).len() > 0,
{
    lemma_failure_plan_never_delivers(attempts, results);
    let p = spec_failure_plan(attempts, results);
    let all = forall|i: int| 0 <= i < results.len() ==> results[i];
    if all {
        assert(all_delivered(results));
        let q = p + seq![QueueAction::MarkDelivered];
        assert(q[p.len() as int] == QueueAction::MarkDelivered);
        assert(q.contains(QueueAction::MarkDelivered));
    } else {
        let i = choose|i: int| 0 <= i < results.len() && !results[i];
        assert(!all_delivered(results));
        assert(spec_plan_entry(attempts, results) =~= p);
        lemma_failure_plan_has_failure(attempts, results, i);
    }
}

/// Each failed domain costs one retry before the tenth attempt, and a
/// permanent failure with a bounce from then on; accepted domains add
/// nothing.
pub proof fn law_failure_actions_per_domain(attempts: int, results: Seq<bool>)
    ensures
        attempts < 9 ==> spec_failure_plan(attempts, results).len() == failures(results) && forall|k: int|
            0 <= k < spec_failure_plan(attempts, results).len() ==> #[trigger] spec_failure_plan(
                attempts,
                results,
            )[k] == QueueAction::MarkFailed,
        attempts >= 9 ==> spec_failure_plan(attempts, results).len() == 2 * failures(results) && forall|
            k: int,
        |
            0 <= k < spec_failure_plan(attempts, results).len() ==> #[trigger] spec_failure_plan(
                attempts,
                results,
            )[k] == if k % 2 == 0 {
                QueueAction::MarkPermanentFailure
            } else {
                QueueAction::SendBounce
            },
    decreases results.len(),
{
    if results.len() > 0 {
        let d = results.drop_last();
        law_failure_actions_per_domain(attempts, d);
        let p = spec_failure_plan(attempts, d);
        let tail = if results.last() { Seq::<QueueAction>::empty() } else { spec_failure_actions(attempts) };
        assert(spec_failure_plan(attempts, results) == p + tail);
        if attempts < 9 {
            assert forall|k: int| 0 <= k < (p + tail).len() implies #[trigger] (p + tail)[k] == QueueAction::MarkFailed by {
                if k >= p.len() {
                    assert((p + tail)[k] == tail[k - p.len()]);
                }
            }
        } else {
            assert forall|k: int| 0 <= k < (p + tail).len() implies #[trigger] (p + tail)[k] == if k % 2 == 0 {
                QueueAction::MarkPermanentFailure
            } else {
                QueueAction::SendBounce
            } by {
                if k >= p.len() {
                    assert((p + tail)[k] == tail[k - p.len()]);
                    assert(p.len() % 2 == 0);
                } else {
                    assert((p + tail)[k] == p[k]);
                }
            }
        }
    }
}

/// The actions for a queue entry: an entry whose message is gone is removed
/// for good; otherwise the plan for its domains' results.
pub open spec fn spec_plan_queue_entry(found: bool, attempts: int, results: Seq<bool>) -> Seq<QueueAction> {
    if found {
        spec_plan_entry(attempts, results)
    } else {
        seq![QueueAction::MarkPermanentFailure]
    }
}

/// The actions for a queue entry whose stored message was `found` or not,
/// and whose per-domain deliveries gave `results` (unused when not found).
pub fn plan_queue_entry(found: bool, attempts: i32, results: &[bool]) -> (acts: Vec<QueueAction>)
    ensures
        acts@ == spec_plan_queue_entry(found, attempts as int, results@),
{
    if found {
        plan_entry(attempts, results)
    } else {
        let mut acts = Vec::new();
        acts.push(QueueAction::MarkPermanentFailure);
        assert(acts@ =~= seq![QueueAction::MarkPermanentFailure]);
        acts
    }
}

/// Number of entries whose plan removes them as delivered.
pub open spec fn delivered_entries(plans: Seq<Seq<QueueAction>>) -> nat
    decreases plans.len(),
{
    if plans.len() == 0 {
        0
    } else {
        delivered_entries(plans.drop_last()) + if plans.last().contains(QueueAction::MarkDelivered) {
            1nat
        } else {
            0nat
        }
    }
}

fn has_delivered(acts: &Vec<QueueAction>) -> (b: bool)
    ensures
        b == acts@.contains(QueueAction::MarkDelivered),
{
    let mut i: usize = 0;
    while i < acts.len()
        invariant
            i <= acts@.len(),
            forall|j: int| 0 <= j < i ==> acts@[j] != QueueAction::MarkDelivered,
        decreases acts@.len() - i,
    {
        if acts[i] == QueueAction::MarkDelivered {
            assert(acts@[i as int] == QueueAction::MarkDelivered);
            return true;
        }
        i = i + 1;
    }
    false
}

/// How many entries of one pass over the queue were delivered, as the
/// worker reports it.
pub fn count_delivered(plans: &Vec<Vec<QueueAction>>) -> (n: usize)
    ensures
        n == delivered_entries(plans@.map_values(|v: Vec<QueueAction>| v@)),
{
    let ghost pv = plans@.map_values(|v: Vec<QueueAction>| v@);
    let mut n: usize = 0;
    let mut i: usize = 0;
    while i < plans.len()
        invariant
            i <= plans@.len(),
            pv == plans@.map_values(|v: Vec<QueueAction>| v@),
            n == delivered_entries(pv.take(i as int)),
            n <= i,
        decreases plans@.len() - i,
    {
        assert(pv.take(i + 1).drop_last() =~= pv.take(i as int));
        assert(pv.take(i + 1).last() == plans@[i as int]@);
        if has_delivered(&plans[i]) {
            n = n + 1;
        }
        i = i + 1;
    }
    assert(pv.take(plans@.len() as int) =~= pv);
    n
}

/// Bounces are not sent for bounces: a message with the null sender gets none.
pub fn should_bounce(from: &str) -> (b: bool)
    ensures
        b == (from@.len() > 0),
{
    !from.is_empty()
}

// ---------------------------------------------------------------------------
// MX host ordering
// ---------------------------------------------------------------------------

/// Insert `x` after every element whose preference is not greater than its own.
pub open spec fn insert_by_pref(s: Seq<(u16, Seq<char>)>, x: (u16, Seq<char>)) -> Seq<(u16, Seq<char>)>
    decreases s.len(),
{
    if s.len() == 0 || s.last().0 <= x.0 {
        s.push(x)
    } else {
        insert_by_pref(s.drop_last(), x).push(s.last())
    }
}

/// Stable sort by preference (`sort_by_key` on the preference).
pub open spec fn sort_by_pref(s: Seq<(u16, Seq<char>)>) -> Seq<(u16, Seq<char>)>
    decreases s.len(),
{
    if s.len() == 0 {
        s
    } else {
        insert_by_pref(sort_by_pref(s.drop_last()), s.last())
    }
}

/// Preferences never decrease along `s`.
pub open spec fn pref_sorted(s: Seq<(u16, Seq<char>)>) -> bool {
    forall|i: int, j: int| 0 <= i <= j < s.len() ==> s[i].0 <= s[j].0
}

/// `s` without its trailing dots (`trim_end_matches('.')`).
pub open spec fn trim_end_dots(s: Seq<char>) -> Seq<char>
    decreases s.len(),
{
    if s.len() > 0 && s.last() == '.' {
        trim_end_dots(s.drop_last())
    } else {
        s
    }
}

/// MX hosts in preference order, without trailing dots.
pub open spec fn spec_mx_hosts(records: Seq<(u16, Seq<char>)>) -> Seq<Seq<char>> {
    let sorted = sort_by_pref(records);
    Seq::new(sorted.len(), |i: int| trim_end_dots(sorted[i].1))
}

/// Abstract form of MX records.
pub open spec fn records_view(r: Seq<(u16, String)>) -> Seq<(u16, Seq<char>)> {
    Seq::new(r.len(), |i: int| (r[i].0, r[i].1@))
}

proof fn lemma_insert_at(s: Seq<(u16, Seq<char>)>, x: (u16, Seq<char>), j: int)
    requires
        0 <= j <= s.len(),
        forall|m: int| j <= m < s.len() ==> s[m].0 > x.0,
        j == 0 || s[j - 1].0 <= x.0,
    ensures
        insert_by_pref(s, x) == s.insert(j, x),
    decreases s.len() - j,
{
    if j < s.len() {
        lemma_insert_at(s.drop_last(), x, j);
        assert(s.drop_last().insert(j, x).push(s.last()) =~= s.insert(j, x));
    } else {
        assert(s.push(x) =~= s.insert(j, x));
    }
}

/// The preference of the last record, or no record.
proof fn lemma_insert_sorted(s: Seq<(u16, Seq<char>)>, x: (u16, Seq<char>))
    requires
        pref_sorted(s),
    ensures
        pref_sorted(insert_by_pref(s, x)),
        insert_by_pref(s, x).len() == s.len() + 1,
        insert_by_pref(s, x).to_multiset() == s.to_multiset().insert(x),
    decreases s.len(),
{
    broadcast use vstd::multiset::group_multiset_axioms;
    if s.len() == 0 || s.last().0 <= x.0 {
        s.to_multiset_ensures();
    } else {
        let t = s.drop_last();
        assert(pref_sorted(t));
        lemma_insert_sorted(t, x);
        let r = insert_by_pref(t, x);
        assert forall|i: int| 0 <= i < r.len() implies r[i].0 <= s.last().0 by {
            let k = r.to_multiset().count(r[i]);
            assert(r.to_multiset().contains(r[i])) by {
                r.to_multiset_ensures();
            }
            assert(t.to_multiset().insert(x).contains(r[i]));
            if r[i] != x {
                assert(t.to_multiset().contains(r[i]));
                t.to_multiset_ensures();
                let m = choose|m: int| 0 <= m < t.len() && t[m] == r[i];
                assert(s[m] == t[m]);
            }
        }
        r.to_multiset_ensures();
        t.to_multiset_ensures();
        assert(t.push(s.last()) =~= s);
        assert(t.to_multiset().insert(x).insert(s.last()) =~= t.to_multiset().insert(s.last()).insert(x));
    }
}

/// The MX ordering is a sort: preferences ascend, and the records are the
/// same records, each as many times.
pub proof fn law_mx_sort(s: Seq<(u16, Seq<char>)>)
    ensures
        pref_sorted(sort_by_pref(s)),
        sort_by_pref(s).to_multiset() == s.to_multiset(),
    decreases s.len(),
{
    broadcast use vstd::multiset::group_multiset_axioms;
    if s.len() > 0 {
        law_mx_sort(s.drop_last());
        lemma_insert_sorted(sort_by_pref(s.drop_last()), s.last());
        s.drop_last().to_multiset_ensures();
        assert(s.drop_last().push(s.last()) =~= s);
    } else {
        assert(s.to_multiset() =~= vstd::multiset::Multiset::empty());
    }
}

/// `s` without its trailing dots.
pub fn trim_end_dots_vec(v: &[char]) -> (r: Vec<char>)
    ensures
        r@ == trim_end_dots(v@),
{
    let mut k = v.len();
    while k > 0 && v[k - 1] == '.'
        invariant
            k <= v@.len(),
            trim_end_dots(v@) == trim_end_dots(v@.take(k as int)),
        decreases k,
    {
        assert(v@.take(k as int).drop_last() =~= v@.take(k - 1));
        k = k - 1;
    }
    let r = sub_vec(v, 0, k);
    assert(r@ =~= v@.take(k as int));
    r
}

/// Order MX records by preference (stably) and strip the trailing dots of
/// the exchange names.
pub fn mx_hosts_in_order(records: Vec<(u16, String)>) -> (hosts: Vec<String>)
    ensures
        hosts.deep_view() == spec_mx_hosts(records_view(records@)),
{
    let ghost rv = records_view(records@);
    let mut sorted: Vec<(u16, String)> = Vec::new();
    let mut i: usize = 0;
    while i < records.len()
        invariant
            i <= records@.len(),
            rv == records_view(records@),
            records_view(sorted@) == sort_by_pref(rv.take(i as int)),
        decreases records@.len() - i,
    {
        let x = (records[i].0, records[i].1.clone());
        let ghost sv = records_view(sorted@);
        let mut j = sorted.len();
        while j > 0 && sorted[j - 1].0 > x.0
            invariant
                j <= sorted@.len(),
                sv == records_view(sorted@),
                forall|m: int| j <= m < sv.len() ==> sv[m].0 > x.0,
            decreases j,
        {
            j = j - 1;
        }
        proof {
            lemma_insert_at(sv, (x.0, x.1@), j as int);
            assert(rv.take(i + 1).drop_last() =~= rv.take(i as int));
            assert(rv.take(i + 1).last() == (x.0, x.1@));
        }
        sorted.insert(j, x);
        proof {
            assert(records_view(sorted@) =~= sv.insert(j as int, (x.0, x.1@)));
        }
        i = i + 1;
    }
    assert(rv.take(records@.len() as int) =~= rv);
    let mut hosts: Vec<String> = Vec::new();
    let mut k: usize = 0;
    let ghost sorted_v = records_view(sorted@);
    while k < sorted.len()
        invariant
            k <= sorted@.len(),
            sorted_v == records_view(sorted@),
            hosts.deep_view() == Seq::new(k as nat, |m: int| trim_end_dots(sorted_v[m].1)),
        decreases sorted@.len() - k,
    {
        let name = chars_of(sorted[k].1.as_str());
        assert(sorted_v[k as int].1 == name@);
        let t = trim_end_dots_vec(&name);
        let ghost before = hosts.deep_view();
        hosts.push(string_of(&t));
        assert(hosts.deep_view() =~= before.push(t@));
        k = k + 1;
        assert(hosts.deep_view() =~= Seq::new(k as nat, |m: int| trim_end_dots(sorted_v[m].1)));
    }
    hosts
}

// ---------------------------------------------------------------------------
// Dot-stuffed message body
// ---------------------------------------------------------------------------

/// The hosts tried for a domain: its MX hosts in preference order when the
/// lookup answered (`Some`), or the domain itself when the lookup failed.
pub open spec fn spec_delivery_hosts(lookup: Option<Seq<(u16, Seq<char>)>>, domain: Seq<char>) -> Seq<Seq<char>> {
    match lookup {
        Some(records) => spec_mx_hosts(records),
        None => seq![domain],
    }
}

/// Hosts to try, in order, for delivery to `domain`.
pub fn delivery_hosts(lookup: Option<Vec<(u16, String)>>, domain: &str) -> (hosts: Vec<String>)
    ensures
        hosts.deep_view() == spec_delivery_hosts(
            match lookup {
                Some(r) => Some(records_view(r@)),
                None => None,
            },
            domain@,
        ),
{
    match lookup {
        Some(records) => mx_hosts_in_order(records),
        None => {
            let mut v: Vec<String> = Vec::new();
            v.push(domain.to_owned());
            assert(v.deep_view() =~= seq![domain@]);
            v
        },
    }
}

/// The lines of `data` split at each LF (`data.split(|&b| b == b'\n')`):
/// a message ending in LF has a last, empty, line.
pub open spec fn split_lines(data: Seq<u8>) -> Seq<Seq<u8>>
    decreases data.len(),
{
    if data.len() == 0 {
        seq![Seq::empty()]
    } else {
        let p = split_lines(data.drop_last());
        if data.last() == 10u8 {
            p.push(Seq::empty())
        } else {
            p.update(p.len() - 1, p.last().push(data.last()))
        }
    }
}

/// One line on the wire: a leading `.` doubled, CR added when missing, then LF.
pub open spec fn stuff_line(seg: Seq<u8>) -> Seq<u8> {
    (if seg.len() > 0 && seg[0] == 46u8 {
        seq![46u8]
    } else {
        Seq::empty()
    }) + seg + (if seg.len() > 0 && seg.last() == 13u8 {
        Seq::empty()
    } else {
        seq![13u8]
    }) + seq![10u8]
}

/// A line ending in CRLF.
pub open spec fn crlf(seg: Seq<u8>) -> Seq<u8> {
    seg + (if seg.len() > 0 && seg.last() == 13u8 {
        Seq::empty()
    } else {
        seq![13u8]
    }) + seq![10u8]
}

/// The wire form of all lines, one after the other.
pub open spec fn stuff_all(segs: Seq<Seq<u8>>) -> Seq<u8>
    decreases segs.len(),
{
    if segs.len() == 0 {
        Seq::empty()
    } else {
        stuff_all(segs.drop_last()) + stuff_line(segs.last())
    }
}

/// The bytes sent after DATA: the stuffed lines, then the lone `.` line.
pub open spec fn spec_stuff_message(data: Seq<u8>) -> Seq<u8> {
    stuff_all(split_lines(data)) + seq![46u8, 13u8, 10u8]
}

proof fn lemma_split_lines_no_lf(data: Seq<u8>)
    ensures
        split_lines(data).len() >= 1,
        forall|k: int| 0 <= k < split_lines(data).len() ==> !(#[trigger] split_lines(data)[k]).contains(10u8),
    decreases data.len(),
{
    if data.len() > 0 {
        lemma_split_lines_no_lf(data.drop_last());
        let p = split_lines(data.drop_last());
        if data.last() != 10u8 {
            assert forall|k: int| 0 <= k < split_lines(data).len() implies !(#[trigger] split_lines(data)[k]).contains(10u8) by {
                if k == p.len() - 1 {
                    let q = p.last().push(data.last());
                    if q.contains(10u8) {
                        let m = choose|m: int| 0 <= m < q.len() && q[m] == 10u8;
                        if m < p.last().len() {
                            assert(p.last()[m] == 10u8);
                            assert(p.last().contains(10u8));
                        }
                    }
                }
            }
        }
    }
}

/// Dot transparency: a body line never reads as the end of the message, it
/// is received as exactly one line, and the receiver's unstuffing gives the
/// line back, ending in CRLF.
pub proof fn law_dot_transparency(data: Seq<u8>, k: int)
    requires
        0 <= k < split_lines(data).len(),
    ensures
        !is_data_end(stuff_line(split_lines(data)[k])),
        unstuff(stuff_line(split_lines(data)[k])) == crlf(split_lines(data)[k]),
        forall|m: int| 0 <= m < stuff_line(split_lines(data)[k]).len() - 1 ==> stuff_line(split_lines(data)[k])[m] != 10u8,
{
    lemma_split_lines_no_lf(data);
    let seg = split_lines(data)[k];
    let w = stuff_line(seg);
    assert(!seg.contains(10u8));
    if seg.len() > 0 && seg[0] == 46u8 {
        assert(w.skip(1) =~= crlf(seg));
        if seg.len() == 1 {
            assert(w =~= seq![46u8, 46u8, 13u8, 10u8]);
        }
    } else {
        assert(w =~= crlf(seg));
        if w.len() >= 2 && w[0] == 46u8 {
            assert(seg.len() == 0 || seg[0] != 46u8);
        }
    }
    assert forall|m: int| 0 <= m < w.len() - 1 implies w[m] != 10u8 by {
        let off: int = if seg.len() > 0 && seg[0] == 46u8 { 1 } else { 0 };
        if off <= m < off + seg.len() {
            assert(w[m] == seg[m - off]);
        }
    }
}

/// Append the wire form of one line.
fn push_stuffed(out: &mut Vec<u8>, seg: &[u8])
    ensures
        final(out)@ == old(out)@ + stuff_line(seg@),
{
    if seg.len() > 0 && seg[0] == 46u8 {
        out.push(46u8);
    }
    let ghost mid = out@;
    let mut i: usize = 0;
    while i < seg.len()
        invariant
            i <= seg@.len(),
            out@ == mid + seg@.take(i as int),
        decreases seg@.len() - i,
    {
        out.push(seg[i]);
        i = i + 1;
        assert(out@ =~= mid + seg@.take(i as int));
    }
    assert(seg@.take(seg@.len() as int) =~= seg@);
    if !(seg.len() > 0 && seg[seg.len() - 1] == 13u8) {
        out.push(13u8);
    }
    out.push(10u8);
    assert(out@ =~= old(out)@ + stuff_line(seg@));
}

/// The bytes that follow an accepted DATA command: each line of `data` with
/// a leading dot doubled and CRLF line ends, then `.` CRLF.
pub fn stuff_message(data: &[u8]) -> (out: Vec<u8>)
    ensures
        out@ == spec_stuff_message(data@),
{
    let mut out: Vec<u8> = Vec::new();
    let mut cur: Vec<u8> = Vec::new();
    let ghost mut done: Seq<Seq<u8>> = Seq::empty();
    let mut i: usize = 0;
    while i < data.len()
        invariant
            i <= data@.len(),
            split_lines(data@.take(i as int)) == done.push(cur@),
            out@ == stuff_all(done),
        decreases data@.len() - i,
    {
        let b = data[i];
        assert(data@.take(i + 1).drop_last() =~= data@.take(i as int));
        if b == 10u8 {
            push_stuffed(&mut out, &cur);
            proof {
                assert(stuff_all(done.push(cur@)).len() >= 0);
                assert(done.push(cur@).drop_last() =~= done);
                done = done.push(cur@);
            }
            cur = Vec::new();
            assert(split_lines(data@.take(i + 1)) =~= done.push(cur@));
        } else {
            cur.push(b);
            assert(split_lines(data@.take(i + 1)) =~= done.push(cur@));
        }
        i = i + 1;
    }
    assert(data@.take(data@.len() as int) =~= data@);
    push_stuffed(&mut out, &cur);
    assert(done.push(cur@).drop_last() =~= done);
    out.push(46u8);
    out.push(13u8);
    out.push(10u8);
    assert(out@ =~= spec_stuff_message(data@));
    out
}

/// The lines the receiver reads, in order, for a stuffed message: one per
/// line of the message, then the lone `.` line.
pub open spec fn wire_lines(data: Seq<u8>) -> Seq<Seq<u8>> {
    split_lines(data).map_values(|seg: Seq<u8>| stuff_line(seg)).push(seq![46u8, 13u8, 10u8])
}

/// The message as the receiver keeps it: each line ending in CRLF.
pub open spec fn crlf_all(segs: Seq<Seq<u8>>) -> Seq<u8>
    decreases segs.len(),
{
    if segs.len() == 0 {
        Seq::empty()
    } else {
        crlf_all(segs.drop_last()) + crlf(segs.last())
    }
}

/// The receiver's session after reading `lines` in DATA mode, with the
/// last step taken (a reply with no lines before anything was read).
pub open spec fn feed(s: SessionView, lines: Seq<Seq<u8>>) -> (SessionView, StepView)
    decreases lines.len(),
{
    if lines.len() == 0 {
        (s, StepView::Reply(Seq::empty()))
    } else {
        let (t, _) = feed(s, lines.drop_last());
        spec_data_line(t, lines.last())
    }
}

proof fn lemma_crlf_all_prefix(segs: Seq<Seq<u8>>, k: int)
    requires
        0 <= k <= segs.len(),
    ensures
        crlf_all(segs.take(k)).len() <= crlf_all(segs).len(),
    decreases segs.len() - k,
{
    if k < segs.len() {
        lemma_crlf_all_prefix(segs, k + 1);
        assert(segs.take(k + 1).drop_last() =~= segs.take(k));
    } else {
        assert(segs.take(k) =~= segs);
    }
}

proof fn lemma_feed_body(s: SessionView, data: Seq<u8>, k: int)
    requires
        s.data_mode,
        s.data_buf.len() == 0,
        crlf_all(split_lines(data)).len() <= s.max_message_size,
        0 <= k <= split_lines(data).len(),
    ensures
        feed(s, split_lines(data).map_values(|seg: Seq<u8>| stuff_line(seg)).take(k)).0 == (SessionView {
            data_buf: crlf_all(split_lines(data).take(k)),
            ..s
        }),
    decreases k,
{
    let segs = split_lines(data);
    let w = segs.map_values(|seg: Seq<u8>| stuff_line(seg));
    if k == 0 {
        assert(w.take(0) =~= Seq::<Seq<u8>>::empty());
        assert(segs.take(0) =~= Seq::<Seq<u8>>::empty());
        assert((SessionView { data_buf: crlf_all(segs.take(0)), ..s }) == s);
    } else {
        lemma_feed_body(s, data, k - 1);
        assert(w.take(k).drop_last() =~= w.take(k - 1));
        assert(w.take(k).last() == stuff_line(segs[k - 1]));
        assert(segs.take(k).drop_last() =~= segs.take(k - 1));
        law_dot_transparency(data, k - 1);
        lemma_crlf_all_prefix(segs, k);
    }
}

/// What the sender writes after DATA is what the receiver keeps: reading
/// the stuffed lines of a message in DATA mode gives back the message, each
/// line ending in CRLF, and the final `.` line hands it over for delivery.
/// (A message larger than the receiver's limit is refused instead.)
pub proof fn law_stuffed_message_round_trip(s: SessionView, data: Seq<u8>)
    requires
        s.data_mode,
        s.data_buf.len() == 0,
        crlf_all(split_lines(data)).len() <= s.max_message_size,
    ensures
        feed(s, wire_lines(data)) == (
            SessionView { data_mode: false, data_buf: crlf_all(split_lines(data)), ..s },
            StepView::Deliver,
        ),
{
    let segs = split_lines(data);
    let w = segs.map_values(|seg: Seq<u8>| stuff_line(seg));
    lemma_feed_body(s, data, segs.len() as int);
    assert(w.take(segs.len() as int) =~= w);
    assert(segs.take(segs.len() as int) =~= segs);
    assert(wire_lines(data).drop_last() =~= w);
    assert(is_data_end(seq![46u8, 13u8, 10u8]));
}


} // verus!
