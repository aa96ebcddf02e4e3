//! Decisions of running a step script: what a step stores from its reply,
//! and the result reported when a step fails or the script completes.
//! The caller substitutes arguments, parses them and makes the hub calls.
use vstd::prelude::*;

use crate::script::{ScriptContext, ScriptResult};
use crate::text::{append_str, chars_of, dec, dec_chars, append_chars, eq_chars, string_of};

verus! {

/// A member value of a step's JSON reply: a string, or another value with
/// its JSON text.
pub enum ReplyValue {
    Text(String),
    Json(String),
}

/// The shape of a step's JSON reply, as far as storing it needs.
pub enum StepReply {
    /// An object, with its members in order.
    Object(Vec<(String, ReplyValue)>),
    /// A string.
    Text(String),
    /// Anything else.
    Other,
}

/// The text stored for a member value: a string itself, else its JSON text.
pub open spec fn value_text(v: ReplyValue) -> Seq<char> {
    match v {
        ReplyValue::Text(s) => s@,
        ReplyValue::Json(j) => j@,
    }
}

/// The string member named `k`: the first member with that name decides.
pub open spec fn string_member(members: Seq<(String, ReplyValue)>, k: Seq<char>) -> Option<Seq<char>>
    decreases members.len(),
{
    if members.len() == 0 {
        None
    } else if members[0].0@ == k {
        match members[0].1 {
            ReplyValue::Text(s) => Some(s@),
            ReplyValue::Json(_) => None,
        }
    } else {
        string_member(members.drop_first(), k)
    }
}

/// What a step stores under `var`: an object's only member (as text); the
/// string member named like the variable; a string reply itself; otherwise
/// the whole reply `body`.
pub open spec fn spec_stored_value(reply: StepReply, body: Seq<char>, var: Seq<char>) -> Seq<char> {
    match reply {
        StepReply::Object(m) => if m@.len() == 1 {
            value_text(m@[0].1)
        } else {
            match string_member(m@, var) {
                Some(s) => s,
                None => body,
            }
        },
        StepReply::Text(s) => s@,
        StepReply::Other => body,
    }
}

fn find_string_member(members: &Vec<(String, ReplyValue)>, k: &Vec<char>) -> (r: Option<String>)
    ensures
        match r {
            Some(x) => string_member(members@, k@) == Some(x@),
            None => string_member(members@, k@) is None,
        },
{
    let mut i: usize = 0;
    assert(members@.skip(0) =~= members@);
    while i < members.len()
        invariant
            i <= members@.len(),
            string_member(members@, k@) == string_member(members@.skip(i as int), k@),
        decreases members@.len() - i,
    {
        assert(members@.skip(i as int)[0] == members@[i as int]);
        assert(members@.skip(i as int).drop_first() =~= members@.skip(i + 1));
        let name = chars_of(members[i].0.as_str());
        if eq_chars(&name, k) {
            return match &members[i].1 {
                ReplyValue::Text(s) => Some(s.clone()),
                ReplyValue::Json(_) => None,
            };
        }
        i = i + 1;
    }
    None
}

/// The value a step with `store = var` keeps from its reply.
pub fn stored_value(reply: &StepReply, body: &str, var: &str) -> (s: String)
    ensures
        s@ == spec_stored_value(*reply, body@, var@),
{
    match reply {
        StepReply::Object(m) => {
            if m.len() == 1 {
                match &m[0].1 {
                    ReplyValue::Text(s) => s.clone(),
                    ReplyValue::Json(j) => j.clone(),
                }
            } else {
                let k = chars_of(var);
                match find_string_member(m, &k) {
                    Some(s) => s,
                    None => body.to_owned(),
                }
            }
        },
        StepReply::Text(s) => s.clone(),
        StepReply::Other => body.to_owned(),
    }
}

/// Keeps a stored value for the following steps. Verus has no model of
/// hashing `String` keys, so the map's new contents are stated under that
/// model only.
pub fn store_var(ctx: &mut ScriptContext, name: String, value: String)
    ensures
        final(ctx).app_vars == old(ctx).app_vars,
        final(ctx).service_name == old(ctx).service_name,
        vstd::std_specs::hash::obeys_key_model::<String>() ==> final(ctx).step_vars@ == old(
            ctx,
        ).step_vars@.insert(name, value),
{
    ctx.step_vars.insert(name, value);
}

/// Progress of a running script.
pub struct ScriptRun {
    /// Index of the step being run.
    pub step: usize,
    /// Reply body of the last step that succeeded.
    pub last_body: Option<String>,
}

/// `Step <n> args parse error: <e>`.
pub open spec fn args_error_text(step: nat, e: Seq<char>) -> Seq<char> {
    "Step "@ + dec(step + 1) + " args parse error: "@ + e
}

/// `Step <n> (<command>) failed: <e>`.
pub open spec fn call_error_text(step: nat, command: Seq<char>, e: Seq<char>) -> Seq<char> {
    "Step "@ + dec(step + 1) + " ("@ + command + ") failed: "@ + e
}

impl ScriptRun {
    /// A run before its first step.
    pub fn new() -> (r: ScriptRun)
        ensures
            r.step == 0,
            r.last_body is None,
    {
        ScriptRun { step: 0, last_body: None }
    }

    /// The current step succeeded with reply `body`: it becomes the last
    /// body, and the run moves on.
    pub fn on_step_done(&mut self, body: String)
        requires
            old(self).step < usize::MAX,
        ensures
            final(self).step == old(self).step + 1,
            final(self).last_body == Some(body),
    {
        self.step = self.step + 1;
        self.last_body = Some(body);
    }

    /// The current step's arguments did not parse: the run ends with an
    /// error and no body.
    pub fn args_failed(&self, error: &str) -> (r: ScriptResult)
        requires
            self.step < usize::MAX,
        ensures
            r.rc == 10,
            r.body is None,
            r.error matches Some(e) && e@ == args_error_text(self.step as nat, error@),
    {
        let mut v = chars_of("Step ");
        append_chars(&mut v, &dec_chars((self.step + 1) as u64));
        append_str(&mut v, " args parse error: ");
        append_str(&mut v, error);
        ScriptResult { rc: 10, body: None, error: Some(string_of(&v)) }
    }

    /// The current step's call failed: the run ends with an error and the
    /// body of the last step that succeeded.
    pub fn call_failed(&self, command: &str, error: &str) -> (r: ScriptResult)
        requires
            self.step < usize::MAX,
        ensures
            r.rc == 10,
            r.body == self.last_body,
            r.error matches Some(e) && e@ == call_error_text(self.step as nat, command@, error@),
    {
        let mut v = chars_of("Step ");
        append_chars(&mut v, &dec_chars((self.step + 1) as u64));
        append_str(&mut v, " (");
        append_str(&mut v, command);
        append_str(&mut v, ") failed: ");
        append_str(&mut v, error);
        let body = match &self.last_body {
            Some(b) => Some(b.clone()),
            None => None,
        };
        ScriptResult { rc: 10, body, error: Some(string_of(&v)) }
    }

    /// Every step succeeded: success with the last body.
    pub fn finish(self) -> (r: ScriptResult)
        ensures
            r.rc == 0,
            r.body == self.last_body,
            r.error is None,
    {
        ScriptResult { rc: 0, body: self.last_body, error: None }
    }
}

} // verus!
