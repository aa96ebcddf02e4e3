//! Character-level text helpers shared by the protocol and parsing modules.
//!
//! Strings are handled as sequences of `char`: a `&str` or `String` is
//! viewed as `Seq<char>`, and most of the library works on `Vec<char>`
//! internally before handing a `String` back.
use vstd::prelude::*;
use vstd::string::*;

verus! {

/// The Unicode `White_Space` property, as `char::is_whitespace` tests it.
pub open spec fn is_ws(c: char) -> bool {
    let u = c as u32;
    ||| (0x9 <= u && u <= 0xD)
    ||| u == 0x20
    ||| u == 0x85
    ||| u == 0xA0
    ||| u == 0x1680
    ||| (0x2000 <= u && u <= 0x200A)
    ||| u == 0x2028
    ||| u == 0x2029
    ||| u == 0x202F
    ||| u == 0x205F
    ||| u == 0x3000
}

/// Whitespace test on one character.
pub fn is_whitespace(c: char) -> (b: bool)
    ensures
        b == is_ws(c),
{
    let u = c as u32;
    (0x9 <= u && u <= 0xD) || u == 0x20 || u == 0x85 || u == 0xA0 || u == 0x1680 || (0x2000
        <= u && u <= 0x200A) || u == 0x2028 || u == 0x2029 || u == 0x202F || u == 0x205F || u
        == 0x3000
}

/// `s` with leading whitespace removed.
pub open spec fn trim_start(s: Seq<char>) -> Seq<char>
    decreases s.len(),
{
    if s.len() > 0 && is_ws(s[0]) {
        trim_start(s.drop_first())
    } else {
        s
    }
}

/// `s` with trailing whitespace removed.
pub open spec fn trim_end(s: Seq<char>) -> Seq<char>
    decreases s.len(),
{
    if s.len() > 0 && is_ws(s.last()) {
        trim_end(s.drop_last())
    } else {
        s
    }
}

/// `s` with whitespace removed at both ends (`str::trim`).
pub open spec fn trim(s: Seq<char>) -> Seq<char> {
    trim_end(trim_start(s))
}

/// `p` is a prefix of `s`.
pub open spec fn has_prefix(s: Seq<char>, p: Seq<char>) -> bool {
    p.len() <= s.len() && s.take(p.len() as int) == p
}

/// The leading run of non-whitespace characters of `s`.
pub open spec fn leading_word(s: Seq<char>) -> Seq<char>
    decreases s.len(),
{
    if s.len() > 0 && !is_ws(s[0]) {
        seq![s[0]] + leading_word(s.drop_first())
    } else {
        Seq::empty()
    }
}

/// The first whitespace-separated word (`s.split_whitespace().next()`).
pub open spec fn first_word(s: Seq<char>) -> Option<Seq<char>> {
    let t = trim_start(s);
    if t.len() == 0 {
        None
    } else {
        Some(leading_word(t))
    }
}

/// `i` is the first position of `c` in `s`.
pub open spec fn is_first_index(s: Seq<char>, c: char, i: int) -> bool {
    &&& 0 <= i < s.len()
    &&& s[i] == c
    &&& forall|j: int| 0 <= j < i ==> s[j] != c
}

/// Number of UTF-8 bytes that encode `c` (`char::len_utf8`).
pub open spec fn utf8_width(c: char) -> nat {
    let u = c as u32;
    if u < 0x80 {
        1
    } else if u < 0x800 {
        2
    } else if u < 0x10000 {
        3
    } else {
        4
    }
}

/// Number of UTF-8 bytes of the first `k` characters of `s`.
pub open spec fn utf8_prefix_len(s: Seq<char>, k: int) -> nat
    decreases k,
{
    if k <= 0 || s.len() == 0 {
        0
    } else if k > s.len() {
        utf8_prefix_len(s, s.len() as int)
    } else {
        utf8_prefix_len(s, k - 1) + utf8_width(s[k - 1])
    }
}

/// Byte offset `b` falls between two characters of `s` (`str::is_char_boundary`).
pub open spec fn is_char_boundary_at(s: Seq<char>, b: nat) -> bool {
    exists|k: int| 0 <= k <= s.len() && #[trigger] utf8_prefix_len(s, k) == b
}

/// Decimal digit character for `d < 10`.
pub open spec fn digit_char(d: nat) -> char {
    if d == 0 {
        '0'
    } else if d == 1 {
        '1'
    } else if d == 2 {
        '2'
    } else if d == 3 {
        '3'
    } else if d == 4 {
        '4'
    } else if d == 5 {
        '5'
    } else if d == 6 {
        '6'
    } else if d == 7 {
        '7'
    } else if d == 8 {
        '8'
    } else {
        '9'
    }
}

/// Decimal rendering of a natural number, as `Display` prints it.
pub open spec fn dec(n: nat) -> Seq<char>
    decreases n,
{
    if n < 10 {
        seq![digit_char(n)]
    } else {
        dec(n / 10).push(digit_char(n % 10))
    }
}

/// Decimal rendering of an integer, with a leading `-` when negative.
pub open spec fn dec_int(n: int) -> Seq<char> {
    if n < 0 {
        seq!['-'] + dec((-n) as nat)
    } else {
        dec(n as nat)
    }
}

/// Every character of `s` is ASCII.
pub open spec fn is_ascii_chars(s: Seq<char>) -> bool {
    forall|i: int| 0 <= i < s.len() ==> (#[trigger] s[i] as u32) < 0x80
}

/// `A`..`Z` mapped to `a`..`z`; every other character unchanged.
pub open spec fn ascii_lower_char(c: char) -> char {
    if 65 <= (c as u32) && (c as u32) <= 90 {
        ((c as u32) + 32) as char
    } else {
        c
    }
}

/// `a`..`z` mapped to `A`..`Z`; every other character unchanged.
pub open spec fn ascii_upper_char(c: char) -> char {
    if 97 <= (c as u32) && (c as u32) <= 122 {
        ((c as u32) - 32) as char
    } else {
        c
    }
}

/// `s` with its ASCII capitals lower-cased.
pub open spec fn ascii_lower(s: Seq<char>) -> Seq<char> {
    s.map_values(|c: char| ascii_lower_char(c))
}

/// `s` with its ASCII small letters upper-cased.
pub open spec fn ascii_upper(s: Seq<char>) -> Seq<char> {
    s.map_values(|c: char| ascii_upper_char(c))
}

/// What `str::to_lowercase` returns for a string: a function of the string alone.
pub uninterp spec fn str_lower(s: Seq<char>) -> Seq<char>;

/// What `str::to_uppercase` returns for a string: a function of the string alone.
pub uninterp spec fn str_upper(s: Seq<char>) -> Seq<char>;

/// What `char::to_uppercase` yields for a character, collected into a string.
pub uninterp spec fn char_upper(c: char) -> Seq<char>;

/// What `char::to_lowercase` yields for a character, collected into a string.
pub uninterp spec fn char_lower(c: char) -> Seq<char>;

/// What `String::from_utf8_lossy` decodes from bytes (invalid sequences
/// become U+FFFD): a function of the bytes alone.
pub uninterp spec fn utf8_lossy(b: Seq<u8>) -> Seq<char>;

/// Calls `str::to_lowercase`; the result is named `str_lower` of the input.
/// On ASCII input the Unicode lower-case mapping is the ASCII one (`A`..`Z`
/// to `a`..`z`, everything else unchanged), as the standard library's
/// documentation of `to_ascii_lowercase` and `to_lowercase` describes; that
/// is stated, and nothing more of other input.
#[verifier::external_body]
pub(crate) fn to_lowercase(s: &str) -> (r: String)
    ensures
        r@ == str_lower(s@),
        is_ascii_chars(s@) ==> r@ == ascii_lower(s@),
{
    s.to_lowercase()
}

/// Calls `str::to_uppercase`; the result is named `str_upper` of the input.
/// On ASCII input the Unicode upper-case mapping is the ASCII one (`a`..`z`
/// to `A`..`Z`, everything else unchanged), as the standard library's
/// documentation of `to_ascii_uppercase` and `to_uppercase` describes; that
/// is stated, and nothing more of other input.
#[verifier::external_body]
pub(crate) fn to_uppercase(s: &str) -> (r: String)
    ensures
        r@ == str_upper(s@),
        is_ascii_chars(s@) ==> r@ == ascii_upper(s@),
{
    s.to_uppercase()
}

/// Calls `char::to_uppercase` and collects the characters it yields. For an
/// ASCII character that is the one ASCII upper-case character (`a`..`z` to
/// `A`..`Z`, everything else unchanged); nothing more is stated of others.
#[verifier::external_body]
pub(crate) fn char_to_uppercase(c: char) -> (r: String)
    ensures
        r@ == char_upper(c),
        (c as u32) < 0x80 ==> r@ == seq![ascii_upper_char(c)],
{
    c.to_uppercase().collect()
}

/// Calls `char::to_lowercase` and collects the characters it yields.
#[verifier::external_body]
pub(crate) fn char_to_lowercase(c: char) -> (r: String)
    ensures
        r@ == char_lower(c),
{
    c.to_lowercase().collect()
}

/// Calls `String::from_utf8_lossy` and takes the owned result.
#[verifier::external_body]
pub(crate) fn from_utf8_lossy(b: &[u8]) -> (r: String)
    ensures
        r@ == utf8_lossy(b@),
{
    String::from_utf8_lossy(b).into_owned()
}

/// Calls `String::push`: the character is appended.
#[verifier::external_body]
pub(crate) fn push_char(s: &mut String, c: char)
    ensures
        final(s)@ == old(s)@.push(c),
{
    s.push(c)
}

/// The characters of a string slice.
pub fn chars_of(s: &str) -> (v: Vec<char>)
    ensures
        v@ == s@,
{
    let n = s.unicode_len();
    let mut v: Vec<char> = Vec::new();
    let mut i: usize = 0;
    while i < n
        invariant
            n == s@.len(),
            i <= n,
            v@ == s@.take(i as int),
        decreases n - i,
    {
        let c = s.get_char(i);
        v.push(c);
        i = i + 1;
        assert(v@ =~= s@.take(i as int));
    }
    assert(v@ =~= s@);
    v
}

/// A `String` holding the characters of `v`.
pub fn string_of(v: &[char]) -> (s: String)
    ensures
        s@ == v@,
{
    let mut s = String::new();
    let mut i: usize = 0;
    while i < v.len()
        invariant
            i <= v@.len(),
            s@ == v@.take(i as int),
        decreases v@.len() - i,
    {
        push_char(&mut s, v[i]);
        i = i + 1;
        assert(s@ =~= v@.take(i as int));
    }
    assert(v@.take(v@.len() as int) =~= v@);
    s
}

/// Copy of `v[a..b]`.
pub fn sub_vec(v: &[char], a: usize, b: usize) -> (r: Vec<char>)
    requires
        a <= b <= v@.len(),
    ensures
        r@ == v@.subrange(a as int, b as int),
{
    let mut r: Vec<char> = Vec::new();
    let mut i = a;
    while i < b
        invariant
            a <= i <= b,
            b <= v@.len(),
            r@ == v@.subrange(a as int, i as int),
        decreases b - i,
    {
        r.push(v[i]);
        i = i + 1;
        assert(r@ =~= v@.subrange(a as int, i as int));
    }
    r
}

/// The first word of an ASCII string is ASCII.
pub proof fn lemma_first_word_ascii(s: Seq<char>)
    requires
        is_ascii_chars(s),
        first_word(s) is Some,
    ensures
        is_ascii_chars(first_word(s).unwrap()),
{
    lemma_trim_start_ascii(s);
    lemma_leading_word_ascii(trim_start(s));
}

proof fn lemma_leading_word_ascii(s: Seq<char>)
    requires
        is_ascii_chars(s),
    ensures
        is_ascii_chars(leading_word(s)),
    decreases s.len(),
{
    if s.len() > 0 && !is_ws(s[0]) {
        assert(is_ascii_chars(s.drop_first()));
        lemma_leading_word_ascii(s.drop_first());
        let w = leading_word(s.drop_first());
        assert forall|i: int| 0 <= i < (seq![s[0]] + w).len() implies ((#[trigger] (seq![s[0]] + w)[i]) as u32) < 0x80 by {
            if i > 0 {
                assert((seq![s[0]] + w)[i] == w[i - 1]);
            }
        }
    }
}

/// In an ASCII string every character is one byte.
pub proof fn lemma_ascii_prefix_len(s: Seq<char>, k: int)
    requires
        is_ascii_chars(s),
        0 <= k <= s.len(),
    ensures
        utf8_prefix_len(s, k) == k,
    decreases k,
{
    if k > 0 {
        lemma_ascii_prefix_len(s, k - 1);
        assert((s[k - 1] as u32) < 0x80);
    }
}

/// Trimming keeps a string ASCII.
pub proof fn lemma_trim_ascii(s: Seq<char>)
    requires
        is_ascii_chars(s),
    ensures
        is_ascii_chars(trim(s)),
{
    lemma_trim_start_ascii(s);
    lemma_trim_end_ascii(trim_start(s));
}

proof fn lemma_trim_start_ascii(s: Seq<char>)
    requires
        is_ascii_chars(s),
    ensures
        is_ascii_chars(trim_start(s)),
    decreases s.len(),
{
    if s.len() > 0 && is_ws(s[0]) {
        assert(is_ascii_chars(s.drop_first()));
        lemma_trim_start_ascii(s.drop_first());
    }
}

proof fn lemma_trim_end_ascii(s: Seq<char>)
    requires
        is_ascii_chars(s),
    ensures
        is_ascii_chars(trim_end(s)),
    decreases s.len(),
{
    if s.len() > 0 && is_ws(s.last()) {
        assert(is_ascii_chars(s.drop_last()));
        lemma_trim_end_ascii(s.drop_last());
    }
}

pub proof fn lemma_trim_start_skip(s: Seq<char>, k: int)
    requires
        0 <= k <= s.len(),
        forall|i: int| 0 <= i < k ==> is_ws(s[i]),
    ensures
        trim_start(s) == trim_start(s.skip(k)),
    decreases k,
{
    if k > 0 {
        assert(s.drop_first().skip(k - 1) =~= s.skip(k));
        lemma_trim_start_skip(s.drop_first(), k - 1);
    } else {
        assert(s.skip(0) =~= s);
    }
}

pub proof fn lemma_trim_end_take(s: Seq<char>, k: int)
    requires
        0 <= k <= s.len(),
        forall|i: int| k <= i < s.len() ==> is_ws(s[i]),
    ensures
        trim_end(s) == trim_end(s.take(k)),
    decreases s.len() - k,
{
    if k < s.len() {
        assert(s.drop_last().take(k) =~= s.take(k));
        lemma_trim_end_take(s.drop_last(), k);
    } else {
        assert(s.take(k) =~= s);
    }
}

/// Number of leading whitespace characters of `v`.
pub fn count_leading_ws(v: &[char]) -> (k: usize)
    ensures
        k <= v@.len(),
        forall|i: int| 0 <= i < k ==> is_ws(v@[i]),
        k == v@.len() || !is_ws(v@[k as int]),
        trim_start(v@) == v@.skip(k as int),
{
    let mut k: usize = 0;
    while k < v.len() && is_whitespace(v[k])
        invariant
            k <= v@.len(),
            forall|i: int| 0 <= i < k ==> is_ws(v@[i]),
        decreases v@.len() - k,
    {
        k = k + 1;
    }
    proof {
        lemma_trim_start_skip(v@, k as int);
    }
    k
}

/// Length of `v` without its trailing whitespace.
pub fn trimmed_end_len(v: &[char]) -> (k: usize)
    ensures
        k <= v@.len(),
        trim_end(v@) == v@.take(k as int),
{
    let mut k: usize = v.len();
    while k > 0 && is_whitespace(v[k - 1])
        invariant
            k <= v@.len(),
            forall|i: int| k <= i < v@.len() ==> is_ws(v@[i]),
        decreases k,
    {
        k = k - 1;
    }
    proof {
        lemma_trim_end_take(v@, k as int);
    }
    k
}

/// `trim_end` of a sequence already ends at `k`.
pub proof fn lemma_trim_end_stable(s: Seq<char>)
    requires
        s.len() == 0 || !is_ws(s.last()),
    ensures
        trim_end(s) == s,
{
}

/// Start and end of `v` with whitespace removed at both ends.
pub fn trim_bounds(v: &[char]) -> (r: (usize, usize))
    ensures
        r.0 <= r.1 <= v@.len(),
        v@.subrange(r.0 as int, r.1 as int) == trim(v@),
{
    let a = count_leading_ws(v);
    let mut b: usize = v.len();
    while b > a && is_whitespace(v[b - 1])
        invariant
            a <= b <= v@.len(),
            forall|i: int| b <= i < v@.len() ==> is_ws(v@[i]),
        decreases b,
    {
        b = b - 1;
    }
    proof {
        let t = v@.skip(a as int);
        lemma_trim_end_take(t, b - a);
        assert(t.take(b - a) =~= v@.subrange(a as int, b as int));
        let u = v@.subrange(a as int, b as int);
        if u.len() > 0 {
            assert(u.last() == v@[b - 1]);
        }
        lemma_trim_end_stable(u);
    }
    (a, b)
}

/// Copy of `v` with whitespace removed at both ends.
pub fn trim_vec(v: &[char]) -> (r: Vec<char>)
    ensures
        r@ == trim(v@),
{
    let (a, b) = trim_bounds(v);
    sub_vec(v, a, b)
}

/// Copy of `v` with trailing whitespace removed.
pub fn trim_end_vec(v: &[char]) -> (r: Vec<char>)
    ensures
        r@ == trim_end(v@),
{
    let k = trimmed_end_len(v);
    let r = sub_vec(v, 0, k);
    assert(r@ =~= v@.take(k as int));
    r
}

pub proof fn lemma_leading_word_take(s: Seq<char>, k: int)
    requires
        0 <= k <= s.len(),
        forall|i: int| 0 <= i < k ==> !is_ws(s[i]),
        k == s.len() || is_ws(s[k]),
    ensures
        leading_word(s) == s.take(k),
    decreases k,
{
    if k > 0 {
        lemma_leading_word_take(s.drop_first(), k - 1);
        assert(seq![s[0]] + s.drop_first().take(k - 1) =~= s.take(k));
    } else {
        assert(s.take(0) =~= Seq::<char>::empty());
    }
}

/// First whitespace-separated word of `v`, or `None` when `v` is blank.
pub fn first_word_vec(v: &[char]) -> (r: Option<Vec<char>>)
    ensures
        match r {
            Some(w) => first_word(v@) == Some(w@),
            None => first_word(v@) is None,
        },
{
    let a = count_leading_ws(v);
    if a == v.len() {
        return None;
    }
    let mut b = a;
    while b < v.len() && !is_whitespace(v[b])
        invariant
            a <= b <= v@.len(),
            forall|i: int| a <= i < b ==> !is_ws(v@[i]),
        decreases v@.len() - b,
    {
        b = b + 1;
    }
    proof {
        let t = v@.skip(a as int);
        assert forall|i: int| 0 <= i < b - a implies !is_ws(t[i]) by {
            assert(t[i] == v@[a + i]);
        }
        if b < v@.len() {
            assert(t[b - a] == v@[b as int]);
        }
        lemma_leading_word_take(t, b - a);
        assert(t.take(b - a) =~= v@.subrange(a as int, b as int));
    }
    Some(sub_vec(v, a, b))
}

/// Position of the first `c` in `v`.
pub fn find_char(v: &[char], c: char) -> (r: Option<usize>)
    ensures
        match r {
            Some(i) => is_first_index(v@, c, i as int),
            None => !v@.contains(c),
        },
{
    let mut i: usize = 0;
    while i < v.len()
        invariant
            i <= v@.len(),
            forall|j: int| 0 <= j < i ==> v@[j] != c,
        decreases v@.len() - i,
    {
        if v[i] == c {
            return Some(i);
        }
        i = i + 1;
    }
    None
}

/// `v` begins with the characters of the literal `lit`.
pub fn starts_with_str(v: &[char], lit: &str) -> (b: bool)
    ensures
        b == has_prefix(v@, lit@),
{
    let n = lit.unicode_len();
    if n > v.len() {
        return false;
    }
    let mut i: usize = 0;
    while i < n
        invariant
            n == lit@.len(),
            n <= v@.len(),
            i <= n,
            forall|j: int| 0 <= j < i ==> v@[j] == lit@[j],
        decreases n - i,
    {
        if v[i] != lit.get_char(i) {
            assert(v@.take(n as int)[i as int] != lit@[i as int]);
            return false;
        }
        i = i + 1;
    }
    assert(v@.take(n as int) =~= lit@);
    true
}

/// `v` holds exactly the characters of the literal `lit`.
pub fn eq_str(v: &[char], lit: &str) -> (b: bool)
    ensures
        b == (v@ == lit@),
{
    if v.len() != lit.unicode_len() {
        return false;
    }
    let r = starts_with_str(v, lit);
    proof {
        if r {
            assert(v@.take(v@.len() as int) =~= v@);
        } else {
            assert(v@.take(lit@.len() as int) =~= v@);
        }
    }
    r
}

/// Two character vectors are equal.
pub fn eq_chars(a: &[char], b: &[char]) -> (r: bool)
    ensures
        r == (a@ == b@),
{
    if a.len() != b.len() {
        return false;
    }
    let mut i: usize = 0;
    while i < a.len()
        invariant
            a@.len() == b@.len(),
            i <= a@.len(),
            forall|j: int| 0 <= j < i ==> a@[j] == b@[j],
        decreases a@.len() - i,
    {
        if a[i] != b[i] {
            return false;
        }
        i = i + 1;
    }
    assert(a@ =~= b@);
    true
}

/// Appends the characters of `src` to `dst`.
pub fn append_chars(dst: &mut Vec<char>, src: &[char])
    ensures
        final(dst)@ == old(dst)@ + src@,
{
    let mut i: usize = 0;
    while i < src.len()
        invariant
            i <= src@.len(),
            dst@ == old(dst)@ + src@.take(i as int),
        decreases src@.len() - i,
    {
        dst.push(src[i]);
        i = i + 1;
        assert(dst@ =~= old(dst)@ + src@.take(i as int));
    }
    assert(src@.take(src@.len() as int) =~= src@);
}

/// Appends the characters of the literal `lit` to `dst`.
pub fn append_str(dst: &mut Vec<char>, lit: &str)
    ensures
        final(dst)@ == old(dst)@ + lit@,
{
    let v = chars_of(lit);
    append_chars(dst, &v);
}

/// Decimal digit as a character.
pub fn digit(d: u64) -> (c: char)
    requires
        d < 10,
    ensures
        c == digit_char(d as nat),
{
    if d == 0 {
        '0'
    } else if d == 1 {
        '1'
    } else if d == 2 {
        '2'
    } else if d == 3 {
        '3'
    } else if d == 4 {
        '4'
    } else if d == 5 {
        '5'
    } else if d == 6 {
        '6'
    } else if d == 7 {
        '7'
    } else if d == 8 {
        '8'
    } else {
        '9'
    }
}

/// Decimal digits of `n`.
pub fn dec_chars(n: u64) -> (r: Vec<char>)
    ensures
        r@ == dec(n as nat),
    decreases n,
{
    if n < 10 {
        let mut r = Vec::new();
        r.push(digit(n));
        assert(r@ =~= dec(n as nat));
        r
    } else {
        let mut r = dec_chars(n / 10);
        r.push(digit(n % 10));
        r
    }
}

/// Decimal rendering of a signed integer.
pub fn dec_int_chars(n: i64) -> (r: Vec<char>)
    ensures
        r@ == dec_int(n as int),
{
    if n < 0 {
        let m: u64 = if n == i64::MIN {
            9223372036854775808u64
        } else {
            (-n) as u64
        };
        let d = dec_chars(m);
        let mut r: Vec<char> = Vec::new();
        r.push('-');
        append_chars(&mut r, &d);
        assert(r@ =~= seq!['-'] + d@);
        r
    } else {
        dec_chars(n as u64)
    }
}

/// An ASCII decimal digit.
pub open spec fn is_digit(c: char) -> bool {
    '0' <= c && c <= '9'
}

/// Value of a string of decimal digits.
pub open spec fn digits_value(s: Seq<char>) -> nat
    decreases s.len(),
{
    if s.len() == 0 {
        0
    } else {
        10 * digits_value(s.drop_last()) + ((s.last() as u32 - '0' as u32) as nat)
    }
}

/// All characters are decimal digits.
pub open spec fn all_digits(s: Seq<char>) -> bool {
    forall|i: int| 0 <= i < s.len() ==> is_digit(#[trigger] s[i])
}

/// What `str::parse::<i64>` accepts and gives: an optional `+` or `-`, then
/// one or more decimal digits, the value fitting in `i64`.
pub open spec fn spec_parse_i64(s: Seq<char>) -> Option<int> {
    let neg = s.len() > 0 && s[0] == '-';
    let body = if s.len() > 0 && (s[0] == '-' || s[0] == '+') { s.drop_first() } else { s };
    let v = if neg { -(digits_value(body) as int) } else { digits_value(body) as int };
    if body.len() > 0 && all_digits(body) && i64::MIN <= v <= i64::MAX {
        Some(v)
    } else {
        None
    }
}

proof fn lemma_digits_value_grows(s: Seq<char>, k: int)
    requires
        0 <= k <= s.len(),
        all_digits(s),
    ensures
        digits_value(s.take(k)) <= digits_value(s),
    decreases s.len() - k,
{
    if k < s.len() {
        lemma_digits_value_grows(s, k + 1);
        assert(s.take(k + 1).drop_last() =~= s.take(k));
        assert(is_digit(s[k]));
    } else {
        assert(s.take(k) =~= s);
    }
}

/// Parses a decimal `i64` as `str::parse` does.
pub fn parse_i64(s: &str) -> (r: Option<i64>)
    ensures
        match r {
            Some(v) => spec_parse_i64(s@) == Some(v as int),
            None => spec_parse_i64(s@) is None,
        },
{
    let v = chars_of(s);
    let neg = v.len() > 0 && v[0] == '-';
    let start: usize = if v.len() > 0 && (v[0] == '-' || v[0] == '+') { 1 } else { 0 };
    let ghost body = if v@.len() > 0 && (v@[0] == '-' || v@[0] == '+') { v@.drop_first() } else { v@ };
    assert(body =~= v@.skip(start as int));
    if start >= v.len() {
        return None;
    }
    let mut acc: u128 = 0;
    let mut i = start;
    while i < v.len()
        invariant
            start <= i <= v@.len(),
            v@ == s@,
            start == (if v@.len() > 0 && (v@[0] == '-' || v@[0] == '+') { 1int } else { 0int }),
            body == (if v@.len() > 0 && (v@[0] == '-' || v@[0] == '+') { v@.drop_first() } else { v@ }),
            body == v@.skip(start as int),
            acc == digits_value(body.take(i - start)),
            all_digits(body.take(i - start)),
            acc <= 9223372036854775808u128,
        decreases v@.len() - i,
    {
        let c = v[i];
        assert(body[i - start] == c);
        if !('0' <= c && c <= '9') {
            assert(!is_digit(body[i - start]));
            assert(!all_digits(body));
            assert(v@ == s@);
            assert(spec_parse_i64(s@) is None);
            return None;
        }
        let d = (c as u32 - '0' as u32) as u128;
        assert(body.take(i + 1 - start).drop_last() =~= body.take(i - start));
        acc = acc * 10 + d;
        i = i + 1;
        assert(all_digits(body.take(i - start)));
        if acc > 9223372036854775808u128 {
            proof {
                assert(v@ == s@);
                if all_digits(body) {
                    lemma_digits_value_grows(body, i - start);
                    assert(digits_value(body) > 9223372036854775808);
                }
                assert(spec_parse_i64(s@) is None);
            }
            return None;
        }
    }
    assert(body.take(i - start) =~= body);
    if neg {
        if acc == 9223372036854775808u128 {
            Some(i64::MIN)
        } else {
            Some(-(acc as i64))
        }
    } else if acc > 9223372036854775807u128 {
        None
    } else {
        Some(acc as i64)
    }
}

/// `parts` joined with `sep` between neighbours (`[String]::join`).
pub open spec fn join(parts: Seq<Seq<char>>, sep: Seq<char>) -> Seq<char>
    decreases parts.len(),
{
    if parts.len() == 0 {
        Seq::empty()
    } else if parts.len() == 1 {
        parts[0]
    } else {
        join(parts.drop_last(), sep) + sep + parts.last()
    }
}

/// `parts` joined with `sep`.
pub fn join_strings(parts: &[String], sep: &str) -> (r: Vec<char>)
    ensures
        r@ == join(parts.deep_view(), sep@),
{
    let ghost pv = parts.deep_view();
    let mut r: Vec<char> = Vec::new();
    let mut i: usize = 0;
    while i < parts.len()
        invariant
            i <= parts@.len(),
            pv == parts.deep_view(),
            r@ == join(pv.take(i as int), sep@),
        decreases parts@.len() - i,
    {
        let p = chars_of(parts[i].as_str());
        assert(pv.take(i + 1).drop_last() =~= pv.take(i as int));
        assert(pv.take(i + 1).last() == p@);
        if i > 0 {
            append_str(&mut r, sep);
        } else {
            assert(pv.take(1) =~= seq![p@]);
        }
        append_chars(&mut r, &p);
        i = i + 1;
        proof {
            if i == 1 {
                assert(r@ =~= join(pv.take(1), sep@));
            }
        }
    }
    assert(pv.take(parts@.len() as int) =~= pv);
    r
}

/// Pieces of `s` between occurrences of `c` (`str::split(c)`).
pub open spec fn split_on(s: Seq<char>, c: char) -> Seq<Seq<char>>
    decreases s.len(),
{
    if s.len() == 0 {
        seq![Seq::empty()]
    } else {
        let p = split_on(s.drop_last(), c);
        if s.last() == c {
            p.push(Seq::empty())
        } else {
            p.update(p.len() - 1, p.last().push(s.last()))
        }
    }
}

proof fn lemma_split_on_single(b: Seq<char>, c: char)
    requires
        !b.contains(c),
    ensures
        split_on(b, c) == seq![b],
    decreases b.len(),
{
    if b.len() > 0 {
        assert(!b.drop_last().contains(c)) by {
            if b.drop_last().contains(c) {
                let k = choose|k: int| 0 <= k < b.drop_last().len() && b.drop_last()[k] == c;
                assert(b[k] == c);
            }
        }
        lemma_split_on_single(b.drop_last(), c);
        assert(b.drop_last().push(b.last()) =~= b);
    } else {
        assert(b =~= Seq::<char>::empty());
    }
}

proof fn lemma_split_on_after(a: Seq<char>, b: Seq<char>, c: char)
    requires
        !b.contains(c),
    ensures
        split_on(a + seq![c] + b, c) == split_on(a, c).push(b),
    decreases b.len(),
{
    let s = a + seq![c] + b;
    if b.len() == 0 {
        assert(s.drop_last() =~= a);
        assert(b =~= Seq::<char>::empty());
    } else {
        assert(!b.drop_last().contains(c)) by {
            if b.drop_last().contains(c) {
                let k = choose|k: int| 0 <= k < b.drop_last().len() && b.drop_last()[k] == c;
                assert(b[k] == c);
            }
        }
        lemma_split_on_after(a, b.drop_last(), c);
        assert(s.drop_last() =~= a + seq![c] + b.drop_last());
        assert(s.last() == b.last());
        assert(b.drop_last().push(b.last()) =~= b);
        assert(split_on(a, c).push(b.drop_last()).update(
            split_on(a, c).len() as int,
            b.drop_last().push(b.last()),
        ) =~= split_on(a, c).push(b));
    }
}

/// Splitting parts joined with `c` gives the parts back, when no part
/// holds `c`.
pub proof fn lemma_split_on_join(parts: Seq<Seq<char>>, c: char)
    requires
        parts.len() >= 1,
        forall|k: int| 0 <= k < parts.len() ==> !(#[trigger] parts[k]).contains(c),
    ensures
        split_on(join(parts, seq![c]), c) == parts,
    decreases parts.len(),
{
    if parts.len() == 1 {
        lemma_split_on_single(parts[0], c);
        assert(parts =~= seq![parts[0]]);
    } else {
        let d = parts.drop_last();
        assert forall|k: int| 0 <= k < d.len() implies !(#[trigger] d[k]).contains(c) by {
            assert(d[k] == parts[k]);
        }
        lemma_split_on_join(d, c);
        assert(!parts.last().contains(c));
        lemma_split_on_after(join(d, seq![c]), parts.last(), c);
        assert(d.push(parts.last()) =~= parts);
    }
}

/// The pieces of an ASCII string are ASCII.
pub proof fn lemma_split_on_ascii(s: Seq<char>, c: char)
    requires
        is_ascii_chars(s),
    ensures
        forall|k: int| 0 <= k < split_on(s, c).len() ==> is_ascii_chars(#[trigger] split_on(s, c)[k]),
    decreases s.len(),
{
    if s.len() > 0 {
        assert(is_ascii_chars(s.drop_last()));
        lemma_split_on_ascii(s.drop_last(), c);
        lemma_split_on_len(s.drop_last(), c);
        let p = split_on(s.drop_last(), c);
        assert(is_ascii_chars(p.last().push(s.last())));
    }
}

pub proof fn lemma_split_on_len(s: Seq<char>, c: char)
    ensures
        split_on(s, c).len() >= 1,
    decreases s.len(),
{
    if s.len() > 0 {
        lemma_split_on_len(s.drop_last(), c);
    }
}

/// A line without the carriage return that ended it.
pub open spec fn strip_cr(l: Seq<char>) -> Seq<char> {
    if l.len() > 0 && l.last() == '\r' {
        l.drop_last()
    } else {
        l
    }
}

/// The lines of `s` (`str::lines`): split at LF, a CR before the LF dropped,
/// and no empty last line after a final LF.
pub open spec fn str_lines(s: Seq<char>) -> Seq<Seq<char>> {
    let p = split_on(s, '\n');
    let body = Seq::new((p.len() - 1) as nat, |i: int| strip_cr(p[i]));
    if p.last().len() > 0 {
        body.push(p.last())
    } else {
        body
    }
}

/// The whitespace-separated words of `s` (`str::split_whitespace`).
pub open spec fn words(s: Seq<char>) -> Seq<Seq<char>>
    decreases s.len(),
{
    if s.len() == 0 {
        Seq::empty()
    } else {
        let p = words(s.drop_last());
        let c = s.last();
        if is_ws(c) {
            p
        } else if s.len() >= 2 && !is_ws(s[s.len() - 2]) {
            p.update(p.len() - 1, p.last().push(c))
        } else {
            p.push(seq![c])
        }
    }
}

pub proof fn lemma_words_nonempty(s: Seq<char>)
    ensures
        s.len() > 0 && !is_ws(s.last()) ==> words(s).len() >= 1,
    decreases s.len(),
{
    if s.len() > 0 {
        lemma_words_nonempty(s.drop_last());
    }
}

/// `t` occurs in `s`.
pub open spec fn contains_sub(s: Seq<char>, t: Seq<char>) -> bool {
    exists|i: int| 0 <= i && i + t.len() <= s.len() && #[trigger] s.subrange(i, i + t.len()) == t
}

/// Views of character vectors.
pub open spec fn views(s: Seq<Vec<char>>) -> Seq<Seq<char>> {
    Seq::new(s.len(), |i: int| s[i]@)
}

/// The pieces of `v` between occurrences of `c`.
pub fn split_chars(v: &[char], c: char) -> (r: Vec<Vec<char>>)
    ensures
        views(r@) == split_on(v@, c),
        r@.len() >= 1,
{
    let mut done: Vec<Vec<char>> = Vec::new();
    let mut cur: Vec<char> = Vec::new();
    let mut i: usize = 0;
    while i < v.len()
        invariant
            i <= v@.len(),
            split_on(v@.take(i as int), c) == views(done@).push(cur@),
        decreases v@.len() - i,
    {
        assert(v@.take(i + 1).drop_last() =~= v@.take(i as int));
        let ghost d0 = views(done@);
        let ghost cv = cur@;
        if v[i] == c {
            done.push(cur);
            cur = Vec::new();
            assert(views(done@) =~= d0.push(cv));
            assert(split_on(v@.take(i + 1), c) =~= views(done@).push(cur@));
        } else {
            cur.push(v[i]);
            assert(split_on(v@.take(i + 1), c) =~= views(done@).push(cur@));
        }
        i = i + 1;
    }
    assert(v@.take(v@.len() as int) =~= v@);
    let ghost d0 = views(done@);
    let ghost cv = cur@;
    done.push(cur);
    assert(views(done@) =~= d0.push(cv));
    done
}

/// `l` without a final carriage return.
pub fn strip_cr_vec(l: Vec<char>) -> (r: Vec<char>)
    ensures
        r@ == strip_cr(l@),
{
    let mut l = l;
    if l.len() > 0 && l[l.len() - 1] == '\r' {
        l.pop();
    }
    l
}

/// The lines of `v`.
pub fn lines_of(v: &[char]) -> (r: Vec<Vec<char>>)
    ensures
        views(r@) == str_lines(v@),
{
    let pieces = split_chars(v, '\n');
    let ghost p = views(pieces@);
    let n = pieces.len();
    let mut out: Vec<Vec<char>> = Vec::new();
    let mut i: usize = 0;
    while i + 1 < n
        invariant
            n == p.len(),
            n >= 1,
            p == views(pieces@),
            i + 1 <= n,
            views(out@) == Seq::new(i as nat, |k: int| strip_cr(p[k])),
        decreases n - i,
    {
        let len = pieces[i].len();
        let piece = sub_vec(&pieces[i], 0, len);
        assert(piece@ =~= p[i as int]);
        let ghost o0 = views(out@);
        let s = strip_cr_vec(piece);
        let ghost sv = s@;
        out.push(s);
        assert(views(out@) =~= o0.push(sv));
        assert(sv == strip_cr(p[i as int]));
        assert(views(out@) =~= Seq::new((i + 1) as nat, |k: int| strip_cr(p[k])));
        i = i + 1;
    }
    if pieces[n - 1].len() > 0 {
        let ghost o0 = views(out@);
        let len = pieces[n - 1].len();
        let last = sub_vec(&pieces[n - 1], 0, len);
        assert(last@ =~= p.last());
        out.push(last);
        assert(views(out@) =~= o0.push(p.last()));
    }
    out
}

/// The whitespace-separated words of `v`.
pub fn words_of(v: &[char]) -> (r: Vec<Vec<char>>)
    ensures
        views(r@) == words(v@),
{
    let mut r: Vec<Vec<char>> = Vec::new();
    let mut i: usize = 0;
    while i < v.len()
        invariant
            i <= v@.len(),
            views(r@) == words(v@.take(i as int)),
        decreases v@.len() - i,
    {
        let ghost t = v@.take(i + 1);
        assert(t.drop_last() =~= v@.take(i as int));
        let c = v[i];
        let ghost r0 = views(r@);
        if is_whitespace(c) {
        } else if i >= 1 && !is_whitespace(v[i - 1]) {
            proof {
                lemma_words_nonempty(v@.take(i as int));
                assert(v@.take(i as int).last() == v@[i - 1]);
            }
            let k = r.len() - 1;
            let mut w = r.pop().unwrap();
            let ghost wv = w@;
            assert(wv == r0.last());
            w.push(c);
            r.push(w);
            assert(views(r@) =~= r0.update(r0.len() - 1, r0.last().push(c)));
            assert(t[t.len() - 2] == v@[i - 1]);
        } else {
            let mut w = Vec::new();
            w.push(c);
            r.push(w);
            assert(views(r@) =~= r0.push(seq![c]));
        }
        i = i + 1;
    }
    assert(v@.take(v@.len() as int) =~= v@);
    r
}

/// `t` occurs in `v`.
pub fn contains_chars(v: &[char], t: &[char]) -> (b: bool)
    ensures
        b == contains_sub(v@, t@),
{
    let n = v.len();
    let m = t.len();
    if m > n {
        return false;
    }
    let mut i: usize = 0;
    while i <= n - m
        invariant
            n == v@.len(),
            m == t@.len(),
            m <= n,
            forall|j: int| 0 <= j < i ==> #[trigger] v@.subrange(j, j + t@.len()) != t@,
        decreases v@.len() - i,
    {
        let mut k: usize = 0;
        let mut same = true;
        while k < m
            invariant
                n == v@.len(),
                m == t@.len(),
                i + m <= n,
                k <= t@.len(),
                same == forall|m: int| 0 <= m < k ==> v@[i + m] == t@[m],
            decreases t@.len() - k,
        {
            if v[i + k] != t[k] {
                same = false;
            }
            k = k + 1;
        }
        if same {
            assert(v@.subrange(i as int, i + t@.len()) =~= t@);
            return true;
        } else {
            proof {
                let m = choose|m: int| 0 <= m < t@.len() && v@[i + m] != t@[m];
                assert(v@.subrange(i as int, i + t@.len())[m] != t@[m]);
            }
        }
        i = i + 1;
    }
    assert forall|j: int| 0 <= j && j + t@.len() <= v@.len() implies #[trigger] v@.subrange(j, j + t@.len()) != t@ by {
        assert(j < i);
    }
    false
}

} // verus!
