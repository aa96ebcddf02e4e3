//! Parsing of the address arguments of the SMTP `MAIL` and `RCPT` commands.
use vstd::prelude::*;

use crate::text::{
    ascii_lower, ascii_upper, is_ascii_chars, lemma_ascii_prefix_len, lemma_first_word_ascii,
    lemma_trim_ascii, chars_of, first_word, first_word_vec, find_char, has_prefix, is_char_boundary_at,
    is_first_index, str_lower, str_upper, string_of, sub_vec, to_lowercase, to_uppercase, trim,
    trim_vec, utf8_prefix_len, utf8_width, starts_with_str,
};

verus! {

/// The first position of `c` in `s` (meaningful when `s` contains `c`).
pub open spec fn first_pos(s: Seq<char>, c: char) -> int {
    choose|i: int| is_first_index(s, c, i)
}

pub proof fn lemma_first_pos(s: Seq<char>, c: char, i: int)
    requires
        is_first_index(s, c, i),
    ensures
        first_pos(s, c) == i,
{
    let j = first_pos(s, c);
    assert(is_first_index(s, c, j));
    if j < i {
        assert(s[j] != c);
    }
    if i < j {
        assert(s[i] != c);
    }
}

/// The address inside `<...>`, or the first word of a bare address, lower-cased;
/// `<>` (the null sender) gives the empty address.
pub open spec fn spec_extract_angle_addr(s: Seq<char>) -> Option<Seq<char>> {
    if s.len() > 0 && s[0] == '<' {
        if s.contains('>') {
            let addr = s.subrange(1, first_pos(s, '>'));
            if addr.len() == 0 {
                Some(Seq::empty())
            } else {
                Some(str_lower(addr))
            }
        } else {
            None
        }
    } else {
        match first_word(s) {
            Some(w) => Some(str_lower(w)),
            None => None,
        }
    }
}

/// [`spec_extract_angle_addr`] for an ASCII string, whose lower-case form
/// is the ASCII one.
pub open spec fn ascii_extract_angle_addr(s: Seq<char>) -> Option<Seq<char>> {
    if s.len() > 0 && s[0] == '<' {
        if s.contains('>') {
            Some(ascii_lower(s.subrange(1, first_pos(s, '>'))))
        } else {
            None
        }
    } else {
        match first_word(s) {
            Some(w) => Some(ascii_lower(w)),
            None => None,
        }
    }
}

/// [`spec_parse_mail_from`] for an ASCII argument.
pub open spec fn ascii_parse_mail_from(args: Seq<char>) -> Option<Seq<char>> {
    if !has_prefix(ascii_upper(args), "FROM:"@) {
        None
    } else {
        ascii_extract_angle_addr(trim(args.skip(5)))
    }
}

/// [`spec_parse_rcpt_to`] for an ASCII argument.
pub open spec fn ascii_parse_rcpt_to(args: Seq<char>) -> Option<Seq<char>> {
    if !has_prefix(ascii_upper(args), "TO:"@) {
        None
    } else {
        ascii_extract_angle_addr(trim(args.skip(3)))
    }
}

/// The character index at which byte offset `b` of `s` falls.
pub open spec fn char_index_at_byte(s: Seq<char>, b: nat) -> int {
    choose|k: int| 0 <= k <= s.len() && utf8_prefix_len(s, k) == b
}

/// The part of `s` after its first `b` bytes.
pub open spec fn after_bytes(s: Seq<char>, b: nat) -> Seq<char> {
    s.skip(char_index_at_byte(s, b))
}

/// `MAIL FROM:` argument: `FROM:` (in any case) then an address.
pub open spec fn spec_parse_mail_from(args: Seq<char>) -> Option<Seq<char>> {
    if !has_prefix(str_upper(args), "FROM:"@) {
        None
    } else {
        spec_extract_angle_addr(trim(after_bytes(args, 5)))
    }
}

/// `RCPT TO:` argument: `TO:` (in any case) then an address.
pub open spec fn spec_parse_rcpt_to(args: Seq<char>) -> Option<Seq<char>> {
    if !has_prefix(str_upper(args), "TO:"@) {
        None
    } else {
        spec_extract_angle_addr(trim(after_bytes(args, 3)))
    }
}

/// Slicing `args` after `b` bytes does not panic: either the prefix test fails
/// first, or byte `b` falls between two characters.
pub open spec fn sliceable_after(args: Seq<char>, prefix: Seq<char>, b: nat) -> bool {
    has_prefix(str_upper(args), prefix) ==> is_char_boundary_at(args, b)
}

pub proof fn lemma_prefix_len_step(s: Seq<char>, k: int)
    requires
        0 <= k < s.len(),
    ensures
        utf8_prefix_len(s, k + 1) == utf8_prefix_len(s, k) + utf8_width(s[k]),
{
}

pub proof fn lemma_prefix_len_strict(s: Seq<char>, j: int, k: int)
    requires
        0 <= j < k <= s.len(),
    ensures
        utf8_prefix_len(s, j) < utf8_prefix_len(s, k),
    decreases k - j,
{
    lemma_prefix_len_step(s, k - 1);
    if j < k - 1 {
        lemma_prefix_len_strict(s, j, k - 1);
    }
}

pub proof fn lemma_char_index_at_byte(s: Seq<char>, b: nat, k: int)
    requires
        0 <= k <= s.len(),
        utf8_prefix_len(s, k) == b,
    ensures
        char_index_at_byte(s, b) == k,
{
    let j = char_index_at_byte(s, b);
    assert(0 <= j <= s.len() && utf8_prefix_len(s, j) == b);
    if j < k {
        lemma_prefix_len_strict(s, j, k);
    }
    if k < j {
        lemma_prefix_len_strict(s, k, j);
    }
}

/// UTF-8 width of one character.
pub fn char_width(c: char) -> (w: usize)
    ensures
        w == utf8_width(c),
{
    let u = c as u32;
    if u < 0x80 {
        1
    } else if u < 0x800 {
        2
    } else if u < 0x10000 {
        3
    } else {
        4
    }
}

/// The character index at which byte offset `b` of `v` falls, if it falls
/// between two characters.
pub fn char_index_of_byte(v: &[char], b: usize) -> (r: Option<usize>)
    requires
        b < 0x1000,
    ensures
        match r {
            Some(k) => k <= v@.len() && utf8_prefix_len(v@, k as int) == b,
            None => !is_char_boundary_at(v@, b as nat),
        },
{
    let mut k: usize = 0;
    let mut acc: usize = 0;
    while k < v.len() && acc < b
        invariant
            k <= v@.len(),
            acc == utf8_prefix_len(v@, k as int),
            b < 0x1000,
            acc < b + 4,
            forall|j: int| 0 <= j < k ==> utf8_prefix_len(v@, j) < b,
        decreases v@.len() - k,
    {
        proof {
            lemma_prefix_len_step(v@, k as int);
        }
        acc = acc + char_width(v[k]);
        k = k + 1;
    }
    if acc == b {
        Some(k)
    } else {
        proof {
            assert forall|j: int| 0 <= j <= v@.len() implies #[trigger] utf8_prefix_len(v@, j)
                != b by {
                if j < k {
                } else if j > k {
                    lemma_prefix_len_strict(v@, k as int, j);
                    if k == v@.len() {
                    }
                }
            }
        }
        None
    }
}

/// Extract the address from `<addr>` or from a bare `addr`, dropping any
/// ESMTP parameters after it; the address is lower-cased.
pub fn extract_angle_addr(s: &str) -> (r: Option<String>)
    ensures
        match r {
            Some(a) => spec_extract_angle_addr(s@) == Some(a@),
            None => spec_extract_angle_addr(s@) is None,
        },
        is_ascii_chars(s@) ==> match r {
            Some(a) => ascii_extract_angle_addr(s@) == Some(a@),
            None => ascii_extract_angle_addr(s@) is None,
        },
{
    let v = chars_of(s);
    extract_angle_addr_chars(&v)
}

/// [`extract_angle_addr`] on a character vector.
pub fn extract_angle_addr_chars(v: &[char]) -> (r: Option<String>)
    ensures
        match r {
            Some(a) => spec_extract_angle_addr(v@) == Some(a@),
            None => spec_extract_angle_addr(v@) is None,
        },
        is_ascii_chars(v@) ==> match r {
            Some(a) => ascii_extract_angle_addr(v@) == Some(a@),
            None => ascii_extract_angle_addr(v@) is None,
        },
{
    if v.len() > 0 && v[0] == '<' {
        match find_char(v, '>') {
            None => None,
            Some(end) => {
                proof {
                    lemma_first_pos(v@, '>', end as int);
                    assert(v@.contains('>'));
                }
                let addr = sub_vec(v, 1, end);
                proof {
                    if is_ascii_chars(v@) {
                        assert(is_ascii_chars(addr@));
                    }
                }
                if addr.len() == 0 {
                    assert(ascii_lower(addr@) =~= Seq::<char>::empty());
                    Some(String::new())
                } else {
                    let a = string_of(&addr);
                    Some(to_lowercase(a.as_str()))
                }
            },
        }
    } else {
        match first_word_vec(v) {
            None => None,
            Some(w) => {
                proof {
                    if is_ascii_chars(v@) {
                        lemma_first_word_ascii(v@);
                    }
                }
                let a = string_of(&w);
                Some(to_lowercase(a.as_str()))
            },
        }
    }
}

/// Address of `args` after its first `b` bytes, trimmed; `k` is the character
/// index of that byte offset.
fn address_after(v: &[char], k: usize) -> (r: Option<String>)
    requires
        k <= v@.len(),
    ensures
        match r {
            Some(a) => spec_extract_angle_addr(trim(v@.skip(k as int))) == Some(a@),
            None => spec_extract_angle_addr(trim(v@.skip(k as int))) is None,
        },
        is_ascii_chars(v@) ==> match r {
            Some(a) => ascii_extract_angle_addr(trim(v@.skip(k as int))) == Some(a@),
            None => ascii_extract_angle_addr(trim(v@.skip(k as int))) is None,
        },
{
    let rest = sub_vec(v, k, v.len());
    assert(rest@ =~= v@.skip(k as int));
    proof {
        if is_ascii_chars(v@) {
            assert(is_ascii_chars(rest@));
            lemma_trim_ascii(rest@);
        }
    }
    let t = trim_vec(&rest);
    extract_angle_addr_chars(&t)
}

/// Parse the argument of `MAIL FROM:<addr>` or `MAIL FROM: <addr>`.
pub fn parse_mail_from(args: &str) -> (r: Option<String>)
    requires
        sliceable_after(args@, "FROM:"@, 5),
    ensures
        match r {
            Some(a) => spec_parse_mail_from(args@) == Some(a@),
            None => spec_parse_mail_from(args@) is None,
        },
        is_ascii_chars(args@) ==> match r {
            Some(a) => ascii_parse_mail_from(args@) == Some(a@),
            None => ascii_parse_mail_from(args@) is None,
        },
{
    let upper = to_uppercase(args);
    let uv = chars_of(upper.as_str());
    if !starts_with_str(&uv, "FROM:") {
        return None;
    }
    let v = chars_of(args);
    match char_index_of_byte(&v, 5) {
        Some(k) => {
            proof {
                lemma_char_index_at_byte(v@, 5, k as int);
                if is_ascii_chars(args@) {
                    lemma_ascii_prefix_len(v@, k as int);
                }
            }
            address_after(&v, k)
        },
        None => None,
    }
}

/// Parse the argument of `RCPT TO:<addr>` or `RCPT TO: <addr>`.
pub fn parse_rcpt_to(args: &str) -> (r: Option<String>)
    requires
        sliceable_after(args@, "TO:"@, 3),
    ensures
        match r {
            Some(a) => spec_parse_rcpt_to(args@) == Some(a@),
            None => spec_parse_rcpt_to(args@) is None,
        },
        is_ascii_chars(args@) ==> match r {
            Some(a) => ascii_parse_rcpt_to(args@) == Some(a@),
            None => ascii_parse_rcpt_to(args@) is None,
        },
{
    let upper = to_uppercase(args);
    let uv = chars_of(upper.as_str());
    if !starts_with_str(&uv, "TO:") {
        return None;
    }
    let v = chars_of(args);
    match char_index_of_byte(&v, 3) {
        Some(k) => {
            proof {
                lemma_char_index_at_byte(v@, 3, k as int);
                if is_ascii_chars(args@) {
                    lemma_ascii_prefix_len(v@, k as int);
                }
            }
            address_after(&v, k)
        },
        None => None,
    }
}

/// Whether slicing `args` after `b` bytes would be safe once `prefix` matched
/// its upper-cased form; the test that [`parse_mail_from`] and
/// [`parse_rcpt_to`] need before they are called.
pub fn check_sliceable(args: &str, prefix: &str, b: usize) -> (ok: bool)
    requires
        b < 0x1000,
    ensures
        ok == sliceable_after(args@, prefix@, b as nat),
{
    let upper = to_uppercase(args);
    let uv = chars_of(upper.as_str());
    if !starts_with_str(&uv, prefix) {
        return true;
    }
    let v = chars_of(args);
    match char_index_of_byte(&v, b) {
        Some(k) => {
            assert(utf8_prefix_len(v@, k as int) == b);
            true
        },
        None => false,
    }
}

} // verus!
