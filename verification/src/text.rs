//! Character-level text helpers: locating delimiters, splitting a string at
//! the first occurrence of a delimiter, and strict decoding of signed decimal
//! integers.  Everything here is specified over the `Seq<char>` view of the
//! input text.

use vstd::prelude::*;
use vstd::string::StrSliceExecFns;

verus! {

/// The segments of `s` between occurrences of the delimiter `d`, in order.
/// Text without the delimiter is a single segment, so the result is never
/// empty; a leading, trailing or doubled delimiter contributes an empty
/// segment.
pub open spec fn split_on(s: Seq<char>, d: char) -> Seq<Seq<char>>
    decreases s.len(),
    via split_on_decreases
{
    match s.index_of_first(d) {
        None => seq![s],
        Some(i) => seq![s.take(i)] + split_on(s.skip(i + 1), d),
    }
}

#[via_fn]
proof fn split_on_decreases(s: Seq<char>, d: char) {
    s.index_of_first_ensures(d);
}

/// Index of the first occurrence of `c` in `s`, if any.
pub fn find_char(s: &str, c: char) -> (r: Option<usize>)
    ensures
        match r {
            Some(i) => s@.index_of_first(c) == Some(i as int),
            None => s@.index_of_first(c) is None,
        },
{
    let n = s.unicode_len();
    let mut i: usize = 0;
    while i < n
        invariant
            i <= n,
            n == s@.len(),
            forall|j: int| 0 <= j < i ==> s@[j] != c,
        decreases n - i,
    {
        if s.get_char(i) == c {
            proof {
                s@.index_of_first_ensures(c);
            }
            return Some(i);
        }
        i += 1;
    }
    proof {
        s@.index_of_first_ensures(c);
    }
    None
}

/// Splits `s` at the first occurrence of `c`: the part before it and the part
/// after it, the delimiter itself belonging to neither.  `None` when `s` does
/// not contain `c`.
pub fn split_once_at<'a>(s: &'a str, c: char) -> (r: Option<(&'a str, &'a str)>)
    ensures
        match s@.index_of_first(c) {
            Some(i) => r matches Some((a, b)) && a@ == s@.take(i) && b@ == s@.skip(i + 1),
            None => r is None,
        },
{
    proof {
        s@.index_of_first_ensures(c);
    }
    match find_char(s, c) {
        None => None,
        Some(i) => {
            let n = s.unicode_len();
            let head = s.substring_char(0, i);
            let tail = s.substring_char(i + 1, n);
            proof {
                assert(head@ =~= s@.take(i as int));
                assert(tail@ =~= s@.skip(i as int + 1));
            }
            Some((head, tail))
        },
    }
}

/// Executable equality of two string slices, decided character by character.
pub fn str_eq(a: &str, b: &str) -> (r: bool)
    ensures
        r == (a@ == b@),
{
    let na = a.unicode_len();
    let nb = b.unicode_len();
    if na != nb {
        return false;
    }
    let mut i: usize = 0;
    while i < na
        invariant
            i <= na,
            na == a@.len(),
            na == b@.len(),
            forall|j: int| 0 <= j < i ==> a@[j] == b@[j],
        decreases na - i,
    {
        if a.get_char(i) != b.get_char(i) {
            return false;
        }
        i += 1;
    }
    proof {
        assert(a@ =~= b@);
    }
    true
}

/// Whether `c` is an ASCII decimal digit.
pub open spec fn is_digit(c: char) -> bool {
    '0' as u32 <= c as u32 && c as u32 <= '9' as u32
}

/// Numeric value of a digit character; zero for anything else.
pub open spec fn digit_val(c: char) -> nat {
    if is_digit(c) {
        (c as u32 - '0' as u32) as nat
    } else {
        0
    }
}

/// Whether every character of `s` is an ASCII decimal digit.
pub open spec fn all_digits(s: Seq<char>) -> bool {
    forall|i: int| 0 <= i < s.len() ==> is_digit(#[trigger] s[i])
}

/// Value of a string of decimal digits, most significant first.
pub open spec fn digits_val(s: Seq<char>) -> nat
    decreases s.len(),
{
    if s.len() == 0 {
        0
    } else {
        digits_val(s.drop_last()) * 10 + digit_val(s.last())
    }
}

/// The digits of an integer literal: everything after an optional single
/// leading sign character.
pub open spec fn int_body(s: Seq<char>) -> Seq<char> {
    if s.len() > 0 && (s[0] == '+' || s[0] == '-') {
        s.drop_first()
    } else {
        s
    }
}

/// Whether the literal `s` carries a leading minus sign.
pub open spec fn is_negative_literal(s: Seq<char>) -> bool {
    s.len() > 0 && s[0] == '-'
}

/// Strict decoding of a signed decimal integer, with the same shape of input
/// that `i32::from_str` accepts: an optional single `+` or `-` sign followed
/// by one or more ASCII digits, the value fitting in an `i32`.  Anything else
/// decodes to `None`.
pub open spec fn parse_i32_spec(s: Seq<char>) -> Option<i32> {
    let body = int_body(s);
    if body.len() == 0 || !all_digits(body) {
        None
    } else if is_negative_literal(s) {
        if digits_val(body) <= 0x8000_0000 {
            Some((0 - digits_val(body) as int) as i32)
        } else {
            None
        }
    } else {
        if digits_val(body) <= 0x7fff_ffff {
            Some(digits_val(body) as i32)
        } else {
            None
        }
    }
}

/// A longer digit string is worth at least as much as any of its prefixes.
proof fn lemma_digits_val_take_le(s: Seq<char>, k: int)
    requires
        0 <= k <= s.len(),
    ensures
        digits_val(s.take(k)) <= digits_val(s),
    decreases s.len() - k,
{
    if k == s.len() {
        assert(s.take(k) =~= s);
    } else {
        lemma_digits_val_take_le(s, k + 1);
        assert(s.take(k + 1).drop_last() =~= s.take(k));
    }
}

/// Strict decoder for a signed decimal `i32`, the executable counterpart of
/// [`parse_i32_spec`].
pub fn parse_i32(s: &str) -> (r: Option<i32>)
    ensures
        r == parse_i32_spec(s@),
{
    let n = s.unicode_len();
    if n == 0 {
        return None;
    }
    let first = s.get_char(0);
    let neg = first == '-';
    let start: usize = if neg || first == '+' {
        1
    } else {
        0
    };
    proof {
        assert(int_body(s@) =~= s@.skip(start as int));
    }
    if start == n {
        return None;
    }
    let ghost body = int_body(s@);
    let mut i: usize = start;
    let mut acc: u64 = 0;
    while i < n
        invariant
            start <= i <= n,
            n == s@.len(),
            start <= 1,
            body == int_body(s@),
            body =~= s@.skip(start as int),
            all_digits(body.take(i - start)),
            acc == digits_val(body.take(i - start)),
            acc <= 0x8000_0000,
        decreases n - i,
    {
        let c = s.get_char(i);
        if !(('0' as u32) <= c as u32 && c as u32 <= ('9' as u32)) {
            assert(body[i - start] == c);
            return None;
        }
        let d = (c as u32 - '0' as u32) as u64;
        let next = acc * 10 + d;
        proof {
            assert(body.take(i + 1 - start).drop_last() =~= body.take(i - start));
            assert(body.take(i + 1 - start).last() == c);
        }
        if next > 0x8000_0000 {
            proof {
                lemma_digits_val_take_le(body, i + 1 - start);
            }
            return None;
        }
        acc = next;
        i += 1;
    }
    proof {
        assert(body.take(n - start) =~= body);
    }
    if neg {
        Some((0i64 - acc as i64) as i32)
    } else {
        if acc > 0x7fff_ffff {
            None
        } else {
            Some(acc as i32)
        }
    }
}

} // verus!
