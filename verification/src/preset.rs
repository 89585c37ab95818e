//! Preset descriptions and their parsing.
//!
//! A preset names, for each component kind, the controller IDs that the
//! engine should instantiate. Each description is a comma-separated list of
//! tokens; a token is either a single decimal integer or an inclusive range
//! `start-end`. Every named ID must lie in the 7-bit controller range
//! `0..=127`.

use vstd::prelude::*;

verus! {

/// A preset text could not be parsed: a token is not a valid integer or
/// range, or a named controller ID lies outside `0..=127`.
#[derive(Clone, Copy, Debug, PartialEq, Eq, Structural)]
pub struct ParseError;

/// A preset: the sole source of truth for which controller IDs the engine
/// instantiates, and under which component kind.
#[derive(Debug)]
pub struct Preset {
    pub components: PresetComponents,
}

/// One description per component kind, each a comma-separated list of
/// integers and inclusive `start-end` ranges, e.g. `"1,2,23-31,64"`.
#[derive(Debug)]
pub struct PresetComponents {
    pub sliders: String,
    pub buttons: String,
    pub dials: String,
}

/// Decimal digit test used by the token grammar.
pub open spec fn is_digit_char(c: char) -> bool {
    '0' <= c && c <= '9'
}

/// Numeric value of one decimal digit.
pub open spec fn digit_val(c: char) -> int {
    c as int - '0' as int
}

/// Value of a digit string read in base 10.
pub open spec fn digits_val(s: Seq<char>) -> int
    decreases s.len(),
{
    if s.len() == 0 {
        0
    } else {
        digits_val(s.drop_last()) * 10 + digit_val(s.last())
    }
}

/// A non-empty sequence consisting only of decimal digits.
pub open spec fn all_digits(s: Seq<char>) -> bool {
    s.len() > 0 && forall|j: int| 0 <= j < s.len() ==> is_digit_char(s[j])
}

/// The controller ID denoted by a plain integer token, if the token is
/// well-formed and in range.
pub open spec fn spec_id_token(s: Seq<char>) -> Option<u8> {
    if all_digits(s) && 0 <= digits_val(s) <= 127 {
        Some(digits_val(s) as u8)
    } else {
        None
    }
}

proof fn lemma_digits_val_step(s: Seq<char>, i: int)
    requires
        0 < i <= s.len(),
    ensures
        digits_val(s.take(i)) == digits_val(s.take(i - 1)) * 10 + digit_val(s[i - 1]),
{
    assert(s.take(i).drop_last() =~= s.take(i - 1));
    assert(s.take(i).last() == s[i - 1]);
}

/// Reads a plain integer token. Returns the controller ID it names, or
/// `None` when the token is empty, contains a non-digit, or exceeds 127.
pub fn parse_id(tok: &str) -> (r: Option<u8>)
    ensures
        r == spec_id_token(tok@),
{
    let n = tok.unicode_len();
    if n == 0 {
        return None;
    }
    let mut i: usize = 0;
    // Runs the usual base-10 accumulation, saturated at 128: once the value
    // passes the controller-ID bound the exact magnitude no longer matters.
    let mut acc: u32 = 0;
    while i < n
        invariant
            0 <= i <= n,
            n == tok@.len(),
            forall|j: int| 0 <= j < i ==> is_digit_char(tok@[j]),
            acc as int == if digits_val(tok@.take(i as int)) <= 127 {
                digits_val(tok@.take(i as int))
            } else {
                128int
            },
            0 <= acc <= 128,
        decreases n - i,
    {
        let c = tok.get_char(i);
        if c < '0' || c > '9' {
            assert(!is_digit_char(tok@[i as int]));
            return None;
        }
        let d = (c as u32) - ('0' as u32);
        proof {
            lemma_digits_val_step(tok@, i + 1);
        }
        acc = acc * 10 + d;
        if acc > 127 {
            acc = 128;
        }
        i = i + 1;
    }
    assert(tok@.take(n as int) =~= tok@);
    if acc <= 127 {
        Some(acc as u8)
    } else {
        None
    }
}

/// Number of characters before the first occurrence of `c` in `s`; the
/// whole length of `s` when `c` does not occur.
pub open spec fn scan_len(s: Seq<char>, c: char) -> nat
    decreases s.len(),
{
    if s.len() == 0 {
        0
    } else if s[0] == c {
        0
    } else {
        1 + scan_len(s.drop_first(), c)
    }
}

proof fn lemma_scan_len(s: Seq<char>, c: char)
    ensures
        scan_len(s, c) <= s.len(),
        forall|j: int| 0 <= j < scan_len(s, c) ==> s[j] != c,
        scan_len(s, c) < s.len() ==> s[scan_len(s, c) as int] == c,
    decreases s.len(),
{
    if s.len() == 0 {
    } else if s[0] == c {
    } else {
        lemma_scan_len(s.drop_first(), c);
        assert forall|j: int| 0 <= j < scan_len(s, c) implies s[j] != c by {
            if j > 0 {
                assert(s.drop_first()[j - 1] == s[j]);
            }
        }
        if scan_len(s, c) < s.len() {
            assert(s.drop_first()[scan_len(s, c) - 1] == s[scan_len(s, c) as int]);
        }
    }
}

/// Index of the first occurrence of `c` in `s`, or the length of `s` when
/// `c` does not occur.
fn find_char(s: &str, c: char) -> (i: usize)
    ensures
        i == scan_len(s@, c),
{
    let n = s.unicode_len();
    let mut i: usize = 0;
    while i < n
        invariant
            0 <= i <= n,
            n == s@.len(),
            forall|j: int| 0 <= j < i ==> s@[j] != c,
        decreases n - i,
    {
        if s.get_char(i) == c {
            proof {
                lemma_scan_len(s@, c);
                if scan_len(s@, c) < i {
                    assert(s@[scan_len(s@, c) as int] != c);
                }
            }
            return i;
        }
        i = i + 1;
    }
    proof {
        lemma_scan_len(s@, c);
        if scan_len(s@, c) < n {
            assert(s@[scan_len(s@, c) as int] != c);
        }
    }
    i
}

/// The inclusive run of controller IDs from `lo` to `hi`, in increasing
/// order; empty when `lo > hi` (a degenerate range, not an error).
pub open spec fn range_ids(lo: u8, hi: u8) -> Seq<u8> {
    Seq::new(
        if lo <= hi {
            (hi - lo + 1) as nat
        } else {
            0
        },
        |k: int| (lo + k) as u8,
    )
}

/// The controller IDs denoted by one token. A plain integer yields a
/// singleton, `start-end` yields the inclusive run; anything else — a
/// non-integer, a malformed range, or a value over 127 — is a parse error.
pub open spec fn token_ids(tok: Seq<char>) -> Option<Seq<u8>> {
    let k = scan_len(tok, '-') as int;
    if tok.len() <= k {
        match spec_id_token(tok) {
            Some(id) => Some(seq![id]),
            None => None,
        }
    } else {
        match (spec_id_token(tok.take(k)), spec_id_token(tok.subrange(k + 1, tok.len() as int))) {
            (Some(lo), Some(hi)) => Some(range_ids(lo, hi)),
            _ => None,
        }
    }
}

/// The controller IDs denoted by a whole comma-separated description, in
/// token order and with duplicates kept, or `None` when any token is
/// malformed.
pub open spec fn list_ids(s: Seq<char>) -> Option<Seq<u8>>
    decreases s.len(),
{
    let k = scan_len(s, ',') as int;
    if s.len() <= k {
        token_ids(s)
    } else {
        match (token_ids(s.take(k)), list_ids(s.subrange(k + 1, s.len() as int))) {
            (Some(head), Some(tail)) => Some(head + tail),
            _ => None,
        }
    }
}

/// Builds the inclusive run of IDs from `lo` to `hi`.
fn make_range(lo: u8, hi: u8) -> (r: Vec<u8>)
    ensures
        r@ == range_ids(lo, hi),
{
    let mut v: Vec<u8> = Vec::new();
    if lo > hi {
        assert(v@ =~= range_ids(lo, hi));
        return v;
    }
    let mut i: u16 = lo as u16;
    assert(v@ =~= range_ids(lo, hi).take(0));
    while i <= hi as u16
        invariant
            lo <= i <= hi as u16 + 1,
            v@ == range_ids(lo, hi).take(i - lo),
        decreases hi as u16 + 1 - i,
    {
        v.push(i as u8);
        assert(v@ =~= range_ids(lo, hi).take(i + 1 - lo));
        i = i + 1;
    }
    assert(v@ =~= range_ids(lo, hi));
    v
}

/// Parses one token: a plain integer or an inclusive `start-end` range.
fn parse_token(tok: &str) -> (r: Result<Vec<u8>, ParseError>)
    ensures
        match r {
            Ok(ids) => token_ids(tok@) == Some(ids@),
            Err(_) => token_ids(tok@) is None,
        },
{
    let n = tok.unicode_len();
    let k = find_char(tok, '-');
    if k == n {
        match parse_id(tok) {
            Some(id) => {
                let mut v: Vec<u8> = Vec::new();
                v.push(id);
                assert(v@ =~= seq![id]);
                Ok(v)
            },
            None => Err(ParseError),
        }
    } else {
        proof {
            lemma_scan_len(tok@, '-');
        }
        let lo_s = tok.substring_char(0, k);
        let hi_s = tok.substring_char(k + 1, n);
        match (parse_id(lo_s), parse_id(hi_s)) {
            (Some(lo), Some(hi)) => Ok(make_range(lo, hi)),
            _ => Err(ParseError),
        }
    }
}

/// Parses a whole comma-separated description into the controller IDs it
/// names, in token order and with duplicates kept. Fails exactly when some
/// token is not a valid integer or range in `0..=127`.
pub fn parse_ids(s: &str) -> (r: Result<Vec<u8>, ParseError>)
    ensures
        match r {
            Ok(ids) => list_ids(s@) == Some(ids@),
            Err(_) => list_ids(s@) is None,
        },
    decreases s@.len(),
{
    let n = s.unicode_len();
    let k = find_char(s, ',');
    if k == n {
        parse_token(s)
    } else {
        proof {
            lemma_scan_len(s@, ',');
        }
        let head_s = s.substring_char(0, k);
        let tail_s = s.substring_char(k + 1, n);
        let head = parse_token(head_s);
        let tail = parse_ids(tail_s);
        match (head, tail) {
            (Ok(mut ids), Ok(mut rest)) => {
                ids.append(&mut rest);
                Ok(ids)
            },
            _ => Err(ParseError),
        }
    }
}

} // verus!
