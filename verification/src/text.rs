//! Character classes, maximal-run scanning and decimal values over
//! character sequences: the primitives every grammar rule is built from.
use vstd::prelude::*;

verus! {

/// A space or horizontal tab: the separator characters accepted between
/// header fields.
pub open spec fn is_blank(c: char) -> bool {
    c == ' ' || c == '\t'
}

/// An ASCII decimal digit.
pub open spec fn is_digit_char(c: char) -> bool {
    48 <= c as u32 && c as u32 <= 57
}

/// A Unicode whitespace character (the White_Space property): the
/// characters excluded from free-text header tokens.
pub open spec fn is_white(c: char) -> bool {
    ||| (9 <= c as u32 && c as u32 <= 13)
    ||| c as u32 == 32
    ||| c as u32 == 0x85
    ||| c as u32 == 0xa0
    ||| c as u32 == 0x1680
    ||| (0x2000 <= c as u32 && c as u32 <= 0x200a)
    ||| c as u32 == 0x2028
    ||| c as u32 == 0x2029
    ||| c as u32 == 0x202f
    ||| c as u32 == 0x205f
    ||| c as u32 == 0x3000
}

/// A character admitted in a header token: not whitespace, and not a
/// colon unless `colon_ok` holds.
pub open spec fn is_token_char(c: char, colon_ok: bool) -> bool {
    !is_white(c) && (colon_ok || c != ':')
}

/// A character admitted in a structured-data element id: anything but
/// whitespace, `]` and `=`.
pub open spec fn is_sd_id_char(c: char) -> bool {
    !is_white(c) && c != ']' && c != '='
}

/// A character admitted in a structured-data parameter key: anything but
/// `]` and `=`.
pub open spec fn is_sd_key_char(c: char) -> bool {
    c != ']' && c != '='
}

/// A character of a quoted value that needs no escape: anything but the
/// backslash and the double quote.
pub open spec fn is_value_plain_char(c: char) -> bool {
    c != '\\' && c != '"'
}

/// End of the maximal run of characters satisfying `p`, starting at `i`.
pub open spec fn run_end(t: Seq<char>, i: int, p: spec_fn(char) -> bool) -> int
    decreases t.len() - i when 0 <= i <= t.len()
{
    if i < t.len() && p(t[i]) {
        run_end(t, i + 1, p)
    } else {
        i
    }
}

pub proof fn lemma_run_end(t: Seq<char>, i: int, p: spec_fn(char) -> bool)
    requires
        0 <= i <= t.len(),
    ensures
        i <= run_end(t, i, p) <= t.len(),
        forall|k: int| i <= k < run_end(t, i, p) ==> p(t[k]),
        run_end(t, i, p) < t.len() ==> !p(t[run_end(t, i, p)]),
    decreases t.len() - i,
{
    if i < t.len() && p(t[i]) {
        lemma_run_end(t, i + 1, p);
    }
}

/// A run over characters all satisfying `p`, delimited by the end of the
/// sequence or a character failing `p`, ends exactly at the delimiter.
pub proof fn lemma_run_end_exact(t: Seq<char>, i: int, j: int, p: spec_fn(char) -> bool)
    requires
        0 <= i <= j <= t.len(),
        forall|k: int| i <= k < j ==> p(t[k]),
        j < t.len() ==> !p(t[j]),
    ensures
        run_end(t, i, p) == j,
    decreases j - i,
{
    if i < j {
        lemma_run_end_exact(t, i + 1, j, p);
    }
}

/// Position of the first occurrence of `c` at or after `i`, if any.
pub open spec fn find_from(t: Seq<char>, i: int, c: char) -> Option<int>
    decreases t.len() - i when 0 <= i <= t.len()
{
    if i >= t.len() {
        None
    } else if t[i] == c {
        Some(i)
    } else {
        find_from(t, i + 1, c)
    }
}

pub proof fn lemma_find_from(t: Seq<char>, i: int, c: char)
    requires
        0 <= i <= t.len(),
    ensures
        match find_from(t, i, c) {
            Some(j) => i <= j < t.len() && t[j] == c && forall|k: int|
                i <= k < j ==> t[k] != c,
            None => forall|k: int| i <= k < t.len() ==> t[k] != c,
        },
    decreases t.len() - i,
{
    if i < t.len() && t[i] != c {
        lemma_find_from(t, i + 1, c);
    }
}

/// Numeric value of a digit character.
pub open spec fn digit_val(c: char) -> int {
    c as u32 - 48
}

/// Value of a sequence of decimal digits, most significant first.
pub open spec fn dec_val(s: Seq<char>) -> int
    decreases s.len(),
{
    if s.len() == 0 {
        0
    } else {
        dec_val(s.drop_last()) * 10 + digit_val(s.last())
    }
}

pub proof fn lemma_dec_val_nonneg(s: Seq<char>)
    requires
        forall|k: int| 0 <= k < s.len() ==> is_digit_char(s[k]),
    ensures
        dec_val(s) >= 0,
    decreases s.len(),
{
    if s.len() > 0 {
        lemma_dec_val_nonneg(s.drop_last());
    }
}

/// The digit character class as a value, so that every mention of the
/// run is the same spec term.
pub open spec fn digit_pred() -> spec_fn(char) -> bool {
    |c: char| is_digit_char(c)
}

pub open spec fn blank_pred() -> spec_fn(char) -> bool {
    |c: char| is_blank(c)
}

pub open spec fn token_pred(colon_ok: bool) -> spec_fn(char) -> bool {
    |c: char| is_token_char(c, colon_ok)
}

pub open spec fn sd_id_pred() -> spec_fn(char) -> bool {
    |c: char| is_sd_id_char(c)
}

pub open spec fn sd_key_pred() -> spec_fn(char) -> bool {
    |c: char| is_sd_key_char(c)
}

/// Exec test for an ASCII digit.
pub fn is_digit(c: char) -> (b: bool)
    ensures
        b == is_digit_char(c),
{
    let u = c as u32;
    48 <= u && u <= 57
}

/// Exec test for a blank (space or tab).
pub fn is_blank_exec(c: char) -> (b: bool)
    ensures
        b == is_blank(c),
{
    c == ' ' || c == '\t'
}

/// Exec test for Unicode whitespace.
pub fn is_white_exec(c: char) -> (b: bool)
    ensures
        b == is_white(c),
{
    let u = c as u32;
    if u == 0x20 || (0x9 <= u && u <= 0xd) {
        true
    } else if u < 0x85 {
        false
    } else {
        u == 0x85 || u == 0xa0 || u == 0x1680 || (0x2000 <= u && u <= 0x200a) || u == 0x2028
            || u == 0x2029 || u == 0x202f || u == 0x205f || u == 0x3000
    }
}

/// Relates an executable parse position to its specification: both absent,
/// or both the same position.
pub open spec fn opt_pos(r: Option<usize>, s: Option<int>) -> bool {
    match (r, s) {
        (Option::Some(a), Option::Some(b)) => a as int == b,
        (Option::None, Option::None) => true,
        _ => false,
    }
}

/// Exec test for a header-token character.
pub fn is_token_exec(c: char, colon_ok: bool) -> (b: bool)
    ensures
        b == is_token_char(c, colon_ok),
{
    !is_white_exec(c) && (colon_ok || c != ':')
}

/// Exec test for a structured-data id character.
pub fn is_sd_id_exec(c: char) -> (b: bool)
    ensures
        b == is_sd_id_char(c),
{
    !is_white_exec(c) && c != ']' && c != '='
}

/// Exec test for a structured-data key character.
pub fn is_sd_key_exec(c: char) -> (b: bool)
    ensures
        b == is_sd_key_char(c),
{
    c != ']' && c != '='
}

/// End of the maximal digit run starting at `i`.
pub fn scan_digits(s: &str, i: usize) -> (r: usize)
    requires
        i <= s@.len(),
    ensures
        r == run_end(s@, i as int, digit_pred()),
        i <= r <= s@.len(),
{
    let n = s.unicode_len();
    let mut j = i;
    while j < n && is_digit(s.get_char(j))
        invariant
            i <= j <= n,
            n == s@.len(),
            run_end(s@, i as int, digit_pred()) == run_end(s@, j as int, digit_pred()),
        decreases n - j,
    {
        j = j + 1;
    }
    j
}

/// End of the maximal run of blanks (spaces and tabs) starting at `i`.
pub fn scan_blanks(s: &str, i: usize) -> (r: usize)
    requires
        i <= s@.len(),
    ensures
        r == run_end(s@, i as int, blank_pred()),
        i <= r <= s@.len(),
{
    let n = s.unicode_len();
    let mut j = i;
    while j < n && is_blank_exec(s.get_char(j))
        invariant
            i <= j <= n,
            n == s@.len(),
            run_end(s@, i as int, blank_pred()) == run_end(s@, j as int, blank_pred()),
        decreases n - j,
    {
        j = j + 1;
    }
    j
}

/// End of the maximal header-token run starting at `i`.
pub fn scan_token(s: &str, i: usize, colon_ok: bool) -> (r: usize)
    requires
        i <= s@.len(),
    ensures
        r == run_end(s@, i as int, token_pred(colon_ok)),
        i <= r <= s@.len(),
{
    let n = s.unicode_len();
    let mut j = i;
    while j < n && is_token_exec(s.get_char(j), colon_ok)
        invariant
            i <= j <= n,
            n == s@.len(),
            run_end(s@, i as int, token_pred(colon_ok)) == run_end(
                s@,
                j as int,
                token_pred(colon_ok),
            ),
        decreases n - j,
    {
        j = j + 1;
    }
    j
}

/// End of the maximal structured-data id run starting at `i`.
pub fn scan_sd_id(s: &str, i: usize) -> (r: usize)
    requires
        i <= s@.len(),
    ensures
        r == run_end(s@, i as int, sd_id_pred()),
        i <= r <= s@.len(),
{
    let n = s.unicode_len();
    let mut j = i;
    while j < n && is_sd_id_exec(s.get_char(j))
        invariant
            i <= j <= n,
            n == s@.len(),
            run_end(s@, i as int, sd_id_pred()) == run_end(s@, j as int, sd_id_pred()),
        decreases n - j,
    {
        j = j + 1;
    }
    j
}

/// End of the maximal structured-data key run starting at `i`.
pub fn scan_sd_key(s: &str, i: usize) -> (r: usize)
    requires
        i <= s@.len(),
    ensures
        r == run_end(s@, i as int, sd_key_pred()),
        i <= r <= s@.len(),
{
    let n = s.unicode_len();
    let mut j = i;
    while j < n && is_sd_key_exec(s.get_char(j))
        invariant
            i <= j <= n,
            n == s@.len(),
            run_end(s@, i as int, sd_key_pred()) == run_end(s@, j as int, sd_key_pred()),
        decreases n - j,
    {
        j = j + 1;
    }
    j
}

/// First occurrence of `c` at or after `i`, if any.
pub fn find_char(s: &str, i: usize, c: char) -> (r: Option<usize>)
    requires
        i <= s@.len(),
    ensures
        match r {
            Some(j) => find_from(s@, i as int, c) == Some(j as int) && i <= j < s@.len(),
            None => find_from(s@, i as int, c) is None,
        },
{
    let n = s.unicode_len();
    let mut j = i;
    while j < n && s.get_char(j) != c
        invariant
            i <= j <= n,
            n == s@.len(),
            find_from(s@, i as int, c) == find_from(s@, j as int, c),
        decreases n - j,
    {
        j = j + 1;
    }
    if j < n {
        Some(j)
    } else {
        None
    }
}

/// Value of the digit run `[i, j)`, saturated at 1000 so that the
/// computation cannot overflow; the grammar only needs to compare the
/// value against bounds below 1000.
pub fn dec_value_capped(s: &str, i: usize, j: usize) -> (v: u32)
    requires
        i <= j <= s@.len(),
        forall|k: int| i <= k < j ==> is_digit_char(s@[k]),
    ensures
        (v <= 999 && v == dec_val(s@.subrange(i as int, j as int))) || (v == 1000 && dec_val(
            s@.subrange(i as int, j as int),
        ) >= 1000),
{
    let mut v: u32 = 0;
    let mut k = i;
    proof {
        assert(s@.subrange(i as int, i as int) =~= Seq::<char>::empty());
    }
    while k < j
        invariant
            i <= k <= j <= s@.len(),
            forall|m: int| i <= m < j ==> is_digit_char(s@[m]),
            (v <= 999 && v == dec_val(s@.subrange(i as int, k as int))) || (v == 1000 && dec_val(
                s@.subrange(i as int, k as int),
            ) >= 1000),
        decreases j - k,
    {
        let c = s.get_char(k);
        assert(is_digit_char(s@[k as int]));
        let d = (c as u32) - 48;
        proof {
            let pre = s@.subrange(i as int, k as int);
            let post = s@.subrange(i as int, k + 1 as int);
            assert(post.drop_last() =~= pre);
            assert(post.last() == s@[k as int]);
            lemma_dec_val_nonneg(pre);
        }
        if v >= 1000 {
            v = 1000;
        } else {
            v = v * 10 + d;
            if v > 999 {
                v = 1000;
            }
        }
        k = k + 1;
    }
    v
}

} // verus!
