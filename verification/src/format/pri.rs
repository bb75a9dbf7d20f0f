//! Priority field: `<` digits `>` where the digits read as an integer
//! `facility * 8 + severity` with facility in 0..=23 and severity in
//! 0..=7, i.e. a value of at most 191.
use vstd::prelude::*;
use vstd::string::StrSliceExecFns;

use crate::error::{ErrorKind, SyslogParseError};
use crate::text::{
    dec_val, dec_value_capped, digit_pred, digit_val, is_digit_char, lemma_dec_val_nonneg,
    lemma_run_end, lemma_run_end_exact, opt_pos, run_end, scan_digits,
};
use vstd::arithmetic::div_mod::lemma_fundamental_div_mod;

verus! {

/// Largest admissible priority value: facility 23, severity 7.
pub open spec fn max_pri() -> int {
    191
}

/// End of a priority field starting at `i`: `<`, a non-empty digit run
/// whose value is at most 191, `>`.
pub open spec fn pri_end(t: Seq<char>, i: int) -> Option<int>
    recommends
        0 <= i <= t.len(),
{
    if i < t.len() && t[i] == '<' {
        let j = run_end(t, i + 1, digit_pred());
        if j > i + 1 && j < t.len() && t[j] == '>' && dec_val(t.subrange(i + 1, j)) <= max_pri() {
            Some(j + 1)
        } else {
            None
        }
    } else {
        None
    }
}

pub proof fn lemma_pri_bounds(t: Seq<char>, i: int)
    requires
        0 <= i <= t.len(),
    ensures
        match pri_end(t, i) {
            Some(j) => i + 3 <= j <= t.len(),
            None => true,
        },
{
    if i < t.len() && t[i] == '<' {
        lemma_run_end(t, i + 1, digit_pred());
    }
}

pub(crate) fn pri_at(s: &str, i: usize) -> (r: Option<usize>)
    requires
        i <= s@.len(),
    ensures
        opt_pos(r, pri_end(s@, i as int)),
{
    let n = s.unicode_len();
    if i < n && s.get_char(i) == '<' {
        let j = scan_digits(s, i + 1);
        proof {
            lemma_run_end(s@, i + 1, digit_pred());
        }
        if j > i + 1 && j < n && s.get_char(j) == '>' {
            let v = dec_value_capped(s, i + 1, j);
            proof {
                lemma_dec_val_nonneg(s@.subrange(i + 1, j as int));
            }
            if v <= 191 {
                Some(j + 1)
            } else {
                None
            }
        } else {
            None
        }
    } else {
        None
    }
}

/// A raw priority value is admissible exactly when its facility part
/// (the high five bits) is at most 23, that is when the value is at most
/// 191; the severity part (the low three bits) can never exceed 7.
pub fn decompose_pri(pri: u8) -> (r: Option<u8>)
    ensures
        r == if pri <= max_pri() {
            Some(pri)
        } else {
            None::<u8>
        },
{
    proof {
        assert((pri >> 3) > 23 <==> pri > 191) by (bit_vector);
        assert((pri & 0x7) <= 7) by (bit_vector);
    }
    let f = (pri >> 3) as i32;
    let s = (pri & 0x7) as i32;
    if f < 0 || f > 23 {
        return None;
    }
    if s < 0 || s > 7 {
        return None;
    }
    Some(pri)
}

/// Priority rule as an entry point: on success returns the remainder and
/// the matched text, exactly as consumed.
pub fn pri(input: &str) -> (r: Result<(String, String), SyslogParseError>)
    ensures
        match pri_end(input@, 0) {
            Some(j) => r matches Ok(p) && p.0@ == input@.subrange(j, input@.len() as int)
                && p.1@ == input@.subrange(0, j),
            None => r matches Err(e) && e == SyslogParseError::ParseError(ErrorKind::Pri),
        },
{
    let n = input.unicode_len();
    match pri_at(input, 0) {
        Some(j) => {
            let matched = input.substring_char(0, j).to_owned();
            let rest = input.substring_char(j, n).to_owned();
            Ok((rest, matched))
        },
        None => Err(SyslogParseError::ParseError(ErrorKind::Pri)),
    }
}

/// The character of one decimal digit.
pub open spec fn digit_char(d: int) -> char
    recommends
        0 <= d <= 9,
{
    if d == 0 {
        '0'
    } else if d == 1 {
        '1'
    } else if d == 2 {
        '2'
    } else if d == 3 {
        '3'
    } else if d == 4 {
        '4'
    } else if d == 5 {
        '5'
    } else if d == 6 {
        '6'
    } else if d == 7 {
        '7'
    } else if d == 8 {
        '8'
    } else {
        '9'
    }
}

/// The canonical decimal rendering of a non-negative integer, most
/// significant digit first and without leading zeros.
pub open spec fn dec_digits(n: int) -> Seq<char>
    recommends
        n >= 0,
    decreases n,
{
    if n <= 9 {
        seq![digit_char(n)]
    } else {
        dec_digits(n / 10).push(digit_char(n % 10))
    }
}

pub proof fn lemma_dec_digits_val(n: int)
    requires
        n >= 0,
    ensures
        dec_digits(n).len() >= 1,
        forall|k: int| 0 <= k < dec_digits(n).len() ==> is_digit_char(#[trigger] dec_digits(n)[k]),
        dec_val(dec_digits(n)) == n,
    decreases n,
{
    if n <= 9 {
        let s = dec_digits(n);
        assert(s == seq![digit_char(n)]);
        assert(s.drop_last() =~= Seq::<char>::empty());
        assert(s.last() == digit_char(n));
        assert(dec_val(s) == dec_val(Seq::<char>::empty()) * 10 + digit_val(digit_char(n)));
        assert(digit_val(digit_char(n)) == n);
    } else {
        lemma_dec_digits_val(n / 10);
        lemma_fundamental_div_mod(n, 10);
        let q = dec_digits(n / 10);
        let s = dec_digits(n);
        assert(s == q.push(digit_char(n % 10)));
        assert(s.drop_last() =~= q);
        assert(s.last() == digit_char(n % 10));
        assert(digit_val(digit_char(n % 10)) == n % 10);
        assert(dec_val(s) == dec_val(q) * 10 + (n % 10));
        assert(forall|k: int| 0 <= k < s.len() ==> is_digit_char(#[trigger] s[k])) by {
            assert(forall|k: int|
                0 <= k < s.len() - 1 ==> s[k] == q[k] && is_digit_char(#[trigger] s[k]));
        }
    }
}

/// Every admissible priority round-trips through its canonical literal:
/// for a facility of at most 23 and a severity of at most 7, the text
/// `<` facility*8+severity `>` parses with the whole text consumed; for
/// a facility beyond 23 the parse fails, whatever the severity.
pub proof fn lemma_pri_round_trip(f: int, s: int)
    requires
        0 <= f,
        0 <= s <= 7,
    ensures
        ({
            let lit = seq!['<'] + dec_digits(f * 8 + s) + seq!['>'];
            &&& f <= 23 ==> pri_end(lit, 0) == Some(lit.len() as int)
            &&& f > 23 ==> pri_end(lit, 0) is None
        }),
{
    let v = f * 8 + s;
    lemma_dec_digits_val(v);
    let ds = dec_digits(v);
    let lit = seq!['<'] + ds + seq!['>'];
    assert(lit.len() == ds.len() + 2);
    assert(lit[0] == '<');
    assert(lit[ds.len() as int + 1] == '>');
    assert(forall|k: int| 1 <= k < ds.len() + 1 ==> lit[k] == ds[k - 1]);
    assert(!is_digit_char('>'));
    lemma_run_end_exact(lit, 1, ds.len() as int + 1, digit_pred());
    assert(lit.subrange(1, ds.len() as int + 1) =~= ds);
    assert(dec_val(lit.subrange(1, ds.len() as int + 1)) == v);
    if f <= 23 {
        assert(v <= 191);
        assert(pri_end(lit, 0) == Some(ds.len() as int + 2));
    } else {
        assert(v >= 192);
    }
}

} // verus!
