//! The coordinate parser: from a raw text stream to validated cell
//! positions.
//!
//! The tokens of the input are its maximal runs of decimal digits; any other
//! character separates tokens. Tokens are consumed two at a time as
//! `(row, col)` pairs; an odd token count or an out-of-range value rejects
//! the whole batch.

use vstd::prelude::*;

use crate::board::Conway;
use crate::board::Coordinates;
use crate::errors::ConwayError;
use crate::numbers::all_digits;
use crate::numbers::capped;
use crate::numbers::digit_val;
use crate::numbers::digits_val;
use crate::numbers::is_digit;
use crate::numbers::lemma_digits_val_nonneg;
use crate::numbers::lemma_digits_val_prefix_le;
use crate::numbers::lemma_token_vals_end;
use crate::numbers::lemma_token_vals_nonneg;
use crate::numbers::lemma_token_vals_run;
use crate::numbers::lemma_token_vals_skip_nondigit;
use crate::numbers::token_vals;
use vstd::string::StrSliceExecFns;

verus! {

/// The `p`-th token pair fits the (inclusive) bounds `rows` and `cols`.
pub open spec fn pair_in_range(toks: Seq<int>, p: int, rows: int, cols: int) -> bool {
    &&& 0 <= toks[2 * p] <= rows
    &&& 0 <= toks[2 * p + 1] <= cols
}

/// `c` carries the values of the `p`-th token pair.
pub open spec fn coord_matches_pair(c: Coordinates, toks: Seq<int>, p: int) -> bool {
    c.row == toks[2 * p] && c.col == toks[2 * p + 1]
}

/// Scans `s` left to right and returns one value per maximal digit run.
/// A value too large for any board bound is folded down to `0x8000_0000`,
/// one above the largest admissible bound, so range checks are unaffected.
fn scan_tokens(s: &str) -> (vals: Vec<i64>)
    ensures
        vals@.len() == token_vals(s@).len(),
        forall|k: int| 0 <= k < vals@.len() ==> vals@[k] == capped(token_vals(s@)[k]),
{
    let n = s.unicode_len();
    let mut vals: Vec<i64> = Vec::new();
    let ghost mut tv: Seq<int> = Seq::empty();
    let ghost mut rs: int = 0;
    let mut in_run = false;
    let mut v: i64 = 0;
    let mut i: usize = 0;
    proof {
        assert(s@.skip(0) =~= s@);
        assert(tv + token_vals(s@) =~= token_vals(s@));
    }
    while i < n
        invariant
            n == s@.len(),
            i <= n,
            vals@.len() == tv.len(),
            forall|k: int| 0 <= k < tv.len() ==> vals@[k] == capped(tv[k]),
            !in_run ==> token_vals(s@) == tv + token_vals(s@.skip(i as int)),
            in_run ==> 0 <= rs < i,
            in_run ==> forall|k: int| rs <= k < i ==> is_digit(s@[k]),
            in_run ==> token_vals(s@) == tv + token_vals(s@.skip(rs)),
            in_run ==> v == capped(digits_val(s@.subrange(rs, i as int))),
            in_run ==> 0 <= v <= 0x8000_0000,
        decreases n - i,
    {
        let c = s.get_char(i);
        let u = c as u32;
        if 48 <= u && u <= 57 {
            let d: i64 = (u - 48) as i64;
            if in_run {
                proof {
                    let run = s@.subrange(rs, i as int);
                    let run1 = s@.subrange(rs, i as int + 1);
                    assert(run1.drop_last() =~= run);
                    assert(run1.last() == s@[i as int]);
                    assert(all_digits(run)) by {
                        assert forall|k: int| 0 <= k < run.len() implies is_digit(run[k]) by {
                            assert(run[k] == s@[k + rs]);
                        }
                    }
                    lemma_digits_val_nonneg(run);
                    assert(digits_val(run1) == digits_val(run) * 10 + digit_val(s@[i as int]));
                    assert(0 <= digit_val(s@[i as int]) <= 9);
                }
                let ghost old_v = v as int;
                let ghost old_t = digits_val(s@.subrange(rs, i as int));
                v = v * 10 + d;
                if v > 0x8000_0000 {
                    v = 0x8000_0000;
                }
                proof {
                    let t1 = digits_val(s@.subrange(rs, i as int + 1));
                    assert(t1 == old_t * 10 + digit_val(s@[i as int]));
                    if old_t > 0x8000_0000 {
                        assert(t1 > 0x8000_0000);
                        assert(v == 0x8000_0000);
                    } else {
                        assert(old_v == old_t);
                        assert(v == capped(t1));
                    }
                }
            } else {
                proof {
                    rs = i as int;
                    let run1 = s@.subrange(rs, rs + 1);
                    assert(run1.drop_last() =~= Seq::<char>::empty());
                    assert(run1.last() == s@[rs]);
                    assert(digits_val(Seq::<char>::empty()) == 0);
                    assert(digits_val(run1) == digit_val(s@[rs]));
                    assert(0 <= digit_val(s@[rs]) <= 9);
                }
                in_run = true;
                v = d;
                proof {
                    assert(v == capped(digits_val(s@.subrange(rs, i as int + 1))));
                }
            }
        } else {
            if in_run {
                proof {
                    lemma_token_vals_run(s@, rs, i as int);
                    let run_val = digits_val(s@.subrange(rs, i as int));
                    assert(tv + (seq![run_val] + token_vals(s@.skip(i as int))) =~= tv.push(
                        run_val,
                    ) + token_vals(s@.skip(i as int)));
                    tv = tv.push(run_val);
                }
                vals.push(v);
                in_run = false;
            }
            proof {
                lemma_token_vals_skip_nondigit(s@, i as int);
            }
        }
        i += 1;
    }
    if in_run {
        proof {
            lemma_token_vals_run(s@, rs, n as int);
            lemma_token_vals_end(s@);
            let run_val = digits_val(s@.subrange(rs, n as int));
            assert(tv + (seq![run_val] + token_vals(s@.skip(n as int))) =~= tv.push(run_val));
            tv = tv.push(run_val);
        }
        vals.push(v);
    } else {
        proof {
            lemma_token_vals_end(s@);
            assert(tv + token_vals(s@.skip(n as int)) =~= tv);
        }
    }
    vals
}

/// Parses a non-empty string of decimal digits into its value.
fn parse_digits(s: &str) -> (v: i32)
    requires
        all_digits(s@),
        digits_val(s@) <= i32::MAX,
    ensures
        v == digits_val(s@),
{
    let n = s.unicode_len();
    let mut v: i64 = 0;
    let mut i: usize = 0;
    while i < n
        invariant
            n == s@.len(),
            all_digits(s@),
            digits_val(s@) <= i32::MAX,
            i <= n,
            v == digits_val(s@.take(i as int)),
            0 <= v <= i32::MAX,
        decreases n - i,
    {
        let c = s.get_char(i);
        let u = c as u32;
        proof {
            assert(is_digit(s@[i as int]));
            let pre = s@.take(i as int);
            let pre1 = s@.take(i as int + 1);
            assert(pre1.drop_last() =~= pre);
            assert(pre1.last() == s@[i as int]);
            assert(digits_val(pre1) == digits_val(pre) * 10 + digit_val(s@[i as int]));
            lemma_digits_val_prefix_le(s@, i as int + 1);
        }
        v = v * 10 + ((u - 48) as i64);
        i += 1;
    }
    proof {
        assert(s@.take(n as int) =~= s@);
    }
    v as i32
}

impl Conway {
    /// Parses two digit strings into a coordinate pair.
    pub fn parse_pair(arg1: &str, arg2: &str) -> (c: Coordinates)
        requires
            arg1@.len() > 0,
            all_digits(arg1@),
            digits_val(arg1@) <= i32::MAX,
            arg2@.len() > 0,
            all_digits(arg2@),
            digits_val(arg2@) <= i32::MAX,
        ensures
            c.row == digits_val(arg1@),
            c.col == digits_val(arg2@),
    {
        let row = parse_digits(arg1);
        let col = parse_digits(arg2);
        Coordinates { row, col }
    }

    /// Extracts the maximal digit runs of `s` and consumes them two at a
    /// time as `(row, col)` pairs, each component bounded (inclusively) by
    /// the board's corresponding dimension.
    ///
    /// An odd number of tokens fails with `IncompleteCoordinates`; a pair
    /// with a component above its bound fails with `ParseError`; nothing is
    /// silently clamped or dropped. On success the pairs come back in input
    /// order, one coordinate per token pair.
    pub fn parse(&self, s: String) -> (res: Result<Vec<Coordinates>, ConwayError>)
        ensures
            match res {
                Ok(cs) => {
                    &&& token_vals(s@).len() % 2 == 0
                    &&& cs@.len() * 2 == token_vals(s@).len()
                    &&& forall|p: int|
                        0 <= p < cs@.len() ==> pair_in_range(
                            token_vals(s@),
                            p,
                            self.row as int,
                            self.col as int,
                        )
                    &&& forall|p: int|
                        0 <= p < cs@.len() ==> coord_matches_pair(cs@[p], token_vals(s@), p)
                },
                Err(e) => {
                    ||| (e == ConwayError::IncompleteCoordinates && token_vals(s@).len() % 2 == 1)
                    ||| (e == ConwayError::ParseError && token_vals(s@).len() % 2 == 0 && exists|
                        p: int,
                    |
                        0 <= p < token_vals(s@).len() / 2 && !pair_in_range(
                            token_vals(s@),
                            p,
                            self.row as int,
                            self.col as int,
                        ))
                },
            },
    {
        let rows = self.row;
        let cols = self.col;
        let vals = scan_tokens(s.as_str());
        proof {
            lemma_token_vals_nonneg(s@);
        }
        if vals.len() % 2 == 1 {
            return Err(ConwayError::IncompleteCoordinates);
        }
        let half = vals.len() / 2;
        let mut cs: Vec<Coordinates> = Vec::new();
        let mut p: usize = 0;
        while p < half
            invariant
                rows == self.row,
                cols == self.col,
                vals@.len() == token_vals(s@).len(),
                forall|k: int| 0 <= k < vals@.len() ==> vals@[k] == capped(token_vals(s@)[k]),
                forall|k: int| 0 <= k < token_vals(s@).len() ==> token_vals(s@)[k] >= 0,
                vals@.len() % 2 == 0,
                vals@.len() <= usize::MAX,
                half == vals@.len() / 2,
                p <= half,
                cs@.len() == p,
                forall|q: int|
                    0 <= q < p ==> pair_in_range(token_vals(s@), q, rows as int, cols as int),
                forall|q: int| 0 <= q < p ==> coord_matches_pair(cs@[q], token_vals(s@), q),
            decreases half - p,
        {
            proof {
                vstd::arithmetic::div_mod::lemma_fundamental_div_mod(vals@.len() as int, 2);
                assert(2 * p + 1 < vals@.len());
            }
            let a = vals[2 * p];
            let b = vals[2 * p + 1];
            let ghost toks = token_vals(s@);
            let ghost pp = p as int;
            proof {
                assert(a == capped(toks[2 * pp]));
                assert(b == capped(toks[2 * pp + 1]));
                assert(toks[2 * pp] >= 0 && toks[2 * pp + 1] >= 0);
            }
            if a > rows as i64 || b > cols as i64 {
                proof {
                    assert(toks[2 * pp] > rows as int || toks[2 * pp + 1] > cols as int);
                    assert(0 <= pp < toks.len() / 2 && !pair_in_range(
                        toks,
                        pp,
                        rows as int,
                        cols as int,
                    ));
                }
                return Err(ConwayError::ParseError);
            }
            proof {
                assert(toks[2 * pp] == a as int && toks[2 * pp + 1] == b as int);
                assert(pair_in_range(toks, pp, rows as int, cols as int));
            }
            cs.push(Coordinates { row: a as i32, col: b as i32 });
            p += 1;
        }
        proof {
            vstd::arithmetic::div_mod::lemma_fundamental_div_mod(vals@.len() as int, 2);
            assert(cs@.len() * 2 == token_vals(s@).len());
        }
        Ok(cs)
    }
}

} // verus!
