//! Decimal digit runs in a character stream, and their numeric values.
//!
//! The coordinate input is a free-form text whose tokens are the maximal
//! runs of ASCII decimal digits; every other character is a delimiter.

use vstd::prelude::*;

verus! {

/// `c` is an ASCII decimal digit.
pub open spec fn is_digit(c: char) -> bool {
    48 <= c as int && c as int <= 57
}

/// Numeric value of a digit character.
pub open spec fn digit_val(c: char) -> int {
    c as int - 48
}

/// Every character of `s` is a decimal digit.
pub open spec fn all_digits(s: Seq<char>) -> bool {
    forall|i: int| 0 <= i < s.len() ==> is_digit(s[i])
}

/// Value of a digit string read in base 10, most significant digit first.
pub open spec fn digits_val(s: Seq<char>) -> int
    decreases s.len(),
{
    if s.len() == 0 {
        0
    } else {
        digits_val(s.drop_last()) * 10 + digit_val(s.last())
    }
}

/// Length of the leading digit run of `s`: the first index holding a
/// non-digit, or the whole length if every character is a digit.
pub open spec fn run_len(s: Seq<char>) -> int
    decreases s.len(),
{
    if s.len() == 0 || !is_digit(s[0]) {
        0
    } else {
        1 + run_len(s.skip(1))
    }
}

/// The values of the maximal digit runs of `s`, left to right. The guard on
/// the run length makes termination evident; a string that starts with a
/// digit always satisfies it (`lemma_run_len_bounds`).
pub open spec fn token_vals(s: Seq<char>) -> Seq<int>
    decreases s.len(),
{
    if s.len() == 0 {
        Seq::empty()
    } else if !is_digit(s[0]) {
        token_vals(s.skip(1))
    } else if 1 <= run_len(s) <= s.len() {
        seq![digits_val(s.take(run_len(s)))] + token_vals(s.skip(run_len(s)))
    } else {
        Seq::empty()
    }
}

/// A token value too large for the board bounds, folded down to one
/// representative above every admissible bound.
pub open spec fn capped(t: int) -> int {
    if t > 0x8000_0000 {
        0x8000_0000
    } else {
        t
    }
}

/// The value of a digit string is non-negative.
pub proof fn lemma_digits_val_nonneg(s: Seq<char>)
    requires
        all_digits(s),
    ensures
        digits_val(s) >= 0,
    decreases s.len(),
{
    if s.len() > 0 {
        assert(all_digits(s.drop_last())) by {
            assert forall|i: int| 0 <= i < s.len() - 1 implies is_digit(s.drop_last()[i]) by {
                assert(s.drop_last()[i] == s[i]);
            }
        }
        lemma_digits_val_nonneg(s.drop_last());
        assert(is_digit(s.last()));
    }
}

/// Reading more digits never shrinks the value: the value of a prefix is at
/// most the value of the whole digit string.
pub proof fn lemma_digits_val_prefix_le(s: Seq<char>, n: int)
    requires
        all_digits(s),
        0 <= n <= s.len(),
    ensures
        digits_val(s.take(n)) <= digits_val(s),
    decreases s.len() - n,
{
    if n == s.len() {
        assert(s.take(n) =~= s);
    } else {
        assert(s.take(n + 1).drop_last() =~= s.take(n));
        assert(s.take(n + 1).last() == s[n]);
        assert(all_digits(s.take(n))) by {
            assert forall|i: int| 0 <= i < n implies is_digit(s.take(n)[i]) by {
                assert(s.take(n)[i] == s[i]);
            }
        }
        lemma_digits_val_nonneg(s.take(n));
        assert(digits_val(s.take(n + 1)) >= digits_val(s.take(n)));
        lemma_digits_val_prefix_le(s, n + 1);
    }
}

/// The leading digit run is within bounds, consists of digits, and stops at
/// a non-digit.
pub proof fn lemma_run_len_bounds(s: Seq<char>)
    ensures
        0 <= run_len(s) <= s.len(),
        forall|i: int| 0 <= i < run_len(s) ==> is_digit(s[i]),
        run_len(s) < s.len() ==> !is_digit(s[run_len(s)]),
    decreases s.len(),
{
    if s.len() != 0 && is_digit(s[0]) {
        lemma_run_len_bounds(s.skip(1));
        assert forall|i: int| 0 <= i < run_len(s) implies is_digit(s[i]) by {
            if i >= 1 {
                assert(s.skip(1)[i - 1] == s[i]);
            }
        }
        if run_len(s) < s.len() {
            assert(s.skip(1)[run_len(s) - 1] == s[run_len(s)]);
        }
    }
}

/// A stretch of digits ending at a non-digit (or at the end of the string)
/// is exactly the leading run.
pub proof fn lemma_run_len_is(s: Seq<char>, k: int)
    requires
        0 <= k <= s.len(),
        forall|i: int| 0 <= i < k ==> is_digit(s[i]),
        k < s.len() ==> !is_digit(s[k]),
    ensures
        run_len(s) == k,
    decreases s.len(),
{
    if s.len() == 0 || !is_digit(s[0]) {
        assert(k == 0);
    } else {
        assert(k >= 1);
        let t = s.skip(1);
        assert forall|i: int| 0 <= i < k - 1 implies is_digit(t[i]) by {
            assert(t[i] == s[i + 1]);
        }
        if k - 1 < t.len() {
            assert(t[k - 1] == s[k]);
        }
        lemma_run_len_is(t, k - 1);
    }
}

/// Dropping a leading delimiter leaves the token values unchanged.
pub proof fn lemma_token_vals_skip_nondigit(s: Seq<char>, i: int)
    requires
        0 <= i < s.len(),
        !is_digit(s[i]),
    ensures
        token_vals(s.skip(i)) == token_vals(s.skip(i + 1)),
{
    let t = s.skip(i);
    assert(t[0] == s[i]);
    assert(t.skip(1) =~= s.skip(i + 1));
}

/// A maximal digit run `[i, j)` contributes its value as the next token,
/// followed by the tokens of the rest of the string.
pub proof fn lemma_token_vals_run(s: Seq<char>, i: int, j: int)
    requires
        0 <= i < j <= s.len(),
        forall|k: int| i <= k < j ==> is_digit(s[k]),
        j < s.len() ==> !is_digit(s[j]),
    ensures
        token_vals(s.skip(i)) == seq![digits_val(s.subrange(i, j))] + token_vals(s.skip(j)),
{
    let t = s.skip(i);
    assert forall|k: int| 0 <= k < j - i implies is_digit(t[k]) by {
        assert(t[k] == s[k + i]);
    }
    if j - i < t.len() {
        assert(t[j - i] == s[j]);
    }
    lemma_run_len_is(t, j - i);
    assert(is_digit(t[0]));
    assert(t.take(j - i) =~= s.subrange(i, j));
    assert(t.skip(j - i) =~= s.skip(j));
}

/// Every token value is the value of a digit string, hence non-negative.
pub proof fn lemma_token_vals_nonneg(s: Seq<char>)
    ensures
        forall|k: int| 0 <= k < token_vals(s).len() ==> token_vals(s)[k] >= 0,
    decreases s.len(),
{
    if s.len() == 0 {
    } else if !is_digit(s[0]) {
        lemma_token_vals_nonneg(s.skip(1));
        assert(token_vals(s) == token_vals(s.skip(1)));
    } else {
        lemma_run_len_bounds(s);
        let r = run_len(s);
        assert(1 <= r <= s.len());
        lemma_token_vals_nonneg(s.skip(r));
        assert(all_digits(s.take(r))) by {
            assert forall|i: int| 0 <= i < r implies is_digit(s.take(r)[i]) by {
                assert(s.take(r)[i] == s[i]);
            }
        }
        lemma_digits_val_nonneg(s.take(r));
        assert forall|k: int| 0 <= k < token_vals(s).len() implies token_vals(s)[k] >= 0 by {
            if k > 0 {
                assert(token_vals(s)[k] == token_vals(s.skip(r))[k - 1]);
            }
        }
    }
}

/// Past the end of the string there are no tokens left.
pub proof fn lemma_token_vals_end(s: Seq<char>)
    ensures
        token_vals(s.skip(s.len() as int)) == Seq::<int>::empty(),
{
    assert(s.skip(s.len() as int) =~= Seq::<char>::empty());
}

} // verus!
