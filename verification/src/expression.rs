//! Constraint expressions: predicates over property values that are richer
//! than a flat allowed-value set.
//!
//! The one expression form is a numeric range check: a value is admitted when
//! its text is a decimal numeral (1 to 19 digits, so that it fits in `u64`)
//! whose numeric value lies inside the closed range.

use vstd::prelude::*;

use crate::property::PropertyValue;

verus! {

/// A predicate over property values. When a constraint carries an expression
/// the expression supersedes the constraint's allowed-value set for matching.
pub enum PropertyExpression {
    /// Admits decimal numerals whose value `n` satisfies `lo <= n <= hi`.
    IntRange { lo: u64, hi: u64 },
}

/// The bytes form a decimal numeral of 1 to 19 digits.
pub open spec fn is_dec_numeral(v: Seq<u8>) -> bool {
    &&& 1 <= v.len() <= 19
    &&& forall|i: int| 0 <= i < v.len() ==> 48 <= #[trigger] v[i] <= 57
}

/// The numeric value of a sequence of decimal digits, most significant first.
pub open spec fn dec_value(v: Seq<u8>) -> nat
    decreases v.len(),
{
    if v.len() == 0 {
        0
    } else {
        (dec_value(v.drop_last()) * 10 + (v.last() - 48)) as nat
    }
}

/// Whether the expression admits the (normalized) value text `v`.
pub open spec fn expr_admits(e: PropertyExpression, v: Seq<u8>) -> bool {
    match e {
        PropertyExpression::IntRange { lo, hi } => {
            &&& is_dec_numeral(v)
            &&& lo <= dec_value(v) <= hi
        },
    }
}

/// Ten to the power `n`.
pub open spec fn pow10(n: nat) -> nat
    decreases n,
{
    if n == 0 {
        1
    } else {
        10 * pow10((n - 1) as nat)
    }
}

/// A sequence of `n` decimal digits denotes a value below ten to the `n`.
pub proof fn lemma_dec_value_bound(v: Seq<u8>)
    requires
        forall|i: int| 0 <= i < v.len() ==> 48 <= #[trigger] v[i] <= 57,
    ensures
        dec_value(v) < pow10(v.len() as nat),
    decreases v.len(),
{
    if v.len() > 0 {
        lemma_dec_value_bound(v.drop_last());
        assert(dec_value(v.drop_last()) * 10 + (v.last() - 48) < pow10(v.len() as nat)) by (nonlinear_arith)
            requires
                dec_value(v.drop_last()) < pow10((v.len() - 1) as nat),
                v.last() - 48 <= 9,
                pow10(v.len() as nat) == 10 * pow10((v.len() - 1) as nat),
        {}
    }
}

impl PropertyExpression {
    /// Decides whether this expression admits the given value.
    pub fn matches_value(&self, v: &PropertyValue) -> (r: bool)
        ensures
            r == expr_admits(*self, v@),
    {
        match self {
            PropertyExpression::IntRange { lo, hi } => {
                let bytes = v.bytes();
                match parse_dec_numeral(bytes) {
                    Some(n) => *lo <= n && n <= *hi,
                    None => false,
                }
            },
        }
    }
}

/// Parses a decimal numeral of 1 to 19 digits; returns its value, or `None`
/// when the bytes are not such a numeral.
pub fn parse_dec_numeral(v: &Vec<u8>) -> (r: Option<u64>)
    ensures
        match r {
            Some(n) => is_dec_numeral(v@) && n == dec_value(v@),
            None => !is_dec_numeral(v@),
        },
{
    if v.len() == 0 || v.len() > 19 {
        return None;
    }
    let mut acc: u64 = 0;
    let mut i: usize = 0;
    while i < v.len()
        invariant
            i <= v@.len(),
            1 <= v@.len() <= 19,
            forall|k: int| 0 <= k < i ==> 48 <= #[trigger] v@[k] <= 57,
            acc == dec_value(v@.take(i as int)),
        decreases v@.len() - i,
    {
        let b = v[i];
        if b < 48 || b > 57 {
            return None;
        }
        proof {
            lemma_dec_value_bound(v@.take(i as int));
            reveal_with_fuel(pow10, 20);
            assert(pow10(i as nat) <= pow10(18)) by {
                lemma_pow10_increases(i as nat, 18);
            }
            assert(v@.take(i + 1).drop_last() =~= v@.take(i as int));
            assert(v@.take(i + 1).last() == v@[i as int]);
        }
        acc = acc * 10 + ((b - 48) as u64);
        i = i + 1;
    }
    proof {
        assert(v@.take(v@.len() as int) =~= v@);
    }
    Some(acc)
}

/// `pow10` is monotone in its exponent.
pub proof fn lemma_pow10_increases(m: nat, n: nat)
    requires
        m <= n,
    ensures
        pow10(m) <= pow10(n),
    decreases n,
{
    if m < n {
        lemma_pow10_increases(m, (n - 1) as nat);
        assert(pow10(n) == 10 * pow10((n - 1) as nat));
    }
}

} // verus!
