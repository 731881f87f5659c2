//! Surface-syntax nodes consumed by semantic analysis: identifiers, type
//! expressions, and the literal array dimensions attached to them.

use vstd::prelude::*;
use crate::span::{Span, Symbol};

verus! {

/// A name as it appears in the source, with its location.
#[derive(Clone, Copy, Debug, PartialEq, Eq, Structural)]
pub struct Identifier {
    pub name: Symbol,
    pub span: Span,
}

/// The width and signedness of an integer type.
#[derive(Clone, Copy, Debug, PartialEq, Eq, Structural)]
pub enum IntegerType {
    U8,
    U16,
    U32,
    U64,
    U128,
    I8,
    I16,
    I32,
    I64,
    I128,
}

/// A numeric literal written in the source as decimal digits.
#[derive(Debug, PartialEq, Eq)]
pub struct PositiveNumber {
    pub value: String,
}

/// The dimensions written on an array type expression.
///
/// The desugaring pass that runs before semantic analysis flattens
/// multi-dimensional arrays into nested single-dimensional ones, so the
/// `Multi` form must not reach type resolution.
#[derive(Debug, PartialEq, Eq)]
pub enum ArrayDimensions {
    /// `[type; _]`: the element count is to be inferred by a later pass.
    Unspecified,
    /// `[type; n]`: a literal element count.
    Number(PositiveNumber),
    /// `[type; (n, m, ...)]`: a multi-dimensional form, eliminated before
    /// this stage.
    Multi(Vec<PositiveNumber>),
}

/// A surface type expression, as the parser produces it.
#[derive(Debug, PartialEq, Eq)]
pub enum Type {
    Address,
    Boolean,
    Char,
    Field,
    Group,
    /// The placeholder left by an earlier, already reported error.
    ErrType,
    IntegerType(IntegerType),
    Array(Box<Type>, ArrayDimensions),
    Tuple(Vec<Type>),
    /// The circuit-self marker, substituted away before this stage.
    SelfType,
    /// A named type: a circuit or an alias, resolved via the scope chain.
    Identifier(Identifier),
}

/// Whether `c` is a decimal digit.
pub open spec fn is_dec_digit(c: char) -> bool {
    48 <= c as u32 && c as u32 <= 57
}

/// The numeric value of a decimal digit.
pub open spec fn digit_val(c: char) -> int {
    c as u32 - 48
}

/// Whether every character of `s` is a decimal digit.
pub open spec fn all_digits(s: Seq<char>) -> bool {
    forall|i: int| 0 <= i < s.len() ==> is_dec_digit(s[i])
}

/// The number the digit string `s` denotes in decimal.
pub open spec fn digits_value(s: Seq<char>) -> int
    decreases s.len(),
{
    if s.len() == 0 {
        0
    } else {
        digits_value(s.drop_last()) * 10 + digit_val(s.last())
    }
}

/// What parsing a decimal literal as an unsigned 32-bit count yields:
/// its value, if `s` is a nonempty digit string whose value fits.
pub open spec fn parse_u32_spec(s: Seq<char>) -> Option<u32> {
    if s.len() > 0 && all_digits(s) && digits_value(s) <= u32::MAX {
        Some(digits_value(s) as u32)
    } else {
        None
    }
}

/// A digit string denotes a nonnegative number.
pub proof fn lemma_digits_value_nonneg(s: Seq<char>)
    requires
        all_digits(s),
    ensures
        digits_value(s) >= 0,
    decreases s.len(),
{
    if s.len() > 0 {
        assert(all_digits(s.drop_last()));
        lemma_digits_value_nonneg(s.drop_last());
    }
}

/// Extending a digit string by one digit multiplies its value by ten and
/// adds the new digit.
pub proof fn lemma_digits_value_step(s: Seq<char>, i: int)
    requires
        0 <= i < s.len(),
    ensures
        digits_value(s.subrange(0, i + 1)) == digits_value(s.subrange(0, i)) * 10 + digit_val(
            s[i],
        ),
{
    let t = s.subrange(0, i + 1);
    assert(t.drop_last() =~= s.subrange(0, i));
    assert(t.last() == s[i]);
}

/// On an all-digit string, the value of a prefix never exceeds the value of
/// a longer prefix.
pub proof fn lemma_digits_value_prefix_le(s: Seq<char>, j: int, k: int)
    requires
        all_digits(s),
        0 <= j <= k <= s.len(),
    ensures
        digits_value(s.subrange(0, j)) <= digits_value(s.subrange(0, k)),
    decreases k - j,
{
    if j < k {
        lemma_digits_value_prefix_le(s, j, k - 1);
        lemma_digits_value_step(s, k - 1);
        assert(all_digits(s.subrange(0, k - 1)));
        lemma_digits_value_nonneg(s.subrange(0, k - 1));
    }
}

/// Parses a decimal literal into an unsigned 32-bit element count, the form
/// array dimensions must take; `None` when the literal is empty, holds a
/// non-digit, or denotes a number above `u32::MAX`.
pub fn parse_array_size(s: &str) -> (r: Option<u32>)
    ensures
        r == parse_u32_spec(s@),
{
    let n = s.unicode_len();
    if n == 0 {
        return None;
    }
    let mut acc: u64 = 0;
    let mut i: usize = 0;
    while i < n
        invariant
            n == s@.len(),
            0 <= i <= n,
            forall|j: int| 0 <= j < i ==> is_dec_digit(s@[j]),
            acc == digits_value(s@.subrange(0, i as int)),
            acc <= u32::MAX,
        decreases n - i,
    {
        let c = s.get_char(i);
        let code = c as u32;
        if code < 48 || code > 57 {
            return None;
        }
        proof {
            lemma_digits_value_step(s@, i as int);
        }
        let nacc: u64 = acc * 10 + (code - 48) as u64;
        if nacc > u32::MAX as u64 {
            proof {
                if all_digits(s@) {
                    lemma_digits_value_prefix_le(s@, i + 1, s@.len() as int);
                    assert(s@.subrange(0, s@.len() as int) =~= s@);
                }
            }
            return None;
        }
        acc = nacc;
        i = i + 1;
    }
    proof {
        assert(s@.subrange(0, n as int) =~= s@);
    }
    Some(acc as u32)
}

} // verus!
