use vstd::prelude::*;

use crate::ast::Literal;
use crate::rt::{trunc_div, OpKind, Reason, RuntimeError};

verus! {

/// The value chain of checked exponentiation: each step multiplies by the
/// base and fails once a partial product leaves the 128-bit signed range,
/// as the machine's repeated checked multiply does.
pub open spec fn pow_iter(a: int, b: nat) -> Option<int>
    decreases b,
{
    if b == 0 {
        Some(1)
    } else {
        match pow_iter(a, (b - 1) as nat) {
            Some(p) => {
                if i128::MIN <= a * p <= i128::MAX {
                    Some(a * p)
                } else {
                    None
                }
            },
            None => None,
        }
    }
}

pub proof fn lemma_pow_iter_zero(b: nat)
    requires
        b >= 1,
    ensures
        pow_iter(0, b) == Some(0int),
    decreases b,
{
    if b > 1 {
        lemma_pow_iter_zero((b - 1) as nat);
    } else {
        assert(pow_iter(0, 0) == Some(1int));
    }
}

pub proof fn lemma_pow_iter_one(b: nat)
    ensures
        pow_iter(1, b) == Some(1int),
    decreases b,
{
    if b > 0 {
        lemma_pow_iter_one((b - 1) as nat);
    }
}

pub proof fn lemma_pow_iter_neg_one(b: nat)
    ensures
        pow_iter(-1, b) == Some(if b % 2 == 0 { 1int } else { -1int }),
    decreases b,
{
    if b > 0 {
        lemma_pow_iter_neg_one((b - 1) as nat);
    }
}

pub proof fn lemma_pow_iter_none(a: int, k: nat, b: nat)
    requires
        pow_iter(a, k) is None,
        k <= b,
    ensures
        pow_iter(a, b) is None,
    decreases b,
{
    if b > k {
        lemma_pow_iter_none(a, k, (b - 1) as nat);
    }
}

/// What raising one integer literal to another yields: a negative
/// exponent is invalid, zero to the zeroth is its own error, and the
/// power is computed by a chain of checked multiplications.
pub open spec fn pow_spec(a: int, b: int) -> Result<int, RuntimeError> {
    if b < 0 {
        Err(RuntimeError::InvalidOperation(OpKind::Pow, Reason::NegativeExponent))
    } else if a == 0 && b == 0 {
        Err(RuntimeError::ZeroToTheZeroeth)
    } else {
        match pow_iter(a, b as nat) {
            Some(p) => Ok(p),
            None => Err(RuntimeError::IntOverflow(OpKind::Pow, a as i128, b as i128)),
        }
    }
}

/// The comparison against a target ordering that every comparison
/// operator of the language reduces to.
pub open spec fn lit_cmp_spec(
    a: Literal,
    b: Literal,
    target: core::cmp::Ordering,
    negated: bool,
) -> Result<Literal, RuntimeError> {
    match (a, b) {
        (Literal::Integer(x), Literal::Integer(y)) => {
            let o = if x < y {
                core::cmp::Ordering::Less
            } else if x == y {
                core::cmp::Ordering::Equal
            } else {
                core::cmp::Ordering::Greater
            };
            Ok(Literal::Boolean((o == target) != negated))
        },
        _ => Err(RuntimeError::InvalidOperation(OpKind::Cmp, Reason::NonNumeral)),
    }
}

impl Literal {
    /// Checked addition of two integer literals.
    pub fn add(self, rhs: Literal) -> (r: Result<Literal, RuntimeError>)
        ensures
            r == lit_add_spec(self, rhs),
    {
        match (self, rhs) {
            (Literal::Integer(a), Literal::Integer(b)) => match a.checked_add(b) {
                Some(v) => Ok(Literal::Integer(v)),
                None => Err(RuntimeError::IntOverflow(OpKind::Add, a, b)),
            },
            _ => Err(RuntimeError::InvalidOperation(OpKind::Add, Reason::NonNumeral)),
        }
    }

    /// Checked subtraction of two integer literals.
    pub fn sub(self, rhs: Literal) -> (r: Result<Literal, RuntimeError>)
        ensures
            r == lit_sub_spec(self, rhs),
    {
        match (self, rhs) {
            (Literal::Integer(a), Literal::Integer(b)) => match a.checked_sub(b) {
                Some(v) => Ok(Literal::Integer(v)),
                None => Err(RuntimeError::IntOverflow(OpKind::Sub, a, b)),
            },
            _ => Err(RuntimeError::InvalidOperation(OpKind::Sub, Reason::NonNumeral)),
        }
    }

    /// Checked multiplication of two integer literals.
    pub fn mul(self, rhs: Literal) -> (r: Result<Literal, RuntimeError>)
        ensures
            r == lit_mul_spec(self, rhs),
    {
        match (self, rhs) {
            (Literal::Integer(a), Literal::Integer(b)) => match a.checked_mul(b) {
                Some(v) => Ok(Literal::Integer(v)),
                None => Err(RuntimeError::IntOverflow(OpKind::Mul, a, b)),
            },
            _ => Err(RuntimeError::InvalidOperation(OpKind::Mul, Reason::NonNumeral)),
        }
    }

    /// Checked division of two integer literals, truncating toward zero;
    /// a zero divisor is `DivideByZero`, the one unrepresentable quotient
    /// overflows.
    pub fn div(self, rhs: Literal) -> (r: Result<Literal, RuntimeError>)
        ensures
            r == lit_div_spec(self, rhs),
    {
        match (self, rhs) {
            (Literal::Integer(a), Literal::Integer(b)) => {
                if b == 0 {
                    Err(RuntimeError::DivideByZero)
                } else {
                    match a.checked_div(b) {
                        Some(v) => Ok(Literal::Integer(v)),
                        None => Err(RuntimeError::IntOverflow(OpKind::Div, a, b)),
                    }
                }
            },
            _ => Err(RuntimeError::InvalidOperation(OpKind::Div, Reason::NonNumeral)),
        }
    }

    /// Checked exponentiation of two integer literals.
    #[verifier::loop_isolation(false)]
    pub fn pow(self, rhs: Literal) -> (r: Result<Literal, RuntimeError>)
        ensures
            r == lit_pow_spec(self, rhs),
    {
        match (self, rhs) {
            (Literal::Integer(a), Literal::Integer(b)) => {
                if b < 0 {
                    return Err(
                        RuntimeError::InvalidOperation(OpKind::Pow, Reason::NegativeExponent),
                    );
                }
                if a == 0 && b == 0 {
                    return Err(RuntimeError::ZeroToTheZeroeth);
                }
                if a == 0 {
                    proof {
                        lemma_pow_iter_zero(b as nat);
                    }
                    return Ok(Literal::Integer(0));
                }
                if a == 1 {
                    proof {
                        lemma_pow_iter_one(b as nat);
                    }
                    return Ok(Literal::Integer(1));
                }
                if a == -1 {
                    proof {
                        lemma_pow_iter_neg_one(b as nat);
                    }
                    if b % 2 == 0 {
                        return Ok(Literal::Integer(1));
                    } else {
                        return Ok(Literal::Integer(-1));
                    }
                }
                let mut acc: i128 = 1;
                let mut k: i128 = 0;
                while k < b
                    invariant
                        0 <= k <= b,
                        pow_iter(a as int, k as nat) == Some(acc as int),
                    decreases b - k,
                {
                    proof {
                        assert((acc as int) * (a as int) == (a as int) * (acc as int)) by (nonlinear_arith);
                    }
                    match acc.checked_mul(a) {
                        Some(next) => {
                            acc = next;
                        },
                        None => {
                            proof {
                                assert(pow_iter(a as int, (k + 1) as nat) is None);
                                lemma_pow_iter_none(a as int, (k + 1) as nat, b as nat);
                            }
                            return Err(RuntimeError::IntOverflow(OpKind::Pow, a, b));
                        },
                    }
                    k = k + 1;
                }
                Ok(Literal::Integer(acc))
            },
            _ => Err(RuntimeError::InvalidOperation(OpKind::Pow, Reason::NonNumeral)),
        }
    }

    /// Whether the ordering of two integer literals is `target_ord`,
    /// negated if asked.
    pub fn cmp_op(
        self,
        other: Literal,
        target_ord: core::cmp::Ordering,
        negated: bool,
    ) -> (r: Result<Literal, RuntimeError>)
        ensures
            r == lit_cmp_spec(self, other, target_ord, negated),
    {
        match (self, other) {
            (Literal::Integer(x), Literal::Integer(y)) => {
                let o = if x < y {
                    core::cmp::Ordering::Less
                } else if x == y {
                    core::cmp::Ordering::Equal
                } else {
                    core::cmp::Ordering::Greater
                };
                let hit = match (o, target_ord) {
                    (core::cmp::Ordering::Less, core::cmp::Ordering::Less) => true,
                    (core::cmp::Ordering::Equal, core::cmp::Ordering::Equal) => true,
                    (core::cmp::Ordering::Greater, core::cmp::Ordering::Greater) => true,
                    _ => false,
                };
                Ok(Literal::Boolean(if negated {
                    !hit
                } else {
                    hit
                }))
            },
            _ => Err(RuntimeError::InvalidOperation(OpKind::Cmp, Reason::NonNumeral)),
        }
    }
}

/// What adding two literals yields.
pub open spec fn lit_add_spec(a: Literal, b: Literal) -> Result<Literal, RuntimeError> {
    match (a, b) {
        (Literal::Integer(x), Literal::Integer(y)) => {
            if i128::MIN <= x + y <= i128::MAX {
                Ok(Literal::Integer((x + y) as i128))
            } else {
                Err(RuntimeError::IntOverflow(OpKind::Add, x, y))
            }
        },
        _ => Err(RuntimeError::InvalidOperation(OpKind::Add, Reason::NonNumeral)),
    }
}

/// What subtracting two literals yields.
pub open spec fn lit_sub_spec(a: Literal, b: Literal) -> Result<Literal, RuntimeError> {
    match (a, b) {
        (Literal::Integer(x), Literal::Integer(y)) => {
            if i128::MIN <= x - y <= i128::MAX {
                Ok(Literal::Integer((x - y) as i128))
            } else {
                Err(RuntimeError::IntOverflow(OpKind::Sub, x, y))
            }
        },
        _ => Err(RuntimeError::InvalidOperation(OpKind::Sub, Reason::NonNumeral)),
    }
}

/// What multiplying two literals yields.
pub open spec fn lit_mul_spec(a: Literal, b: Literal) -> Result<Literal, RuntimeError> {
    match (a, b) {
        (Literal::Integer(x), Literal::Integer(y)) => {
            if i128::MIN <= x * y <= i128::MAX {
                Ok(Literal::Integer((x * y) as i128))
            } else {
                Err(RuntimeError::IntOverflow(OpKind::Mul, x, y))
            }
        },
        _ => Err(RuntimeError::InvalidOperation(OpKind::Mul, Reason::NonNumeral)),
    }
}

/// What dividing two literals yields.
pub open spec fn lit_div_spec(a: Literal, b: Literal) -> Result<Literal, RuntimeError> {
    match (a, b) {
        (Literal::Integer(x), Literal::Integer(y)) => {
            if y == 0 {
                Err(RuntimeError::DivideByZero)
            } else {
                let q = trunc_div(x as int, y as int);
                if i128::MIN <= q <= i128::MAX {
                    Ok(Literal::Integer(q as i128))
                } else {
                    Err(RuntimeError::IntOverflow(OpKind::Div, x, y))
                }
            }
        },
        _ => Err(RuntimeError::InvalidOperation(OpKind::Div, Reason::NonNumeral)),
    }
}

/// What raising one literal to another yields.
pub open spec fn lit_pow_spec(a: Literal, b: Literal) -> Result<Literal, RuntimeError> {
    match (a, b) {
        (Literal::Integer(x), Literal::Integer(y)) => {
            match pow_spec(x as int, y as int) {
                Ok(p) => Ok(Literal::Integer(p as i128)),
                Err(e) => Err(e),
            }
        },
        _ => Err(RuntimeError::InvalidOperation(OpKind::Pow, Reason::NonNumeral)),
    }
}

} // verus!
