//! The value of an expression.
use super::model::quotient;
use super::model::truth;
use super::model::word;
use super::model::wrap;
use crate::codegen::lower::FRAME;
use crate::parser::node::SpecNode;
use crate::parser::node::expression;
use vstd::prelude::*;

verus! {

/// The variables: the word that the variable at each offset holds.
pub type Frame = Map<int, int>;

/// The value of an expression and the variables after it.
pub struct Valued {
    pub value: int,
    pub frame: Frame,
}

/// Whether a variable at `offset` lies in the frame: in one of its 26 slots.
pub open spec fn in_frame(offset: int) -> bool {
    0 <= offset && offset + 8 <= FRAME && offset % 8 == 0
}

/// Whether every variable of an expression lies in the frame.
pub open spec fn fits(e: SpecNode) -> bool
    decreases e,
{
    match e {
        SpecNode::LocalVariable(_, offset) => in_frame(offset as int),
        SpecNode::Equal(l, r)
        | SpecNode::UnEqual(l, r)
        | SpecNode::Less(l, r)
        | SpecNode::LessEqual(l, r)
        | SpecNode::Plus(l, r)
        | SpecNode::Minus(l, r)
        | SpecNode::Multiple(l, r)
        | SpecNode::Devide(l, r)
        | SpecNode::Assign(l, r) => fits(*l) && fits(*r),
        _ => true,
    }
}

/// The result of a binary operation on the values `a` of its first and `b`
/// of its second operand, or `None` where the division traps: by zero, or
/// with a quotient that is no word.
///
/// Sums, differences and products wrap around. A comparison gives 1 or 0. A
/// quotient is rounded toward zero.
pub open spec fn result(op: SpecNode, a: int, b: int) -> Option<int> {
    match op {
        SpecNode::Equal(_, _) => Some(truth(a == b)),
        SpecNode::UnEqual(_, _) => Some(truth(a != b)),
        SpecNode::Less(_, _) => Some(truth(a < b)),
        SpecNode::LessEqual(_, _) => Some(truth(a <= b)),
        SpecNode::Plus(_, _) => Some(wrap(a + b)),
        SpecNode::Minus(_, _) => Some(wrap(a - b)),
        SpecNode::Multiple(_, _) => Some(wrap(a * b)),
        SpecNode::Devide(_, _) => {
            if b == 0 || !word(quotient(a, b)) {
                None
            } else {
                Some(quotient(a, b))
            }
        },
        _ => None,
    }
}

/// The value of an expression from the variables `frame`, and the variables
/// after it; `None` where a division in it traps, or for a tree that is no
/// expression.
///
/// The first operand of an operation is evaluated before the second: the
/// left one of the source, but for `>` and `>=`, whose operands the parser
/// exchanges. An assignment has the value that it stores.
pub open spec fn value(e: SpecNode, frame: Frame) -> Option<Valued>
    decreases e,
{
    match e {
        SpecNode::Number(v) => Some(Valued { value: v as int, frame }),
        SpecNode::LocalVariable(_, offset) => Some(Valued { value: frame[offset as int], frame }),
        SpecNode::Equal(l, r)
        | SpecNode::UnEqual(l, r)
        | SpecNode::Less(l, r)
        | SpecNode::LessEqual(l, r)
        | SpecNode::Plus(l, r)
        | SpecNode::Minus(l, r)
        | SpecNode::Multiple(l, r)
        | SpecNode::Devide(l, r) => match value(*l, frame) {
            None => None,
            Some(a) => match value(*r, a.frame) {
                None => None,
                Some(b) => match result(e, a.value, b.value) {
                    None => None,
                    Some(v) => Some(Valued { value: v, frame: b.frame }),
                },
            },
        },
        SpecNode::Assign(target, v) => match (*target, value(*v, frame)) {
            (SpecNode::LocalVariable(_, offset), Some(x)) => Some(
                Valued { value: x.value, frame: x.frame.insert(offset as int, x.value) },
            ),
            _ => None,
        },
        _ => None,
    }
}

/// Whether every tree of a sequence is an expression whose variables lie in
/// the frame.
pub open spec fn expressions(es: Seq<SpecNode>) -> bool {
    forall|k: int| 0 <= k < es.len() ==> expression(#[trigger] es[k]) && fits(es[k])
}

/// The value of the last of a sequence of expression statements, each
/// evaluated from the variables that the one before it left, and the
/// variables after all of them; `first` where there is no statement.
pub open spec fn last_value(es: Seq<SpecNode>, frame: Frame, first: int) -> Option<Valued>
    decreases es.len(),
{
    if es.len() == 0 {
        Some(Valued { value: first, frame })
    } else {
        match value(es[0], frame) {
            Some(v) => last_value(es.subrange(1, es.len() as int), v.frame, v.value),
            None => None,
        }
    }
}

/// A comparison has the value 0 or 1.
pub proof fn theorem_comparison_value(e: SpecNode, frame: Frame)
    requires
        e is Equal || e is UnEqual || e is Less || e is LessEqual,
    ensures
        value(e, frame) matches Some(v) ==> v.value == 0 || v.value == 1,
{
}

/// A quotient is rounded toward zero: what is left of the dividend is
/// smaller than the divisor, and is zero or has the sign of the dividend.
pub proof fn theorem_quotient_truncates(a: int, b: int)
    requires
        b != 0,
    ensures
        ({
            let rest = a - quotient(a, b) * b;
            &&& -b < rest < b || b < rest < -b
            &&& a >= 0 ==> rest >= 0
            &&& a <= 0 ==> rest <= 0
        }),
{
    let m = if b > 0 {
        b
    } else {
        -b
    };
    let n = if a >= 0 {
        a
    } else {
        -a
    };
    assert(n - (n / m) * m == n % m && 0 <= n % m < m) by (nonlinear_arith)
        requires
            m > 0,
    ;
    let q = quotient(a, b);
    assert(q * b == if a >= 0 {
        (n / m) * m
    } else {
        -((n / m) * m)
    }) by (nonlinear_arith)
        requires
            q == (if (a >= 0) == (b > 0) {
                n / m
            } else {
                -(n / m)
            }),
            m == (if b > 0 {
                b
            } else {
                -b
            }),
            b != 0,
    ;
}

/// An assignment has the value of its right side, and leaves it in the
/// variable.
pub proof fn theorem_assignment_value(e: SpecNode, frame: Frame)
    requires
        e is Assign,
        expression(e),
    ensures
        value(e, frame) matches Some(v) ==> value(*e->Assign_1, frame) matches Some(x) && v.value
            == x.value && v.frame[e->Assign_0->LocalVariable_1 as int] == x.value,
{
}

} // verus!
