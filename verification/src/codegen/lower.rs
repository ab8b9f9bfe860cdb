//! What the code of a syntax tree is.
//!
//! Every expression leaves its value on top of the stack. A control construct
//! takes the next free label index before any of its parts is lowered, so
//! that no two constructs share a label.
use super::instr::Instr;
use super::instr::Label;
use super::instr::LabelKind;
use crate::parser::node::SpecNode;
use vstd::prelude::*;

verus! {

/// Why a tree has no code.
#[derive(Clone, Copy, Debug, PartialEq, Eq)]
pub enum Error {
    /// The target of an assignment is not a variable.
    AssignTarget,
    /// There are more control constructs than label indices.
    TooManyLabels,
}

/// The code of a phrase, and the next free label index after it.
pub struct Lowered {
    pub code: Seq<Instr>,
    pub next: usize,
}

/// The bytes reserved for local variables: room for 26 of them.
pub const FRAME: usize = 208;

/// Pushes the address of the variable at `offset`.
pub open spec fn address(offset: usize) -> Seq<Instr> {
    seq![Instr::MovRaxRbp, Instr::SubRaxImm(offset), Instr::PushRax]
}

/// Replaces the address on top of the stack by the value that it holds.
pub open spec fn load() -> Seq<Instr> {
    seq![Instr::PopRax, Instr::LoadRax, Instr::PushRax]
}

/// Pops the value and the address under it, stores the value there and
/// pushes it again.
pub open spec fn store() -> Seq<Instr> {
    seq![Instr::PopRdi, Instr::PopRax, Instr::StoreRdi, Instr::PushRdi]
}

/// Pops the second operand into `rdi` and the first operand into `rax`.
pub open spec fn operands() -> Seq<Instr> {
    seq![Instr::PopRdi, Instr::PopRax]
}

/// Compares the two operands, sets `rax` to 0 or 1 by `set`, and pushes it.
pub open spec fn comparison(set: Instr) -> Seq<Instr> {
    operands() + seq![Instr::Compare, set, Instr::ZeroExtend, Instr::PushRax]
}

/// Applies `op` to the two operands and pushes the result.
pub open spec fn arithmetic(op: Instr) -> Seq<Instr> {
    operands() + seq![op, Instr::PushRax]
}

/// Divides the left operand, extended to double width, by the right one and
/// pushes the quotient.
pub open spec fn division() -> Seq<Instr> {
    operands() + seq![Instr::SignExtend, Instr::Div, Instr::PushRax]
}

/// Pops the value into `rax`, takes down the frame and returns.
pub open spec fn leave() -> Seq<Instr> {
    seq![Instr::PopRax, Instr::MovRspRbp, Instr::PopRbp, Instr::Ret]
}

/// Pops the condition and jumps to `target` where it is zero.
pub open spec fn branch_if_zero(target: Label) -> Seq<Instr> {
    seq![Instr::PopRax, Instr::CompareZero, Instr::JumpEqual(target)]
}

/// The label of role `kind` of the construct `index`.
pub open spec fn label(kind: LabelKind, index: usize) -> Label {
    Label { kind, index }
}

/// What follows the operands of a binary node, or nothing for another node.
pub open spec fn operation(n: SpecNode) -> Seq<Instr> {
    match n {
        SpecNode::Equal(_, _) => comparison(Instr::SetEqual),
        SpecNode::UnEqual(_, _) => comparison(Instr::SetNotEqual),
        SpecNode::Less(_, _) => comparison(Instr::SetLess),
        SpecNode::LessEqual(_, _) => comparison(Instr::SetLessEqual),
        SpecNode::Plus(_, _) => arithmetic(Instr::Add),
        SpecNode::Minus(_, _) => arithmetic(Instr::Sub),
        SpecNode::Multiple(_, _) => arithmetic(Instr::Mul),
        SpecNode::Devide(_, _) => division(),
        _ => Seq::empty(),
    }
}

/// The code of an optional phrase: nothing where it is absent.
pub open spec fn lower_option(n: Option<Box<SpecNode>>, next: usize) -> Result<Lowered, Error>
    decreases n, 0nat,
{
    match n {
        Some(n) => lower(*n, next),
        None => Ok(Lowered { code: Seq::empty(), next }),
    }
}

/// The code of a tree, with `next` the next free label index.
pub open spec fn lower(n: SpecNode, next: usize) -> Result<Lowered, Error>
    decreases n, 1nat,
{
    match n {
        SpecNode::Number(v) => Ok(Lowered { code: seq![Instr::PushImm(v)], next }),
        SpecNode::LocalVariable(_, offset) => Ok(Lowered { code: address(offset) + load(), next }),
        SpecNode::Equal(l, r)
        | SpecNode::UnEqual(l, r)
        | SpecNode::Less(l, r)
        | SpecNode::LessEqual(l, r)
        | SpecNode::Plus(l, r)
        | SpecNode::Minus(l, r)
        | SpecNode::Multiple(l, r)
        | SpecNode::Devide(l, r) => match lower(*l, next) {
            Err(e) => Err(e),
            Ok(a) => match lower(*r, a.next) {
                Err(e) => Err(e),
                Ok(b) => Ok(Lowered { code: a.code + b.code + operation(n), next: b.next }),
            },
        },
        SpecNode::Assign(target, value) => match *target {
            SpecNode::LocalVariable(_, offset) => match lower(*value, next) {
                Err(e) => Err(e),
                Ok(v) => Ok(Lowered { code: address(offset) + v.code + store(), next: v.next }),
            },
            _ => Err(Error::AssignTarget),
        },
        SpecNode::Return(v) => match lower(*v, next) {
            Err(e) => Err(e),
            Ok(v) => Ok(Lowered { code: v.code + leave(), next: v.next }),
        },
        SpecNode::Block(nodes) => lower_all(nodes, next, Seq::empty()),
        SpecNode::If(condition, then, otherwise) => {
            if next == usize::MAX {
                Err(Error::TooManyLabels)
            } else {
                let end = label(LabelKind::End, next);
                let other = label(LabelKind::Else, next);
                match lower(*condition, (next + 1) as usize) {
                    Err(e) => Err(e),
                    Ok(c) => match lower(*then, c.next) {
                        Err(e) => Err(e),
                        Ok(t) => match otherwise {
                            Some(otherwise) => match lower(*otherwise, t.next) {
                                Err(e) => Err(e),
                                Ok(o) => Ok(
                                    Lowered {
                                        code: c.code + branch_if_zero(other) + t.code + seq![
                                            Instr::Jump(end),
                                            Instr::Place(other),
                                        ] + o.code + seq![Instr::Place(end)],
                                        next: o.next,
                                    },
                                ),
                            },
                            None => Ok(
                                Lowered {
                                    code: c.code + branch_if_zero(end) + t.code + seq![
                                        Instr::Place(end),
                                    ],
                                    next: t.next,
                                },
                            ),
                        },
                    },
                }
            }
        },
        SpecNode::While(condition, body) => {
            if next == usize::MAX {
                Err(Error::TooManyLabels)
            } else {
                let begin = label(LabelKind::Begin, next);
                let end = label(LabelKind::End, next);
                match lower(*condition, (next + 1) as usize) {
                    Err(e) => Err(e),
                    Ok(c) => match lower(*body, c.next) {
                        Err(e) => Err(e),
                        Ok(b) => Ok(
                            Lowered {
                                code: seq![Instr::Place(begin)] + c.code + branch_if_zero(end)
                                    + b.code + seq![Instr::Jump(begin), Instr::Place(end)],
                                next: b.next,
                            },
                        ),
                    },
                }
            }
        },
        SpecNode::For(init, test, step, body) => {
            if next == usize::MAX {
                Err(Error::TooManyLabels)
            } else {
                let begin = label(LabelKind::Begin, next);
                let end = label(LabelKind::End, next);
                match lower_option(init, (next + 1) as usize) {
                    Err(e) => Err(e),
                    Ok(i) => match lower_option(test, i.next) {
                        Err(e) => Err(e),
                        Ok(t) => match lower_option(step, t.next) {
                            Err(e) => Err(e),
                            Ok(s) => match lower(*body, s.next) {
                                Err(e) => Err(e),
                                Ok(b) => Ok(
                                    Lowered {
                                        code: i.code + seq![Instr::Place(begin)] + t.code + (
                                        if test is Some {
                                            branch_if_zero(end)
                                        } else {
                                            Seq::empty()
                                        }) + s.code + b.code + seq![
                                            Instr::Jump(begin),
                                            Instr::Place(end),
                                        ],
                                        next: b.next,
                                    },
                                ),
                            },
                        },
                    },
                }
            }
        },
    }
}

/// The code of the trees of `nodes` in order, each followed by `after`.
pub open spec fn lower_all(nodes: Seq<SpecNode>, next: usize, after: Seq<Instr>) -> Result<
    Lowered,
    Error,
>
    decreases nodes, 0nat,
{
    if nodes.len() == 0 {
        Ok(Lowered { code: Seq::empty(), next })
    } else {
        match lower(nodes[0], next) {
            Err(e) => Err(e),
            Ok(first) => match lower_all(nodes.subrange(1, nodes.len() as int), first.next, after) {
                Err(e) => Err(e),
                Ok(rest) => Ok(Lowered { code: first.code + after + rest.code, next: rest.next }),
            },
        }
    }
}

/// The directives and the entry label that the output starts with.
pub open spec fn preamble() -> Seq<Instr> {
    seq![Instr::IntelSyntax, Instr::Global, Instr::Main]
}

/// Saves the caller's frame base and reserves the frame.
pub open spec fn prologue() -> Seq<Instr> {
    seq![Instr::PushRbp, Instr::MovRbpRsp, Instr::SubRsp(FRAME)]
}

/// Restores the caller's frame and returns what `rax` holds.
pub open spec fn epilogue() -> Seq<Instr> {
    seq![Instr::MovRspRbp, Instr::PopRbp, Instr::Ret]
}

/// The whole program of a sequence of statements: the preamble, the
/// prologue, each statement followed by a pop of the value that it left,
/// and the epilogue.
pub open spec fn program(nodes: Seq<SpecNode>, next: usize) -> Result<Lowered, Error> {
    match lower_all(nodes, next, seq![Instr::PopRax]) {
        Err(e) => Err(e),
        Ok(body) => Ok(
            Lowered { code: preamble() + prologue() + body.code + epilogue(), next: body.next },
        ),
    }
}

} // verus!
