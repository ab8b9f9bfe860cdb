//! Code generation: syntax trees to instructions of a stack machine and
//! their assembly text.
use crate::parser::node::Node;
use crate::parser::node::SpecNode;
use crate::parser::node::boxed_model;
use crate::parser::node::lemma_item_size;
use crate::parser::node::option_size;
use crate::parser::node::size;
use vstd::prelude::*;

pub mod instr;
pub mod laws;
pub mod lower;

pub use instr::Instr;
pub use instr::Label;
pub use instr::LabelKind;
pub use lower::Error;
pub use lower::Lowered;

verus! {

/// A code generator: the counter of the label indices given out.
pub struct Codegen {
    block_index: usize,
}

impl View for Codegen {
    type V = usize;

    /// The next free label index.
    closed spec fn view(&self) -> usize {
        self.block_index
    }
}

/// Whether a step of the generator did what a rule says: it appended the
/// rule's code to the output and left the rule's next free label index; or
/// it failed with the rule's error.
pub open spec fn emitted(
    r: Result<(), Error>,
    rule: Result<Lowered, Error>,
    before: Seq<Instr>,
    after: Seq<Instr>,
    next: usize,
) -> bool {
    match rule {
        Ok(l) => r is Ok && after == before + l.code && next == l.next,
        Err(e) => r == Err::<(), Error>(e),
    }
}

/// The code of two trees one after the other, followed by `tail`.
pub open spec fn both(left: SpecNode, right: SpecNode, next: usize, tail: Seq<Instr>) -> Result<
    Lowered,
    Error,
> {
    match lower::lower(left, next) {
        Err(e) => Err(e),
        Ok(l) => match lower::lower(right, l.next) {
            Err(e) => Err(e),
            Ok(r) => Ok(Lowered { code: l.code + r.code + tail, next: r.next }),
        },
    }
}

fn emit(out: &mut Vec<Instr>, i: Instr)
    ensures
        final(out)@ == old(out)@.push(i),
{
    out.push(i);
}

impl Codegen {
    /// A generator that has given out no label.
    pub fn new() -> (c: Self)
        ensures
            c@ == 0,
    {
        Self { block_index: 0 }
    }

    /// Takes the next free label index.
    fn fresh(&mut self) -> (r: Result<usize, Error>)
        ensures
            match r {
                Ok(index) => index == old(self)@ && index < usize::MAX && final(self)@ == index + 1,
                Err(e) => old(self)@ == usize::MAX && e == Error::TooManyLabels && final(self)@
                    == old(self)@,
            },
    {
        let index: usize = self.block_index;
        if index == usize::MAX {
            return Err(Error::TooManyLabels);
        }
        self.block_index = index + 1;
        Ok(index)
    }

    fn if_n(
        &mut self,
        condition: &Node,
        then: &Node,
        else_body: &Option<Box<Node>>,
        out: &mut Vec<Instr>,
    ) -> (r: Result<(), Error>)
        ensures
            emitted(
                r,
                lower::lower(
                    SpecNode::If(Box::new(condition@), Box::new(then@), boxed_model(*else_body)),
                    old(self)@,
                ),
                old(out)@,
                final(out)@,
                final(self)@,
            ),
            old(self)@ <= final(self)@,
        decreases size(condition@) + size(then@) + option_size(boxed_model(*else_body)), 1int,
    {
        let block_index: usize = match self.fresh() {
            Ok(index) => index,
            Err(e) => {
                return Err(e);
            },
        };
        let end = Label { kind: LabelKind::End, index: block_index };
        match self.node(condition, out) {
            Ok(()) => {},
            Err(e) => {
                return Err(e);
            },
        }
        emit(out, Instr::PopRax);
        emit(out, Instr::CompareZero);
        match else_body {
            Some(else_body) => {
                let other = Label { kind: LabelKind::Else, index: block_index };
                emit(out, Instr::JumpEqual(other));
                match self.node(then, out) {
                    Ok(()) => {},
                    Err(e) => {
                        return Err(e);
                    },
                }
                emit(out, Instr::Jump(end));
                emit(out, Instr::Place(other));
                match self.node(else_body, out) {
                    Ok(()) => {},
                    Err(e) => {
                        return Err(e);
                    },
                }
                emit(out, Instr::Place(end));
                proof {
                    let rule = lower::lower(
                        SpecNode::If(
                            Box::new(condition@),
                            Box::new(then@),
                            Some(Box::new(else_body@)),
                        ),
                        old(self)@,
                    );
                    assert(out@ =~= old(out)@ + rule.unwrap().code);
                }
            },
            None => {
                emit(out, Instr::JumpEqual(end));
                match self.node(then, out) {
                    Ok(()) => {},
                    Err(e) => {
                        return Err(e);
                    },
                }
                emit(out, Instr::Place(end));
                proof {
                    let rule = lower::lower(
                        SpecNode::If(Box::new(condition@), Box::new(then@), None),
                        old(self)@,
                    );
                    assert(out@ =~= old(out)@ + rule.unwrap().code);
                }
            },
        }
        Ok(())
    }

    fn while_n(&mut self, condition: &Node, body: &Node, out: &mut Vec<Instr>) -> (r: Result<
        (),
        Error,
    >)
        ensures
            emitted(
                r,
                lower::lower(SpecNode::While(Box::new(condition@), Box::new(body@)), old(self)@),
                old(out)@,
                final(out)@,
                final(self)@,
            ),
            old(self)@ <= final(self)@,
        decreases size(condition@) + size(body@), 1int,
    {
        let block_index: usize = match self.fresh() {
            Ok(index) => index,
            Err(e) => {
                return Err(e);
            },
        };
        let begin = Label { kind: LabelKind::Begin, index: block_index };
        let end = Label { kind: LabelKind::End, index: block_index };
        emit(out, Instr::Place(begin));
        match self.node(condition, out) {
            Ok(()) => {},
            Err(e) => {
                return Err(e);
            },
        }
        emit(out, Instr::PopRax);
        emit(out, Instr::CompareZero);
        emit(out, Instr::JumpEqual(end));
        match self.node(body, out) {
            Ok(()) => {},
            Err(e) => {
                return Err(e);
            },
        }
        emit(out, Instr::Jump(begin));
        emit(out, Instr::Place(end));
        proof {
            let rule = lower::lower(
                SpecNode::While(Box::new(condition@), Box::new(body@)),
                old(self)@,
            );
            assert(out@ =~= old(out)@ + rule.unwrap().code);
        }
        Ok(())
    }

    /// The code of a clause of a `for` header: nothing where it is absent.
    fn clause(&mut self, clause: &Option<Box<Node>>, out: &mut Vec<Instr>) -> (r: Result<
        (),
        Error,
    >)
        ensures
            emitted(
                r,
                lower::lower_option(boxed_model(*clause), old(self)@),
                old(out)@,
                final(out)@,
                final(self)@,
            ),
            old(self)@ <= final(self)@,
        decreases option_size(boxed_model(*clause)), 1int,
    {
        match clause {
            Some(cdn) => self.node(cdn, out),
            None => {
                assert(out@ =~= old(out)@ + Seq::<Instr>::empty());
                Ok(())
            },
        }
    }

    fn for_n(
        &mut self,
        condition1: &Option<Box<Node>>,
        condition2: &Option<Box<Node>>,
        condition3: &Option<Box<Node>>,
        body: &Node,
        out: &mut Vec<Instr>,
    ) -> (r: Result<(), Error>)
        ensures
            emitted(
                r,
                lower::lower(
                    SpecNode::For(
                        boxed_model(*condition1),
                        boxed_model(*condition2),
                        boxed_model(*condition3),
                        Box::new(body@),
                    ),
                    old(self)@,
                ),
                old(out)@,
                final(out)@,
                final(self)@,
            ),
            old(self)@ <= final(self)@,
        decreases
                option_size(boxed_model(*condition1)) + option_size(boxed_model(*condition2))
                    + option_size(boxed_model(*condition3)) + size(body@),
                3int,
    {
        let block_index: usize = match self.fresh() {
            Ok(index) => index,
            Err(e) => {
                return Err(e);
            },
        };
        let begin = Label { kind: LabelKind::Begin, index: block_index };
        let end = Label { kind: LabelKind::End, index: block_index };
        match self.clause(condition1, out) {
            Ok(()) => {},
            Err(e) => {
                return Err(e);
            },
        }
        emit(out, Instr::Place(begin));
        match self.clause(condition2, out) {
            Ok(()) => {},
            Err(e) => {
                return Err(e);
            },
        }
        if condition2.is_some() {
            emit(out, Instr::PopRax);
            emit(out, Instr::CompareZero);
            emit(out, Instr::JumpEqual(end));
        }
        match self.clause(condition3, out) {
            Ok(()) => {},
            Err(e) => {
                return Err(e);
            },
        }
        match self.node(body, out) {
            Ok(()) => {},
            Err(e) => {
                return Err(e);
            },
        }
        emit(out, Instr::Jump(begin));
        emit(out, Instr::Place(end));
        proof {
            let rule = lower::lower(
                SpecNode::For(
                    boxed_model(*condition1),
                    boxed_model(*condition2),
                    boxed_model(*condition3),
                    Box::new(body@),
                ),
                old(self)@,
            );
            assert(out@ =~= old(out)@ + rule.unwrap().code);
        }
        Ok(())
    }

    /// Pushes the address of the variable at `offset`.
    fn definition_variable(&mut self, offset: usize, out: &mut Vec<Instr>)
        ensures
            final(out)@ == old(out)@ + lower::address(offset),
            final(self)@ == old(self)@,
    {
        emit(out, Instr::MovRaxRbp);
        emit(out, Instr::SubRaxImm(offset));
        emit(out, Instr::PushRax);
        assert(out@ =~= old(out)@ + lower::address(offset));
    }

    /// Pushes the value of the variable at `offset`.
    fn local_val(&mut self, offset: usize, out: &mut Vec<Instr>)
        ensures
            final(out)@ == old(out)@ + (lower::address(offset) + lower::load()),
            final(self)@ == old(self)@,
    {
        self.definition_variable(offset, out);
        emit(out, Instr::PopRax);
        emit(out, Instr::LoadRax);
        emit(out, Instr::PushRax);
        assert(out@ =~= old(out)@ + (lower::address(offset) + lower::load()));
    }

    fn assign(&mut self, left: &Node, right: &Node, out: &mut Vec<Instr>) -> (r: Result<
        (),
        Error,
    >)
        ensures
            emitted(
                r,
                lower::lower(SpecNode::Assign(Box::new(left@), Box::new(right@)), old(self)@),
                old(out)@,
                final(out)@,
                final(self)@,
            ),
            old(self)@ <= final(self)@,
        decreases size(left@) + size(right@), 1int,
    {
        match left {
            Node::LocalVariable(_, offset) => {
                self.definition_variable(*offset, out);
            },
            _ => {
                return Err(Error::AssignTarget);
            },
        }
        match self.node(right, out) {
            Ok(()) => {},
            Err(e) => {
                return Err(e);
            },
        }
        emit(out, Instr::PopRdi);
        emit(out, Instr::PopRax);
        emit(out, Instr::StoreRdi);
        emit(out, Instr::PushRdi);
        proof {
            let rule = lower::lower(
                SpecNode::Assign(Box::new(left@), Box::new(right@)),
                old(self)@,
            );
            assert(out@ =~= old(out)@ + rule.unwrap().code);
        }
        Ok(())
    }

    fn return_n(&mut self, n: &Node, out: &mut Vec<Instr>) -> (r: Result<(), Error>)
        ensures
            emitted(
                r,
                lower::lower(SpecNode::Return(Box::new(n@)), old(self)@),
                old(out)@,
                final(out)@,
                final(self)@,
            ),
            old(self)@ <= final(self)@,
        decreases size(n@), 1int,
    {
        match self.node(n, out) {
            Ok(()) => {},
            Err(e) => {
                return Err(e);
            },
        }
        emit(out, Instr::PopRax);
        emit(out, Instr::MovRspRbp);
        emit(out, Instr::PopRbp);
        emit(out, Instr::Ret);
        proof {
            let rule = lower::lower(SpecNode::Return(Box::new(n@)), old(self)@);
            assert(out@ =~= old(out)@ + rule.unwrap().code);
        }
        Ok(())
    }

    /// The code of both operands, and the pops that bring the right one
    /// into `rdi` and the left one into `rax`.
    fn operands(&mut self, left: &Node, right: &Node, out: &mut Vec<Instr>) -> (r: Result<
        (),
        Error,
    >)
        ensures
            emitted(
                r,
                both(left@, right@, old(self)@, lower::operands()),
                old(out)@,
                final(out)@,
                final(self)@,
            ),
            old(self)@ <= final(self)@,
        decreases size(left@) + size(right@), 1int,
    {
        match self.node(left, out) {
            Ok(()) => {},
            Err(e) => {
                return Err(e);
            },
        }
        match self.node(right, out) {
            Ok(()) => {},
            Err(e) => {
                return Err(e);
            },
        }
        emit(out, Instr::PopRdi);
        emit(out, Instr::PopRax);
        proof {
            let rule = both(left@, right@, old(self)@, lower::operands());
            assert(out@ =~= old(out)@ + rule.unwrap().code);
        }
        Ok(())
    }

    /// The code of a comparison that sets its result by `set`.
    fn comparison(&mut self, left: &Node, right: &Node, set: Instr, out: &mut Vec<Instr>) -> (r:
        Result<(), Error>)
        ensures
            emitted(
                r,
                both(left@, right@, old(self)@, lower::comparison(set)),
                old(out)@,
                final(out)@,
                final(self)@,
            ),
            old(self)@ <= final(self)@,
        decreases size(left@) + size(right@), 2int,
    {
        match self.operands(left, right, out) {
            Ok(()) => {},
            Err(e) => {
                return Err(e);
            },
        }
        emit(out, Instr::Compare);
        emit(out, set);
        emit(out, Instr::ZeroExtend);
        emit(out, Instr::PushRax);
        proof {
            let rule = both(left@, right@, old(self)@, lower::comparison(set));
            assert(out@ =~= old(out)@ + rule.unwrap().code);
        }
        Ok(())
    }

    /// The code of an operation with the one instruction `op`.
    fn arithmetic(&mut self, left: &Node, right: &Node, op: Instr, out: &mut Vec<Instr>) -> (r:
        Result<(), Error>)
        ensures
            emitted(
                r,
                both(left@, right@, old(self)@, lower::arithmetic(op)),
                old(out)@,
                final(out)@,
                final(self)@,
            ),
            old(self)@ <= final(self)@,
        decreases size(left@) + size(right@), 2int,
    {
        match self.operands(left, right, out) {
            Ok(()) => {},
            Err(e) => {
                return Err(e);
            },
        }
        emit(out, op);
        emit(out, Instr::PushRax);
        proof {
            let rule = both(left@, right@, old(self)@, lower::arithmetic(op));
            assert(out@ =~= old(out)@ + rule.unwrap().code);
        }
        Ok(())
    }

    fn equal(&mut self, left: &Node, right: &Node, out: &mut Vec<Instr>) -> (r: Result<
        (),
        Error,
    >)
        ensures
            emitted(
                r,
                lower::lower(SpecNode::Equal(Box::new(left@), Box::new(right@)), old(self)@),
                old(out)@,
                final(out)@,
                final(self)@,
            ),
            old(self)@ <= final(self)@,
        decreases size(left@) + size(right@), 3int,
    {
        self.comparison(left, right, Instr::SetEqual, out)
    }

    fn unequal(&mut self, left: &Node, right: &Node, out: &mut Vec<Instr>) -> (r: Result<
        (),
        Error,
    >)
        ensures
            emitted(
                r,
                lower::lower(SpecNode::UnEqual(Box::new(left@), Box::new(right@)), old(self)@),
                old(out)@,
                final(out)@,
                final(self)@,
            ),
            old(self)@ <= final(self)@,
        decreases size(left@) + size(right@), 3int,
    {
        self.comparison(left, right, Instr::SetNotEqual, out)
    }

    fn less(&mut self, left: &Node, right: &Node, out: &mut Vec<Instr>) -> (r: Result<(), Error>)
        ensures
            emitted(
                r,
                lower::lower(SpecNode::Less(Box::new(left@), Box::new(right@)), old(self)@),
                old(out)@,
                final(out)@,
                final(self)@,
            ),
            old(self)@ <= final(self)@,
        decreases size(left@) + size(right@), 3int,
    {
        self.comparison(left, right, Instr::SetLess, out)
    }

    fn less_equal(&mut self, left: &Node, right: &Node, out: &mut Vec<Instr>) -> (r: Result<
        (),
        Error,
    >)
        ensures
            emitted(
                r,
                lower::lower(SpecNode::LessEqual(Box::new(left@), Box::new(right@)), old(self)@),
                old(out)@,
                final(out)@,
                final(self)@,
            ),
            old(self)@ <= final(self)@,
        decreases size(left@) + size(right@), 3int,
    {
        self.comparison(left, right, Instr::SetLessEqual, out)
    }

    fn plus(&mut self, left: &Node, right: &Node, out: &mut Vec<Instr>) -> (r: Result<(), Error>)
        ensures
            emitted(
                r,
                lower::lower(SpecNode::Plus(Box::new(left@), Box::new(right@)), old(self)@),
                old(out)@,
                final(out)@,
                final(self)@,
            ),
            old(self)@ <= final(self)@,
        decreases size(left@) + size(right@), 3int,
    {
        self.arithmetic(left, right, Instr::Add, out)
    }

    fn minus(&mut self, left: &Node, right: &Node, out: &mut Vec<Instr>) -> (r: Result<
        (),
        Error,
    >)
        ensures
            emitted(
                r,
                lower::lower(SpecNode::Minus(Box::new(left@), Box::new(right@)), old(self)@),
                old(out)@,
                final(out)@,
                final(self)@,
            ),
            old(self)@ <= final(self)@,
        decreases size(left@) + size(right@), 3int,
    {
        self.arithmetic(left, right, Instr::Sub, out)
    }

    fn multiple(&mut self, left: &Node, right: &Node, out: &mut Vec<Instr>) -> (r: Result<
        (),
        Error,
    >)
        ensures
            emitted(
                r,
                lower::lower(SpecNode::Multiple(Box::new(left@), Box::new(right@)), old(self)@),
                old(out)@,
                final(out)@,
                final(self)@,
            ),
            old(self)@ <= final(self)@,
        decreases size(left@) + size(right@), 3int,
    {
        self.arithmetic(left, right, Instr::Mul, out)
    }

    fn devide(&mut self, left: &Node, right: &Node, out: &mut Vec<Instr>) -> (r: Result<
        (),
        Error,
    >)
        ensures
            emitted(
                r,
                lower::lower(SpecNode::Devide(Box::new(left@), Box::new(right@)), old(self)@),
                old(out)@,
                final(out)@,
                final(self)@,
            ),
            old(self)@ <= final(self)@,
        decreases size(left@) + size(right@), 3int,
    {
        match self.operands(left, right, out) {
            Ok(()) => {},
            Err(e) => {
                return Err(e);
            },
        }
        emit(out, Instr::SignExtend);
        emit(out, Instr::Div);
        emit(out, Instr::PushRax);
        proof {
            let rule = lower::lower(
                SpecNode::Devide(Box::new(left@), Box::new(right@)),
                old(self)@,
            );
            assert(out@ =~= old(out)@ + rule.unwrap().code);
        }
        Ok(())
    }

    /// The code of the trees of `nodes` in order, each followed by `after`
    /// where there is one.
    fn sequence(&mut self, nodes: &Vec<Node>, after: Option<Instr>, out: &mut Vec<Instr>) -> (r:
        Result<(), Error>)
        ensures
            emitted(
                r,
                lower::lower_all(nodes.deep_view(), old(self)@, following(after)),
                old(out)@,
                final(out)@,
                final(self)@,
            ),
            old(self)@ <= final(self)@,
        decreases crate::parser::node::total_size(nodes.deep_view()), 1int,
    {
        let ghost all = nodes.deep_view();
        let mut k: usize = 0;
        proof {
            assert(all.subrange(0, all.len() as int) =~= all);
            lemma_so_far_nothing(lower::lower_all(all, self@, following(after)));
        }
        while k < nodes.len()
            invariant
                k <= nodes@.len(),
                all == nodes.deep_view(),
                lower::lower_all(all, old(self)@, following(after)) == so_far(
                    out@.subrange(old(out)@.len() as int, out@.len() as int),
                    lower::lower_all(all.subrange(k as int, all.len() as int), self@, following(after)),
                ),
                old(out)@.len() <= out@.len(),
                out@.subrange(0, old(out)@.len() as int) == old(out)@,
                old(self)@ <= self@,
            decreases nodes@.len() - k,
        {
            let ghost done = out@.subrange(old(out)@.len() as int, out@.len() as int);
            let ghost rest = all.subrange(k as int, all.len() as int);
            let ghost start = self@;
            proof {
                lemma_item_size(all, k as int);
                assert(rest[0] == all[k as int]);
                assert(rest.subrange(1, rest.len() as int) =~= all.subrange(
                    k + 1,
                    all.len() as int,
                ));
            }
            match self.node(&nodes[k], out) {
                Ok(()) => {},
                Err(e) => {
                    return Err(e);
                },
            }
            match after {
                Some(i) => {
                    emit(out, i);
                },
                None => {},
            }
            proof {
                let first = lower::lower(all[k as int], start).unwrap();
                let now = out@.subrange(old(out)@.len() as int, out@.len() as int);
                assert(now =~= done + (first.code + following(after)));
                assert(out@.subrange(0, old(out)@.len() as int) =~= old(out)@);
                lemma_so_far_more(
                    done,
                    first.code + following(after),
                    lower::lower_all(
                        all.subrange(k + 1, all.len() as int),
                        self@,
                        following(after),
                    ),
                );
            }
            k += 1;
        }
        proof {
            let done = out@.subrange(old(out)@.len() as int, out@.len() as int);
            assert(done + Seq::<Instr>::empty() =~= done);
            assert(out@ =~= old(out)@ + done);
        }
        Ok(())
    }

    /// The code of one tree.
    fn node(&mut self, n: &Node, out: &mut Vec<Instr>) -> (r: Result<(), Error>)
        ensures
            emitted(r, lower::lower(n@, old(self)@), old(out)@, final(out)@, final(self)@),
            old(self)@ <= final(self)@,
        decreases size(n@), 0int,
    {
        match n {
            Node::Number(v) => {
                emit(out, Instr::PushImm(*v));
                assert(out@ =~= old(out)@ + seq![Instr::PushImm(*v)]);
                Ok(())
            },
            Node::Equal(left, right) => self.equal(left, right, out),
            Node::UnEqual(left, right) => self.unequal(left, right, out),
            Node::Less(left, right) => self.less(left, right, out),
            Node::LessEqual(left, right) => self.less_equal(left, right, out),
            Node::Plus(left, right) => self.plus(left, right, out),
            Node::Minus(left, right) => self.minus(left, right, out),
            Node::Multiple(left, right) => self.multiple(left, right, out),
            Node::Devide(left, right) => self.devide(left, right, out),
            Node::Assign(left, right) => self.assign(left, right, out),
            Node::LocalVariable(_, offset) => {
                self.local_val(*offset, out);
                Ok(())
            },
            Node::Return(n) => self.return_n(n, out),
            Node::Block(nodes) => {
                proof {
                    crate::parser::node::lemma_block_model(*nodes);
                }
                self.sequence(nodes, None, out)
            },
            Node::If(condition, then, else_body) => self.if_n(condition, then, else_body, out),
            Node::While(condition, body) => self.while_n(condition, body, out),
            Node::For(condition1, condition2, condition3, body) => self.for_n(
                condition1,
                condition2,
                condition3,
                body,
                out,
            ),
        }
    }

    /// Saves the caller's frame base and reserves the frame.
    fn prologue(&mut self, out: &mut Vec<Instr>)
        ensures
            final(out)@ == old(out)@ + lower::prologue(),
            final(self)@ == old(self)@,
    {
        emit(out, Instr::PushRbp);
        emit(out, Instr::MovRbpRsp);
        emit(out, Instr::SubRsp(lower::FRAME));
        assert(out@ =~= old(out)@ + lower::prologue());
    }

    /// The instructions of the whole program of `nodes`, or the reason why
    /// it has none.
    pub fn instructions(&mut self, nodes: &Vec<Node>) -> (r: Result<Vec<Instr>, Error>)
        ensures
            match lower::program(nodes.deep_view(), old(self)@) {
                Ok(l) => r matches Ok(code) && code@ == l.code && final(self)@ == l.next,
                Err(e) => r == Err::<Vec<Instr>, Error>(e),
            },
            old(self)@ <= final(self)@,
    {
        let mut out: Vec<Instr> = Vec::new();
        emit(&mut out, Instr::IntelSyntax);
        emit(&mut out, Instr::Global);
        emit(&mut out, Instr::Main);
        self.prologue(&mut out);
        let ghost head = out@;
        assert(head =~= lower::preamble() + lower::prologue());
        match self.sequence(nodes, Some(Instr::PopRax), &mut out) {
            Ok(()) => {},
            Err(e) => {
                return Err(e);
            },
        }
        emit(&mut out, Instr::MovRspRbp);
        emit(&mut out, Instr::PopRbp);
        emit(&mut out, Instr::Ret);
        proof {
            let rule = lower::program(nodes.deep_view(), old(self)@);
            assert(out@ =~= rule.unwrap().code);
        }
        Ok(out)
    }

    /// The assembly text of the whole program of `nodes`, line by line; or
    /// the reason why it has none.
    pub fn gen(&mut self, nodes: Vec<Node>) -> (r: Result<Vec<String>, Error>)
        ensures
            match lower::program(nodes.deep_view(), old(self)@) {
                Ok(l) => r matches Ok(text) && text.deep_view() == instr::render_all(l.code)
                    && final(self)@ == l.next,
                Err(e) => r == Err::<Vec<String>, Error>(e),
            },
            old(self)@ <= final(self)@,
    {
        match self.instructions(&nodes) {
            Ok(code) => Ok(instr::lines(&code)),
            Err(e) => Err(e),
        }
    }
}

/// The instruction that follows each statement, as a sequence.
pub open spec fn following(after: Option<Instr>) -> Seq<Instr> {
    match after {
        Some(i) => seq![i],
        None => Seq::empty(),
    }
}

/// The code emitted so far, followed by what the rest of the trees give.
pub open spec fn so_far(done: Seq<Instr>, rest: Result<Lowered, Error>) -> Result<Lowered, Error> {
    match rest {
        Ok(l) => Ok(Lowered { code: done + l.code, next: l.next }),
        Err(e) => Err(e),
    }
}

proof fn lemma_so_far_nothing(rest: Result<Lowered, Error>)
    ensures
        so_far(Seq::empty(), rest) == rest,
{
    if let Ok(l) = rest {
        assert(Seq::<Instr>::empty() + l.code =~= l.code);
    }
}

proof fn lemma_so_far_more(done: Seq<Instr>, more: Seq<Instr>, rest: Result<Lowered, Error>)
    ensures
        so_far(done, so_far(more, rest)) == so_far(done + more, rest),
{
    if let Ok(l) = rest {
        assert(done + (more + l.code) =~= (done + more) + l.code);
    }
}

/// The assembly text of the whole program of `nodes`, line by line, from a
/// generator that has given out no label; or the reason why it has none.
pub fn codegen(nodes: Vec<Node>) -> (r: Result<Vec<String>, Error>)
    ensures
        match lower::program(nodes.deep_view(), 0) {
            Ok(l) => r matches Ok(text) && text.deep_view() == instr::render_all(l.code),
            Err(e) => r == Err::<Vec<String>, Error>(e),
        },
{
    let mut c = Codegen::new();
    c.gen(nodes)
}

} // verus!
