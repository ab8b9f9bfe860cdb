//! The code of an expression computes its value.
use super::model::Outcome;
use super::model::State;
use super::model::apply;
use super::model::least;
use super::model::modulus;
use super::model::plain;
use super::model::quotient;
use super::model::run;
use super::model::step;
use super::model::straight;
use super::model::word;
use super::model::wrap;
use super::value::Frame;
use super::value::Valued;
use super::value::expressions;
use super::value::fits;
use super::value::in_frame;
use super::value::last_value;
use super::value::result;
use super::value::value;
use crate::codegen::instr::Instr;
use crate::codegen::lower::FRAME;
use crate::codegen::lower::address;
use crate::codegen::lower::division;
use crate::codegen::lower::load;
use crate::codegen::lower::lower;
use crate::codegen::lower::lower_all;
use crate::codegen::lower::operands;
use crate::codegen::lower::operation;
use crate::codegen::lower::preamble;
use crate::codegen::lower::program;
use crate::codegen::lower::prologue;
use crate::codegen::lower::store;
use crate::parser::node::SpecNode;
use crate::parser::node::expression;
use crate::parser::node::size;
use crate::parser::node::total_size;
use vstd::prelude::*;

verus! {

/// A word stays as it is when it is wrapped, and what is wrapped is a word.
pub proof fn lemma_wrap(x: int)
    ensures
        word(wrap(x)),
        word(x) ==> wrap(x) == x,
{
    reveal(wrap);
}

/// What `i` does after what came before, where that did not fault.
pub open spec fn then(before: Option<State>, i: Instr) -> Option<State> {
    match before {
        Some(s) => apply(i, s),
        None => None,
    }
}

/// A sequence of instructions does what its first part does and then what
/// its second part does.
pub proof fn lemma_straight_append(a: Seq<Instr>, b: Seq<Instr>, s: State)
    ensures
        straight(a + b, s) == match straight(a, s) {
            Some(t) => straight(b, t),
            None => None,
        },
    decreases a.len(),
{
    if a.len() == 0 {
        assert(a + b =~= b);
    } else {
        let rest = a.subrange(1, a.len() as int);
        assert((a + b)[0] == a[0]);
        assert((a + b).subrange(1, (a + b).len() as int) =~= rest + b);
        if let Some(t) = apply(a[0], s) {
            lemma_straight_append(rest, b, t);
        }
    }
}

/// One instruction does what it does.
pub proof fn lemma_straight_1(a: Instr, s: State)
    ensures
        straight(seq![a], s) == apply(a, s),
{
    let code = seq![a];
    assert(code.subrange(1, 1) =~= Seq::<Instr>::empty());
    reveal_with_fuel(straight, 2);
}

pub proof fn lemma_straight_2(a: Instr, b: Instr, s: State)
    ensures
        straight(seq![a, b], s) == then(apply(a, s), b),
{
    assert(seq![a, b] =~= seq![a] + seq![b]);
    lemma_straight_append(seq![a], seq![b], s);
    lemma_straight_1(a, s);
    if let Some(t) = apply(a, s) {
        lemma_straight_1(b, t);
    }
}

pub proof fn lemma_straight_3(a: Instr, b: Instr, c: Instr, s: State)
    ensures
        straight(seq![a, b, c], s) == then(then(apply(a, s), b), c),
{
    assert(seq![a, b, c] =~= seq![a, b] + seq![c]);
    lemma_straight_append(seq![a, b], seq![c], s);
    lemma_straight_2(a, b, s);
    if let Some(t) = straight(seq![a, b], s) {
        lemma_straight_1(c, t);
    }
}

pub proof fn lemma_straight_4(a: Instr, b: Instr, c: Instr, d: Instr, s: State)
    ensures
        straight(seq![a, b, c, d], s) == then(then(then(apply(a, s), b), c), d),
{
    assert(seq![a, b, c, d] =~= seq![a, b, c] + seq![d]);
    lemma_straight_append(seq![a, b, c], seq![d], s);
    lemma_straight_3(a, b, c, s);
    if let Some(t) = straight(seq![a, b, c], s) {
        lemma_straight_1(d, t);
    }
}

/// Plain code that stands at a position of the program runs step by step as
/// it does by itself, and leaves the machine just after it.
pub proof fn lemma_run_straight(program: Seq<Instr>, pc: int, code: Seq<Instr>, s: State)
    requires
        0 <= pc,
        pc + code.len() <= program.len(),
        program.subrange(pc, pc + code.len()) == code,
        forall|k: int| 0 <= k < code.len() ==> plain(#[trigger] code[k]),
    ensures
        run(program, pc, s, code.len()) == match straight(code, s) {
            Some(t) => Outcome::Running(pc + code.len(), t),
            None => Outcome::Faulted,
        },
    decreases code.len(),
{
    if code.len() > 0 {
        let rest = code.subrange(1, code.len() as int);
        assert(program[pc] == code[0]);
        assert(plain(code[0]));
        assert(program.subrange(pc + 1, pc + 1 + rest.len()) =~= rest);
        assert forall|k: int| 0 <= k < rest.len() implies plain(#[trigger] rest[k]) by {
            assert(rest[k] == code[k + 1]);
        }
        if let Some(t) = apply(code[0], s) {
            lemma_run_straight(program, pc + 1, rest, t);
        }
    }
}

/// Whether the variables of the frame hold what `frame` says.
pub open spec fn holds(s: State, frame: Frame) -> bool {
    forall|offset: int| in_frame(offset) ==> s.memory[s.rbp - offset] == #[trigger] frame[offset]
}

/// Whether an address lies in the frame of `s`.
pub open spec fn framed(s: State, a: int) -> bool {
    s.rbp - FRAME < a <= s.rbp
}

/// Whether the machine can evaluate an expression of `n` nodes from `s`: the
/// stack lies below the frame, and there is room for `n` more words on it.
pub open spec fn ready(s: State, n: nat) -> bool {
    &&& s.valid()
    &&& s.rsp <= s.rbp - FRAME
    &&& least() <= s.rsp - 8 * n
}

/// Whether `t` is `s` after an expression of value `v`: the value lies on
/// top of the stack, one word below the old top; the variables are those
/// of `v`; and nothing else at or above the old top has changed.
pub open spec fn evaluated(s: State, t: State, v: Valued) -> bool {
    &&& t.valid()
    &&& t.rbp == s.rbp
    &&& t.rsp == s.rsp - 8
    &&& t.top() == v.value
    &&& holds(t, v.frame)
    &&& forall|a: int| a >= s.rsp && !framed(s, a) ==> #[trigger] t.memory[a] == s.memory[a]
}

/// The code of an expression has no jump and no return.
pub proof fn lemma_expression_plain(e: SpecNode, next: usize)
    requires
        expression(e),
    ensures
        lower(e, next) matches Ok(l) && l.next == next && forall|k: int|
            0 <= k < l.code.len() ==> plain(#[trigger] l.code[k]),
    decreases e,
{
    match e {
        SpecNode::Equal(l, r)
        | SpecNode::UnEqual(l, r)
        | SpecNode::Less(l, r)
        | SpecNode::LessEqual(l, r)
        | SpecNode::Plus(l, r)
        | SpecNode::Minus(l, r)
        | SpecNode::Multiple(l, r)
        | SpecNode::Devide(l, r) => {
            lemma_expression_plain(*l, next);
            lemma_expression_plain(*r, next);
        },
        SpecNode::Assign(target, v) => {
            lemma_expression_plain(*v, next);
        },
        _ => {},
    }
}

/// After a push of a word onto a stack with room for it, the word lies on
/// top, one word below the old top, and nothing else has changed.
pub proof fn lemma_push(s: State, v: int)
    requires
        s.valid(),
        word(v),
        least() <= s.rsp - 8,
    ensures
        s.push(v).valid(),
        s.push(v).rsp == s.rsp - 8,
        s.push(v).top() == v,
        forall|a: int| a != s.rsp - 8 ==> s.push(v).memory[a] == s.memory[a],
{
    lemma_wrap(s.rsp - 8);
    let t = s.push(v);
    assert forall|a: int| word(#[trigger] t.memory[a]) by {
        if a != s.rsp - 8 {
            assert(word(s.memory[a]));
        }
    }
}

/// After a pop from a stack that does not end at the top of memory, the
/// stack is one word shorter, and nothing else has changed.
pub proof fn lemma_pop(s: State)
    requires
        s.valid(),
        s.rsp + 8 < -least(),
    ensures
        s.pop().valid(),
        word(s.top()),
        s.pop().rsp == s.rsp + 8,
        s.pop().memory == s.memory,
{
    lemma_wrap(s.rsp + 8);
}

/// The code that pushes the address of a variable of the frame.
proof fn lemma_address(offset: usize, s: State)
    requires
        in_frame(offset as int),
        ready(s, 1),
    ensures
        straight(address(offset), s) matches Some(t) && {
            &&& t.valid()
            &&& t.rbp == s.rbp
            &&& t.rsp == s.rsp - 8
            &&& t.top() == s.rbp - offset
            &&& forall|a: int| a != s.rsp - 8 ==> t.memory[a] == s.memory[a]
        },
{
    let a = s.rbp - offset;
    lemma_straight_3(Instr::MovRaxRbp, Instr::SubRaxImm(offset), Instr::PushRax, s);
    let s1 = State { rax: s.rbp, ..s };
    lemma_wrap(a);
    let s2 = State { rax: a, flags: None, ..s1 };
    assert(apply(Instr::SubRaxImm(offset), s1) == Some(s2));
    lemma_push(s2, a);
}

/// The code that replaces an address on top of the stack by the word that
/// it holds.
proof fn lemma_load(s: State)
    requires
        s.valid(),
        s.rsp + 8 < -least(),
        s.top() != s.rsp,
    ensures
        straight(load(), s) matches Some(t) && {
            &&& t.valid()
            &&& t.rbp == s.rbp
            &&& t.rsp == s.rsp
            &&& t.top() == s.memory[s.top()]
            &&& forall|a: int| a != s.rsp ==> t.memory[a] == s.memory[a]
        },
{
    lemma_straight_3(Instr::PopRax, Instr::LoadRax, Instr::PushRax, s);
    lemma_pop(s);
    let s1 = State { rax: s.top(), ..s.pop() };
    let s2 = State { rax: s1.memory[s1.rax], ..s1 };
    assert(word(s1.memory[s1.rax]));
    lemma_push(s2, s2.rax);
}

/// The code of a number or a variable puts its value on the stack.
proof fn lemma_leaf_code(e: SpecNode, next: usize, s: State, frame: Frame)
    requires
        e is Number || e is LocalVariable,
        fits(e),
        ready(s, 1),
        holds(s, frame),
    ensures
        lower(e, next) matches Ok(l) && straight(l.code, s) matches Some(t) && evaluated(
            s,
            t,
            value(e, frame).unwrap(),
        ),
{
    match e {
        SpecNode::Number(v) => {
            lemma_straight_1(Instr::PushImm(v), s);
            lemma_push(s, v as int);
        },
        SpecNode::LocalVariable(_, offset) => {
            lemma_straight_append(address(offset), load(), s);
            lemma_address(offset, s);
            let s1 = straight(address(offset), s).unwrap();
            lemma_load(s1);
            assert(in_frame(offset as int));
            assert(s.memory[s.rbp - offset] == frame[offset as int]);
        },
        _ => {},
    }
}

/// The two pops that bring the second operand into `rdi` and the first one
/// into `rax`.
proof fn lemma_operands(s: State)
    requires
        s.valid(),
        s.rsp + 16 < -least(),
    ensures
        straight(operands(), s) matches Some(t) && {
            &&& t.valid()
            &&& t.rbp == s.rbp
            &&& t.rsp == s.rsp + 16
            &&& t.rdi == s.top()
            &&& t.rax == s.memory[s.rsp + 8]
            &&& t.memory == s.memory
        },
{
    lemma_straight_2(Instr::PopRdi, Instr::PopRax, s);
    lemma_pop(s);
    let s1 = State { rdi: s.top(), ..s.pop() };
    lemma_pop(s1);
}

/// The code that compares `rax` with `rdi` and pushes 1 or 0.
proof fn lemma_compare(e: SpecNode, s: State)
    requires
        e is Equal || e is UnEqual || e is Less || e is LessEqual,
        s.valid(),
        least() <= s.rsp - 8,
    ensures
        straight(operation(e).subrange(2, 6), s) matches Some(t) && {
            &&& t.valid()
            &&& t.rbp == s.rbp
            &&& t.rsp == s.rsp - 8
            &&& Some(t.top()) == result(e, s.rax, s.rdi)
            &&& forall|x: int| x != s.rsp - 8 ==> t.memory[x] == s.memory[x]
        },
{
    let set = match e {
        SpecNode::Equal(_, _) => Instr::SetEqual,
        SpecNode::UnEqual(_, _) => Instr::SetNotEqual,
        SpecNode::Less(_, _) => Instr::SetLess,
        _ => Instr::SetLessEqual,
    };
    assert(operation(e).subrange(2, 6) =~= seq![
        Instr::Compare,
        set,
        Instr::ZeroExtend,
        Instr::PushRax,
    ]);
    lemma_straight_4(Instr::Compare, set, Instr::ZeroExtend, Instr::PushRax, s);
    let v = result(e, s.rax, s.rdi).unwrap();
    let s1 = State { flags: Some((s.rax, s.rdi)), ..s };
    let s2 = s1.set_low(v == 1);
    assert(apply(set, s1) == Some(s2));
    let s3 = State { rax: s2.rax % 256, ..s2 };
    assert(s3.rax == v);
    lemma_push(s3, v);
}

/// The code that applies an operation to `rax` and `rdi` and pushes the
/// result.
proof fn lemma_calculate(e: SpecNode, s: State)
    requires
        e is Plus || e is Minus || e is Multiple,
        s.valid(),
        least() <= s.rsp - 8,
    ensures
        straight(operation(e).subrange(2, 4), s) matches Some(t) && {
            &&& t.valid()
            &&& t.rbp == s.rbp
            &&& t.rsp == s.rsp - 8
            &&& Some(t.top()) == result(e, s.rax, s.rdi)
            &&& forall|x: int| x != s.rsp - 8 ==> t.memory[x] == s.memory[x]
        },
{
    let op = match e {
        SpecNode::Plus(_, _) => Instr::Add,
        SpecNode::Minus(_, _) => Instr::Sub,
        _ => Instr::Mul,
    };
    assert(operation(e).subrange(2, 4) =~= seq![op, Instr::PushRax]);
    lemma_straight_2(op, Instr::PushRax, s);
    let v = result(e, s.rax, s.rdi).unwrap();
    lemma_wrap(s.rax + s.rdi);
    lemma_wrap(s.rax - s.rdi);
    lemma_wrap(s.rax * s.rdi);
    let s1 = State { rax: v, flags: None, ..s };
    assert(apply(op, s) == Some(s1));
    lemma_push(s1, v);
}

/// The code that divides `rax` by `rdi` and pushes the quotient.
proof fn lemma_divide(e: SpecNode, s: State)
    requires
        e is Devide,
        s.valid(),
        least() <= s.rsp - 8,
        result(e, s.rax, s.rdi) is Some,
    ensures
        straight(operation(e).subrange(2, 5), s) matches Some(t) && {
            &&& t.valid()
            &&& t.rbp == s.rbp
            &&& t.rsp == s.rsp - 8
            &&& Some(t.top()) == result(e, s.rax, s.rdi)
            &&& forall|x: int| x != s.rsp - 8 ==> t.memory[x] == s.memory[x]
        },
{
    let a = s.rax;
    let b = s.rdi;
    assert(operation(e).subrange(2, 5) =~= seq![Instr::SignExtend, Instr::Div, Instr::PushRax]);
    lemma_straight_3(Instr::SignExtend, Instr::Div, Instr::PushRax, s);
    let s1 = State {
        rdx: if a < 0 {
            -1
        } else {
            0
        },
        ..s
    };
    assert(s1.rdx * modulus() + s1.rax % modulus() == a);
    let v = quotient(a, b);
    let s2 = State { rax: v, rdx: a - v * b, flags: None, ..s1 };
    assert(apply(Instr::Div, s1) == Some(s2));
    lemma_remainder(a, b);
    lemma_push(s2, v);
}

/// What the code after the operands of an operation does: from the value
/// `a` of the first operand under the value `b` of the second one on top
/// of the stack, it leaves the result in their place.
proof fn lemma_operation_code(e: SpecNode, s: State, a: int, b: int)
    requires
        e is Equal || e is UnEqual || e is Less || e is LessEqual || e is Plus || e is Minus
            || e is Multiple || e is Devide,
        s.valid(),
        s.rsp + 16 < -least(),
        s.top() == b,
        s.memory[s.rsp + 8] == a,
        result(e, a, b) is Some,
    ensures
        straight(operation(e), s) matches Some(t) && {
            &&& t.valid()
            &&& t.rbp == s.rbp
            &&& t.rsp == s.rsp + 8
            &&& t.top() == result(e, a, b).unwrap()
            &&& forall|x: int| x != s.rsp + 8 ==> t.memory[x] == s.memory[x]
        },
{
    let code = operation(e);
    let tail = code.subrange(2, code.len() as int);
    assert(code =~= operands() + tail);
    lemma_straight_append(operands(), tail, s);
    lemma_operands(s);
    let s1 = straight(operands(), s).unwrap();
    match e {
        SpecNode::Equal(_, _)
        | SpecNode::UnEqual(_, _)
        | SpecNode::Less(_, _)
        | SpecNode::LessEqual(_, _) => {
            lemma_compare(e, s1);
        },
        SpecNode::Plus(_, _) | SpecNode::Minus(_, _) | SpecNode::Multiple(_, _) => {
            lemma_calculate(e, s1);
        },
        _ => {
            lemma_divide(e, s1);
        },
    }
}

/// What a division rounded toward zero leaves is smaller than the divisor.
proof fn lemma_remainder(a: int, b: int)
    requires
        word(a),
        word(b),
        b != 0,
    ensures
        word(a - quotient(a, b) * b),
{
    let q = quotient(a, b);
    if a >= 0 && b > 0 {
        assert(a - (a / b) * b == a % b) by (nonlinear_arith)
            requires
                b != 0,
        ;
        assert(0 <= a % b < b);
    } else if a < 0 && b > 0 {
        let n = -a;
        assert(n - (n / b) * b == n % b) by (nonlinear_arith)
            requires
                b != 0,
        ;
        assert(0 <= n % b < b);
        assert(a - (-(n / b)) * b == -(n - (n / b) * b)) by (nonlinear_arith)
            requires
                n == -a,
        ;
    } else if a >= 0 {
        let m = -b;
        assert(a - (a / m) * m == a % m) by (nonlinear_arith)
            requires
                m != 0,
        ;
        assert(0 <= a % m < m);
        assert(a - (-(a / m)) * b == a - (a / m) * m) by (nonlinear_arith)
            requires
                m == -b,
        ;
    } else {
        let n = -a;
        let m = -b;
        assert(n - (n / m) * m == n % m) by (nonlinear_arith)
            requires
                m != 0,
        ;
        assert(0 <= n % m < m);
        assert(a - (n / m) * b == -(n - (n / m) * m)) by (nonlinear_arith)
            requires
                n == -a,
                m == -b,
        ;
    }
}

/// The code that stores the word on top of the stack at the address under
/// it and leaves the word in their place.
proof fn lemma_store(s: State)
    requires
        s.valid(),
        s.rsp + 16 < -least(),
        s.memory[s.rsp + 8] != s.rsp + 8,
    ensures
        straight(store(), s) matches Some(t) && {
            &&& t.valid()
            &&& t.rbp == s.rbp
            &&& t.rsp == s.rsp + 8
            &&& t.top() == s.top()
            &&& t.memory[s.memory[s.rsp + 8]] == s.top()
            &&& forall|a: int|
                a != s.rsp + 8 && a != s.memory[s.rsp + 8] ==> t.memory[a] == s.memory[a]
        },
{
    lemma_straight_4(Instr::PopRdi, Instr::PopRax, Instr::StoreRdi, Instr::PushRdi, s);
    lemma_pop(s);
    let s1 = State { rdi: s.top(), ..s.pop() };
    lemma_pop(s1);
    let s2 = State { rax: s1.top(), ..s1.pop() };
    let s3 = State { memory: s2.memory.insert(s2.rax, s2.rdi), ..s2 };
    assert(s3.valid()) by {
        assert forall|a: int| word(#[trigger] s3.memory[a]) by {
            if a != s2.rax {
                assert(word(s2.memory[a]));
            }
        }
    }
    lemma_push(s3, s3.rdi);
}

/// The code of an expression puts its value on the stack and leaves the
/// variables as the expression leaves them.
pub proof fn lemma_expression_code(e: SpecNode, next: usize, s: State, frame: Frame)
    requires
        expression(e),
        fits(e),
        ready(s, size(e)),
        holds(s, frame),
        value(e, frame) is Some,
    ensures
        lower(e, next) matches Ok(l) && straight(l.code, s) matches Some(t) && evaluated(
            s,
            t,
            value(e, frame).unwrap(),
        ),
    decreases e,
{
    match e {
        SpecNode::Number(_) | SpecNode::LocalVariable(_, _) => {
            assert(size(e) == 1);
            lemma_leaf_code(e, next, s, frame);
        },
        SpecNode::Equal(l, r)
        | SpecNode::UnEqual(l, r)
        | SpecNode::Less(l, r)
        | SpecNode::LessEqual(l, r)
        | SpecNode::Plus(l, r)
        | SpecNode::Minus(l, r)
        | SpecNode::Multiple(l, r)
        | SpecNode::Devide(l, r) => {
            lemma_expression_plain(*l, next);
            lemma_expression_plain(*r, next);
            let first = lower(*l, next).unwrap().code;
            let second = lower(*r, next).unwrap().code;
            let a = value(*l, frame).unwrap();
            let b = value(*r, a.frame).unwrap();
            lemma_expression_code(*l, next, s, frame);
            let t1 = straight(first, s).unwrap();
            lemma_expression_code(*r, next, t1, a.frame);
            let t2 = straight(second, t1).unwrap();
            assert(t2.memory[t1.rsp] == a.value);
            lemma_operation_code(e, t2, a.value, b.value);
            let t3 = straight(operation(e), t2).unwrap();
            lemma_straight_append(first, second, s);
            lemma_straight_append(first + second, operation(e), s);
            assert(holds(t3, b.frame));
        },
        SpecNode::Assign(target, v) => {
            let offset = target->LocalVariable_1;
            assert(fits(*target));
            lemma_expression_plain(*v, next);
            let code = lower(*v, next).unwrap().code;
            let x = value(*v, frame).unwrap();
            lemma_address(offset, s);
            let t1 = straight(address(offset), s).unwrap();
            assert(holds(t1, frame));
            lemma_expression_code(*v, next, t1, frame);
            let t2 = straight(code, t1).unwrap();
            assert(t2.memory[t1.rsp] == s.rbp - offset);
            lemma_store(t2);
            let t3 = straight(store(), t2).unwrap();
            lemma_straight_append(address(offset), code, s);
            lemma_straight_append(address(offset) + code, store(), s);
            let after = x.frame.insert(offset as int, x.value);
            assert(holds(t3, after)) by {
                assert forall|o: int| in_frame(o) implies t3.memory[t3.rbp - o] == #[trigger] after[o] by {
                    if o != offset {
                        assert(t2.memory[t2.rbp - o] == x.frame[o]);
                    }
                }
            }
        },
        _ => {},
    }
}

/// A run of `a + b` steps is a run of `a` steps and then one of `b` steps.
pub proof fn lemma_run_more(program: Seq<Instr>, pc: int, s: State, a: nat, b: nat)
    ensures
        run(program, pc, s, a + b) == match run(program, pc, s, a) {
            Outcome::Running(next, t) => run(program, next, t, b),
            other => other,
        },
    decreases a,
{
    if a > 0 {
        if let Outcome::Running(next, t) = step(program, pc, s) {
            lemma_run_more(program, next, t, (a - 1) as nat, b);
        }
    }
}

/// The variables as the prologue leaves them: the slot at offset 0 holds the
/// caller's frame base, and every other slot what the memory below the
/// stack held before.
pub open spec fn entry_frame(s: State) -> Frame {
    Map::new(
        |offset: int| in_frame(offset),
        |offset: int|
            if offset == 0 {
                s.rbp
            } else {
                s.memory[s.rsp - 8 - offset]
            },
    )
}

/// The preamble and the prologue set up the frame below the stack.
proof fn lemma_entry(s: State)
    requires
        s.valid(),
        least() <= s.rsp - 8 - FRAME,
    ensures
        straight(preamble() + prologue(), s) matches Some(t) && {
            &&& t.valid()
            &&& t.rbp == s.rsp - 8
            &&& t.rsp == t.rbp - FRAME
            &&& t.rax == s.rax
            &&& holds(t, entry_frame(s))
        },
{
    lemma_straight_append(preamble(), prologue(), s);
    lemma_straight_3(Instr::IntelSyntax, Instr::Global, Instr::Main, s);
    lemma_straight_3(Instr::PushRbp, Instr::MovRbpRsp, Instr::SubRsp(FRAME), s);
    lemma_push(s, s.rbp);
    let s1 = s.push(s.rbp);
    let s2 = State { rbp: s1.rsp, ..s1 };
    lemma_wrap(s2.rsp - FRAME);
    let s3 = State { rsp: s2.rsp - FRAME, flags: None, ..s2 };
    assert(apply(Instr::SubRsp(FRAME), s2) == Some(s3));
}

/// Whether `t` is `s` after a sequence of expression statements with the last
/// value `v`: the value lies in `rax`; the stack is as high as it was; the
/// variables are those of `v`; and nothing else at or above the top of the
/// stack has changed.
pub open spec fn executed(s: State, t: State, v: Valued) -> bool {
    &&& t.valid()
    &&& t.rbp == s.rbp
    &&& t.rsp == s.rsp
    &&& t.rax == v.value
    &&& holds(t, v.frame)
    &&& forall|a: int| a >= s.rsp && !framed(s, a) ==> #[trigger] t.memory[a] == s.memory[a]
}

/// The code of a sequence of expression statements, each followed by a pop,
/// leaves the value of the last one in `rax` and the variables as the
/// statements leave them.
pub proof fn lemma_statements_code(es: Seq<SpecNode>, next: usize, s: State, frame: Frame)
    requires
        expressions(es),
        ready(s, total_size(es)),
        holds(s, frame),
        last_value(es, frame, s.rax) is Some,
    ensures
        lower_all(es, next, seq![Instr::PopRax]) matches Ok(l) && {
            &&& l.next == next
            &&& forall|k: int| 0 <= k < l.code.len() ==> plain(#[trigger] l.code[k])
            &&& straight(l.code, s) matches Some(t) && executed(
                s,
                t,
                last_value(es, frame, s.rax).unwrap(),
            )
        },
    decreases es.len(),
{
    if es.len() == 0 {
    } else {
        let e = es[0];
        let rest = es.subrange(1, es.len() as int);
        assert(expression(e) && fits(e));
        assert forall|k: int| 0 <= k < rest.len() implies expression(#[trigger] rest[k]) && fits(
            rest[k],
        ) by {
            assert(rest[k] == es[k + 1]);
        }
        lemma_expression_plain(e, next);
        let code = lower(e, next).unwrap().code;
        let v = value(e, frame).unwrap();
        lemma_expression_code(e, next, s, frame);
        let t1 = straight(code, s).unwrap();
        lemma_straight_1(Instr::PopRax, t1);
        lemma_pop(t1);
        let t2 = State { rax: t1.top(), ..t1.pop() };
        lemma_straight_append(code, seq![Instr::PopRax], s);
        assert(holds(t2, v.frame));
        lemma_statements_code(rest, next, t2, v.frame);
        let tail = lower_all(rest, next, seq![Instr::PopRax]).unwrap().code;
        lemma_straight_append(code + seq![Instr::PopRax], tail, s);
        let all = code + seq![Instr::PopRax] + tail;
        assert forall|k: int| 0 <= k < all.len() implies plain(#[trigger] all[k]) by {
            if k < code.len() {
                assert(all[k] == code[k]);
            } else if k == code.len() {
            } else {
                assert(all[k] == tail[k - code.len() - 1]);
            }
        }
    }
}

/// The end of a program restores the stack and keeps what `rax` holds.
proof fn lemma_epilogue(s: State)
    requires
        s.valid(),
        s.rbp + 8 < -least(),
    ensures
        straight(seq![Instr::MovRspRbp, Instr::PopRbp], s) matches Some(t) && t.rax == s.rax,
{
    lemma_straight_2(Instr::MovRspRbp, Instr::PopRbp, s);
    let s1 = State { rsp: s.rbp, ..s };
    lemma_pop(s1);
}

/// A program of expression statements returns the value of its last
/// statement.
///
/// The machine starts at the first line in any state with room below the
/// stack pointer for the frame and for one word for each node of the
/// program. The variables lie in the frame and are first read as the
/// prologue leaves them; each statement is evaluated from the variables that
/// the one before it left. No division traps. Then the program, run for as
/// many steps as it has lines, returns the value of the last statement; a
/// program without a statement returns what `rax` held.
pub proof fn theorem_expression_statements(es: Seq<SpecNode>, s: State)
    requires
        expressions(es),
        s.valid(),
        least() <= s.rsp - 8 - FRAME - 8 * total_size(es),
        last_value(es, entry_frame(s), s.rax) is Some,
    ensures
        program(es, 0) matches Ok(l) && run(l.code, 0, s, l.code.len()) == Outcome::Returned(
            last_value(es, entry_frame(s), s.rax).unwrap().value,
        ),
{
    let v = last_value(es, entry_frame(s), s.rax).unwrap();
    let head = preamble() + prologue();
    lemma_entry(s);
    let s1 = straight(head, s).unwrap();
    assert(s1.rax == s.rax);
    lemma_statements_code(es, 0, s1, entry_frame(s));
    let body = lower_all(es, 0, seq![Instr::PopRax]).unwrap().code;
    let s2 = straight(body, s1).unwrap();
    let tail = seq![Instr::MovRspRbp, Instr::PopRbp];
    lemma_epilogue(s2);
    let s3 = straight(tail, s2).unwrap();
    let plain_part = head + body + tail;
    lemma_straight_append(head, body, s);
    lemma_straight_append(head + body, tail, s);
    let whole = program(es, 0).unwrap().code;
    assert(whole =~= plain_part + seq![Instr::Ret]);
    assert(whole.subrange(0, plain_part.len() as int) =~= plain_part);
    assert forall|k: int| 0 <= k < plain_part.len() implies plain(#[trigger] plain_part[k]) by {
        if k < head.len() {
        } else if k < head.len() + body.len() {
            assert(plain_part[k] == body[k - head.len()]);
        } else {
        }
    }
    lemma_run_straight(whole, 0, plain_part, s);
    lemma_run_more(whole, 0, s, plain_part.len(), 1);
    assert(whole[plain_part.len() as int] == Instr::Ret);
    reveal_with_fuel(run, 2);
}

/// The program of one expression statement returns the value of the
/// expression.
///
/// The machine starts at the first line in any state with room below the
/// stack pointer for the frame and for one word for each node of the
/// expression. The variables of the expression lie in the frame and are
/// read as the prologue leaves them. No division in the expression traps.
/// Then the program, run for as many steps as it has lines, returns the
/// value of the expression: the operations applied to 64-bit words, the
/// first operand of each node evaluated before the second.
pub proof fn theorem_expression_statement(e: SpecNode, s: State)
    requires
        expression(e),
        fits(e),
        s.valid(),
        least() <= s.rsp - 8 - FRAME - 8 * size(e),
        value(e, entry_frame(s)) is Some,
    ensures
        program(seq![e], 0) matches Ok(l) && run(l.code, 0, s, l.code.len()) == Outcome::Returned(
            value(e, entry_frame(s)).unwrap().value,
        ),
{
    let one = seq![e];
    assert(one.subrange(1, 1) =~= Seq::<SpecNode>::empty());
    reveal_with_fuel(last_value, 2);
    reveal_with_fuel(total_size, 2);
    theorem_expression_statements(one, s);
}

} // verus!
