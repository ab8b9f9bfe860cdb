//! An interpreter for generated programs: the machine model, run on a
//! window of memory of a chosen size.
use super::model::Outcome;
use super::model::State;
use super::model::apply;
use super::model::plain;
use super::model::quotient;
use super::model::run;
use super::model::step;
use super::model::target;
use super::model::word;
use super::model::wrap;
use super::value::theorem_quotient_truncates;
use crate::codegen::instr::Instr;
use crate::codegen::instr::Label;
use crate::codegen::instr::LabelKind;
use vstd::prelude::*;

verus! {

/// How a run of the interpreter ended.
#[derive(Clone, Copy, Debug, PartialEq, Eq)]
pub enum Stop {
    /// The program has returned the value.
    Returned(i64),
    /// The machine of the model faults.
    Faulted,
    /// The interpreter has given up: the steps allowed were not enough, or
    /// the program reached outside the memory of the interpreter.
    Exhausted,
}

/// The machine of the interpreter. Its memory is the `n` words just below
/// the address 0, the highest one first.
pub struct Runner {
    rax: i64,
    rdi: i64,
    rdx: i64,
    rbp: i64,
    rsp: i64,
    flags: Option<(i64, i64)>,
    memory: Vec<i64>,
}

/// Whether `a` is the address of a word of a memory of `words` words.
pub open spec fn window(words: int, a: int) -> bool {
    a < 0 && a % 8 == 0 && -a <= 8 * words
}

/// The place of the word at the address `a` in the memory.
pub open spec fn slot(a: int) -> int {
    (-a) / 8 - 1
}

/// The word that a memory holds at `a`: zero outside its window.
pub open spec fn cell(memory: Seq<i64>, a: int) -> int {
    if window(memory.len() as int, a) {
        memory[slot(a)] as int
    } else {
        0
    }
}

/// The flags of the model.
pub open spec fn flags_model(flags: Option<(i64, i64)>) -> Option<(int, int)> {
    match flags {
        Some((a, b)) => Some((a as int, b as int)),
        None => None,
    }
}

/// The state in which the interpreter starts: every register and every
/// word of the memory is zero, and the stack starts at the address 0.
pub open spec fn start() -> State {
    State {
        rax: 0,
        rdi: 0,
        rdx: 0,
        rbp: 0,
        rsp: 0,
        flags: None,
        memory: Map::total(|a: int| 0int),
    }
}

impl View for Runner {
    type V = State;

    closed spec fn view(&self) -> State {
        State {
            rax: self.rax as int,
            rdi: self.rdi as int,
            rdx: self.rdx as int,
            rbp: self.rbp as int,
            rsp: self.rsp as int,
            flags: flags_model(self.flags),
            memory: Map::total(|a: int| cell(self.memory@, a)),
        }
    }
}

/// The machine wraps as the processor type does.
proof fn lemma_wrapping(x: i64, y: i64)
    ensures
        wrap(x + y) == x.wrapping_add(y),
        wrap(x - y) == x.wrapping_sub(y),
        wrap(x * y) == x.wrapping_mul(y),
{
    reveal(wrap);
}

fn same_label(a: &Label, b: &Label) -> (r: bool)
    ensures
        r == (*a == *b),
{
    let kinds = match (a.kind, b.kind) {
        (LabelKind::Else, LabelKind::Else) => true,
        (LabelKind::End, LabelKind::End) => true,
        (LabelKind::Begin, LabelKind::Begin) => true,
        _ => false,
    };
    kinds && a.index == b.index
}

/// The position of the first `label:` in the program.
fn find(program: &Vec<Instr>, label: &Label) -> (r: Option<usize>)
    ensures
        match target(program@, *label) {
            Some(k) => r == Some(k as usize) && 0 <= k < program@.len(),
            None => r is None,
        },
{
    let mut k: usize = 0;
    while k < program.len()
        invariant
            k <= program@.len(),
            forall|j: int| 0 <= j < k ==> program@[j] != Instr::Place(*label),
        decreases program@.len() - k,
    {
        match &program[k] {
            Instr::Place(l) => {
                if same_label(l, label) {
                    return Some(k);
                }
            },
            _ => {},
        }
        k += 1;
    }
    None
}

/// Whether the memory of `words` words has every word that the plain
/// instruction `i` reads or writes in the state `s`.
pub open spec fn reaches(i: Instr, s: State, words: int) -> bool {
    match i {
        Instr::PushRbp | Instr::PushImm(_) | Instr::PushRax | Instr::PushRdi => window(
            words,
            wrap(s.rsp - 8),
        ),
        Instr::PopRax | Instr::PopRdi | Instr::PopRbp => window(words, s.rsp),
        Instr::LoadRax | Instr::StoreRdi => window(words, s.rax),
        _ => true,
    }
}

/// Whether the interpreter cannot go on at the position `pc`: the
/// instruction there reaches outside its memory.
pub open spec fn stuck(program: Seq<Instr>, pc: int, s: State, words: int) -> bool {
    0 <= pc < program.len() && plain(program[pc]) && !reaches(program[pc], s, words)
}

/// What the interpreter comes to from the position `pc` in the state `s`
/// with at most `steps` steps on a memory of `words` words: it runs the
/// machine of the model step by step, and is still running where the steps
/// are used up or an instruction reaches outside the memory.
pub open spec fn interpret(program: Seq<Instr>, pc: int, s: State, steps: nat, words: int) -> Outcome
    decreases steps,
{
    if steps == 0 || stuck(program, pc, s, words) {
        Outcome::Running(pc, s)
    } else {
        match step(program, pc, s) {
            Outcome::Running(next, t) => interpret(program, next, t, (steps - 1) as nat, words),
            other => other,
        }
    }
}

/// Whether the interpreter's answer is what the run has come to: the value
/// returned, a fault, or that it has given up where the run is not over.
pub open spec fn answers(r: Stop, o: Outcome) -> bool {
    match o {
        Outcome::Returned(v) => r matches Stop::Returned(x) && x == v,
        Outcome::Faulted => r == Stop::Faulted,
        Outcome::Running(_, _) => r == Stop::Exhausted,
    }
}

/// The difference of a word and an unsigned word, wrapped.
fn wrapping_sub_wide(x: i64, n: usize) -> (r: i64)
    ensures
        r == wrap(x - n),
{
    let wide: i128 = x as i128 - n as i128;
    proof {
        reveal(wrap);
    }
    if wide < i64::MIN as i128 {
        (wide + 0x1_0000_0000_0000_0000) as i64
    } else {
        wide as i64
    }
}

/// The product of two words is far from the ends of the wide integers.
proof fn lemma_product_bound(q: int, d: int)
    requires
        word(q),
        word(d),
    ensures
        -0x4000_0000_0000_0000_0000_0000_0000_0000 <= q * d
            <= 0x4000_0000_0000_0000_0000_0000_0000_0000,
{
    assert(-0x4000_0000_0000_0000_0000_0000_0000_0000 <= q * d
        <= 0x4000_0000_0000_0000_0000_0000_0000_0000) by (nonlinear_arith)
        requires
            -0x8000_0000_0000_0000 <= q <= 0x8000_0000_0000_0000,
            -0x8000_0000_0000_0000 <= d <= 0x8000_0000_0000_0000,
    ;
}

impl Runner {
    /// The number of words of the memory.
    pub closed spec fn words(&self) -> int {
        self.memory@.len() as int
    }

    /// A machine in the start state with a memory of `words` words.
    fn new(words: usize) -> (m: Self)
        ensures
            m@ == start(),
            m.words() == words,
    {
        let mut memory: Vec<i64> = Vec::new();
        let mut k: usize = 0;
        while k < words
            invariant
                k <= words,
                memory@.len() == k,
                forall|j: int| 0 <= j < k ==> memory@[j] == 0,
            decreases words - k,
        {
            memory.push(0);
            k += 1;
        }
        let m = Runner { rax: 0, rdi: 0, rdx: 0, rbp: 0, rsp: 0, flags: None, memory };
        assert(m@.memory =~= start().memory);
        m
    }

    /// The place of the word at `a`: its index in the memory where `a` lies
    /// in the window, and nothing where it does not.
    fn place(&self, a: i64) -> (r: Option<usize>)
        ensures
            match r {
                Some(k) => window(self.words(), a as int) && k == slot(a as int) && k
                    < self.words(),
                None => !window(self.words(), a as int),
            },
    {
        if a >= 0 {
            return None;
        }
        let n: u64 = (-(a as i128)) as u64;
        if n % 8 != 0 {
            return None;
        }
        let k: u64 = n / 8 - 1;
        if k >= self.memory.len() as u64 {
            return None;
        }
        Some(k as usize)
    }

    /// The word at `a` where `a` lies in the window, and nothing where it
    /// does not.
    fn read(&self, a: i64) -> (r: Option<i64>)
        ensures
            match r {
                Some(v) => window(self.words(), a as int) && v == self@.memory[a as int],
                None => !window(self.words(), a as int),
            },
    {
        match self.place(a) {
            Some(k) => Some(self.memory[k]),
            None => None,
        }
    }

    /// Stores `v` at `a` where `a` lies in the window, and says whether it
    /// does; it does nothing where it does not.
    fn write(&mut self, a: i64, v: i64) -> (done: bool)
        ensures
            done == window(old(self).words(), a as int),
            done ==> final(self)@ == (State {
                memory: old(self)@.memory.insert(a as int, v as int),
                ..old(self)@
            }),
            !done ==> *final(self) == *old(self),
            final(self).words() == old(self).words(),
    {
        match self.place(a) {
            Some(k) => {
                self.memory.set(k, v);
                proof {
                    let before = old(self).memory@;
                    let after = self.memory@;
                    assert forall|b: int| cell(after, b) == (if b == a {
                        v as int
                    } else {
                        cell(before, b)
                    }) by {
                        if window(after.len() as int, b) && b != a {
                            assert(slot(b) != slot(a as int));
                        }
                    }
                    assert(self@.memory =~= old(self)@.memory.insert(a as int, v as int));
                }
                true
            },
            None => false,
        }
    }

    /// Pushes `v` where the word below the top of the stack lies in the
    /// window, and says whether it does; it does nothing where it does not.
    fn push(&mut self, v: i64) -> (done: bool)
        ensures
            done == window(old(self).words(), wrap(old(self)@.rsp - 8)),
            done ==> final(self)@ == old(self)@.push(v as int),
            !done ==> *final(self) == *old(self),
            final(self).words() == old(self).words(),
    {
        let top: i64 = self.rsp.wrapping_sub(8);
        proof {
            lemma_wrapping(self.rsp, 8);
        }
        if self.write(top, v) {
            self.rsp = top;
            true
        } else {
            false
        }
    }

    /// Pops the word on top of the stack where it lies in the window, and
    /// gives nothing, and does nothing, where it does not.
    fn pop(&mut self) -> (r: Option<i64>)
        ensures
            match r {
                Some(v) => window(old(self).words(), old(self)@.rsp) && v == old(self)@.top()
                    && final(self)@ == old(self)@.pop(),
                None => !window(old(self).words(), old(self)@.rsp) && *final(self) == *old(self),
            },
            final(self).words() == old(self).words(),
    {
        match self.read(self.rsp) {
            Some(v) => {
                proof {
                    lemma_wrapping(self.rsp, 8);
                }
                self.rsp = self.rsp.wrapping_add(8);
                Some(v)
            },
            None => None,
        }
    }

    /// Sets the lowest byte of `rax` to 1 or 0, and says that it has: it
    /// always does.
    fn set_low(&mut self, b: bool) -> (done: bool)
        ensures
            done,
            final(self)@ == old(self)@.set_low(b),
            final(self).words() == old(self).words(),
    {
        let low: i64 = self.rax.checked_rem_euclid(256).unwrap();
        assert((self.rax - i64::MIN) % 256 == self.rax % 256);
        let high: i64 = self.rax - low;
        assert(high % 256 == 0);
        let bit: i64 = if b {
            1
        } else {
            0
        };
        self.rax = high + bit;
        true
    }

    /// `idiv rdi`
    fn divide(&mut self) -> (r: Result<(), Stop>)
        ensures
            match r {
                Ok(()) => apply(Instr::Div, old(self)@) == Some(final(self)@),
                Err(stop) => stop == Stop::Faulted && apply(Instr::Div, old(self)@) is None
                    && *final(self) == *old(self),
            },
            final(self).words() == old(self).words(),
    {
        if self.rdi == 0 {
            return Err(Stop::Faulted);
        }
        let low: i128 = (self.rax as i128).checked_rem_euclid(0x1_0000_0000_0000_0000).unwrap();
        let dividend: i128 = (self.rdx as i128) * 0x1_0000_0000_0000_0000 + low;
        let divisor: i128 = self.rdi as i128;
        let q: i128 = match dividend.checked_div(divisor) {
            Some(q) => q,
            None => {
                return Err(Stop::Faulted);
            },
        };
        assert(q == quotient(dividend as int, divisor as int));
        if q < i64::MIN as i128 || q > i64::MAX as i128 {
            return Err(Stop::Faulted);
        }
        proof {
            lemma_product_bound(q as int, divisor as int);
            theorem_quotient_truncates(dividend as int, divisor as int);
        }
        let rest: i128 = dividend - q * divisor;
        self.rax = q as i64;
        self.rdx = rest as i64;
        self.flags = None;
        Ok(())
    }

    /// What a plain instruction does: it is done where the memory has the
    /// words that it reaches and the machine of the model does not fault.
    fn apply(&mut self, i: &Instr) -> (r: Result<(), Stop>)
        requires
            plain(*i),
        ensures
            match r {
                Ok(()) => reaches(*i, old(self)@, old(self).words()) && apply(*i, old(self)@)
                    == Some(final(self)@),
                Err(Stop::Faulted) => reaches(*i, old(self)@, old(self).words()) && apply(
                    *i,
                    old(self)@,
                ) is None,
                Err(Stop::Exhausted) => !reaches(*i, old(self)@, old(self).words()),
                Err(Stop::Returned(_)) => false,
            },
            final(self).words() == old(self).words(),
    {
        let mut done: bool = true;
        match i {
            Instr::IntelSyntax | Instr::Global | Instr::Main | Instr::Place(_) => {},
            Instr::PushRbp => {
                done = self.push(self.rbp);
            },
            Instr::MovRbpRsp => {
                self.rbp = self.rsp;
            },
            Instr::SubRsp(n) => {
                self.rsp = wrapping_sub_wide(self.rsp, *n);
                self.flags = None;
            },
            Instr::PushImm(n) => {
                done = self.push(*n as i64);
            },
            Instr::MovRaxRbp => {
                self.rax = self.rbp;
            },
            Instr::SubRaxImm(n) => {
                self.rax = wrapping_sub_wide(self.rax, *n);
                self.flags = None;
            },
            Instr::PushRax => {
                done = self.push(self.rax);
            },
            Instr::PopRax => match self.pop() {
                Some(v) => {
                    self.rax = v;
                },
                None => {
                    done = false;
                },
            },
            Instr::LoadRax => match self.read(self.rax) {
                Some(v) => {
                    self.rax = v;
                },
                None => {
                    done = false;
                },
            },
            Instr::PopRdi => match self.pop() {
                Some(v) => {
                    self.rdi = v;
                },
                None => {
                    done = false;
                },
            },
            Instr::StoreRdi => {
                done = self.write(self.rax, self.rdi);
            },
            Instr::PushRdi => {
                done = self.push(self.rdi);
            },
            Instr::MovRspRbp => {
                self.rsp = self.rbp;
            },
            Instr::PopRbp => match self.pop() {
                Some(v) => {
                    self.rbp = v;
                },
                None => {
                    done = false;
                },
            },
            Instr::Compare => {
                self.flags = Some((self.rax, self.rdi));
            },
            Instr::CompareZero => {
                self.flags = Some((self.rax, 0));
            },
            Instr::SetEqual => match self.flags {
                Some((a, b)) => {
                    done = self.set_low(a == b);
                },
                None => {
                    return Err(Stop::Faulted);
                },
            },
            Instr::SetNotEqual => match self.flags {
                Some((a, b)) => {
                    done = self.set_low(a != b);
                },
                None => {
                    return Err(Stop::Faulted);
                },
            },
            Instr::SetLess => match self.flags {
                Some((a, b)) => {
                    done = self.set_low(a < b);
                },
                None => {
                    return Err(Stop::Faulted);
                },
            },
            Instr::SetLessEqual => match self.flags {
                Some((a, b)) => {
                    done = self.set_low(a <= b);
                },
                None => {
                    return Err(Stop::Faulted);
                },
            },
            Instr::ZeroExtend => {
                self.rax = self.rax.checked_rem_euclid(256).unwrap();
            },
            Instr::Add => {
                proof {
                    lemma_wrapping(self.rax, self.rdi);
                }
                self.rax = self.rax.wrapping_add(self.rdi);
                self.flags = None;
            },
            Instr::Sub => {
                proof {
                    lemma_wrapping(self.rax, self.rdi);
                }
                self.rax = self.rax.wrapping_sub(self.rdi);
                self.flags = None;
            },
            Instr::Mul => {
                proof {
                    lemma_wrapping(self.rax, self.rdi);
                }
                self.rax = self.rax.wrapping_mul(self.rdi);
                self.flags = None;
            },
            Instr::SignExtend => {
                self.rdx = if self.rax < 0 {
                    -1
                } else {
                    0
                };
            },
            Instr::Div => {
                return self.divide();
            },
            Instr::Ret | Instr::Jump(_) | Instr::JumpEqual(_) => {},
        }
        if done {
            Ok(())
        } else {
            Err(Stop::Exhausted)
        }
    }

    /// One step at the position `pc`: the next position, or the end of the
    /// run; the interpreter gives up where, and only where, the instruction
    /// reaches outside the memory.
    fn step(&mut self, program: &Vec<Instr>, pc: usize) -> (r: Result<usize, Stop>)
        ensures
            match r {
                Ok(next) => !stuck(program@, pc as int, old(self)@, old(self).words()) && step(
                    program@,
                    pc as int,
                    old(self)@,
                ) == Outcome::Running(next as int, final(self)@),
                Err(Stop::Returned(v)) => !stuck(
                    program@,
                    pc as int,
                    old(self)@,
                    old(self).words(),
                ) && step(program@, pc as int, old(self)@) == Outcome::Returned(v as int),
                Err(Stop::Faulted) => !stuck(program@, pc as int, old(self)@, old(self).words())
                    && step(program@, pc as int, old(self)@) == Outcome::Faulted,
                Err(Stop::Exhausted) => stuck(program@, pc as int, old(self)@, old(self).words()),
            },
            final(self).words() == old(self).words(),
    {
        if pc >= program.len() {
            return Err(Stop::Faulted);
        }
        match &program[pc] {
            Instr::Ret => Err(Stop::Returned(self.rax)),
            Instr::Jump(l) => match find(program, l) {
                Some(k) => Ok(k),
                None => Err(Stop::Faulted),
            },
            Instr::JumpEqual(l) => match (self.flags, find(program, l)) {
                (Some((a, b)), Some(k)) => {
                    if a == b {
                        Ok(k)
                    } else {
                        Ok(pc + 1)
                    }
                },
                _ => Err(Stop::Faulted),
            },
            i => match self.apply(i) {
                Ok(()) => Ok(pc + 1),
                Err(stop) => Err(stop),
            },
        }
    }
}

/// What the interpreter comes to is what the machine of the model comes
/// to: where it says that the program returns a value or faults, the model
/// does so within the steps allowed.
pub proof fn lemma_interpret_runs(program: Seq<Instr>, pc: int, s: State, steps: nat, words: int)
    ensures
        match interpret(program, pc, s, steps, words) {
            Outcome::Running(_, _) => true,
            other => exists|n: nat| n <= steps && run(program, pc, s, n) == other,
        },
    decreases steps,
{
    if steps == 0 || stuck(program, pc, s, words) {
    } else {
        match step(program, pc, s) {
            Outcome::Running(next, t) => {
                lemma_interpret_runs(program, next, t, (steps - 1) as nat, words);
                let end = interpret(program, pc, s, steps, words);
                if !(end is Running) {
                    let n = choose|n: nat|
                        n <= steps - 1 && run(program, next, t, n) == interpret(
                            program,
                            next,
                            t,
                            (steps - 1) as nat,
                            words,
                        );
                    assert(run(program, pc, s, n + 1) == end);
                }
            },
            other => {
                assert(run(program, pc, s, 1) == other) by {
                    reveal_with_fuel(run, 2);
                }
            },
        }
    }
}

/// Runs a program from its first line in the start state, for at most
/// `steps` steps, on a memory of `words` words.
///
/// The answer is what the machine of the model comes to: the value that the
/// program returns, or a fault. The interpreter gives up where, and only
/// where, the steps are used up before that or an instruction reaches
/// outside the memory. Where it does not give up, the model returns the
/// value, or faults, within `steps` steps.
pub fn run_program(program: &Vec<Instr>, steps: usize, words: usize) -> (r: Stop)
    ensures
        answers(r, interpret(program@, 0, start(), steps as nat, words as int)),
        match r {
            Stop::Returned(v) => exists|n: nat|
                n <= steps && run(program@, 0, start(), n) == Outcome::Returned(v as int),
            Stop::Faulted => exists|n: nat|
                n <= steps && run(program@, 0, start(), n) == Outcome::Faulted,
            Stop::Exhausted => true,
        },
{
    let mut machine = Runner::new(words);
    let mut pc: usize = 0;
    let mut taken: usize = 0;
    proof {
        lemma_interpret_runs(program@, 0, start(), steps as nat, words as int);
    }
    while taken < steps
        invariant
            taken <= steps,
            machine.words() == words,
            match interpret(program@, 0, start(), steps as nat, words as int) {
                Outcome::Running(_, _) => true,
                other => exists|n: nat| n <= steps && run(program@, 0, start(), n) == other,
            },
            interpret(program@, 0, start(), steps as nat, words as int) == interpret(
                program@,
                pc as int,
                machine@,
                (steps - taken) as nat,
                words as int,
            ),
        decreases steps - taken,
    {
        match machine.step(program, pc) {
            Ok(next) => {
                pc = next;
                taken += 1;
            },
            Err(stop) => {
                return stop;
            },
        }
    }
    Stop::Exhausted
}

} // verus!
