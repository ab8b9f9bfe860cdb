//! A model of the machine that runs the generated code: the part of a
//! 64-bit processor that the instructions of the generator use.
//!
//! Registers hold 64-bit words, read as signed integers; arithmetic wraps
//! around. Memory is a map from addresses to words: the generated code only
//! reaches addresses that differ from the stack pointer at entry by a
//! multiple of 8, so no two words that it uses overlap.
use crate::codegen::instr::Instr;
use crate::codegen::instr::Label;
use vstd::prelude::*;

verus! {

/// The registers, the operands of the last comparison, and the memory.
pub struct State {
    pub rax: int,
    pub rdi: int,
    pub rdx: int,
    pub rbp: int,
    pub rsp: int,
    /// The two numbers that the last comparison compared, where no later
    /// instruction has changed the flags.
    pub flags: Option<(int, int)>,
    pub memory: Map<int, int>,
}

/// What a run has come to.
pub enum Outcome {
    /// The machine is about to run the instruction at the position.
    Running(int, State),
    /// The program has returned the value.
    Returned(int),
    /// The machine has trapped, or the program has left its code or read
    /// flags that no comparison had set.
    Faulted,
}

/// The least word.
pub open spec fn least() -> int {
    -0x8000_0000_0000_0000
}

/// The number of words.
pub open spec fn modulus() -> int {
    0x1_0000_0000_0000_0000
}

/// Whether `x` is a word.
pub open spec fn word(x: int) -> bool {
    least() <= x < -least()
}

/// The word that is congruent to `x`.
#[verifier::opaque]
pub open spec fn wrap(x: int) -> int {
    (x - least()) % modulus() + least()
}

/// The quotient of `a` by `b`, rounded toward zero.
pub open spec fn quotient(a: int, b: int) -> int
    recommends
        b != 0,
{
    if a >= 0 && b > 0 {
        a / b
    } else if a < 0 && b > 0 {
        -((-a) / b)
    } else if a >= 0 {
        -(a / (-b))
    } else {
        (-a) / (-b)
    }
}

/// 1 for true and 0 for false.
pub open spec fn truth(b: bool) -> int {
    if b {
        1
    } else {
        0
    }
}

impl State {
    /// Whether every register and every memory cell holds a word.
    pub open spec fn valid(self) -> bool {
        &&& word(self.rax)
        &&& word(self.rdi)
        &&& word(self.rdx)
        &&& word(self.rbp)
        &&& word(self.rsp)
        &&& forall|a: int| word(#[trigger] self.memory[a])
    }

    /// The state after a push of `v`.
    pub open spec fn push(self, v: int) -> State {
        let top = wrap(self.rsp - 8);
        State { rsp: top, memory: self.memory.insert(top, v), ..self }
    }

    /// The word on top of the stack.
    pub open spec fn top(self) -> int {
        self.memory[self.rsp]
    }

    /// The state after a pop, but for the register that takes the word.
    pub open spec fn pop(self) -> State {
        State { rsp: wrap(self.rsp + 8), ..self }
    }

    /// The state with the lowest byte of `rax` set to 0 or 1.
    pub open spec fn set_low(self, b: bool) -> State {
        State { rax: self.rax - self.rax % 256 + truth(b), ..self }
    }
}

/// Whether an instruction only works on registers and memory and then goes
/// on to the next one.
pub open spec fn plain(i: Instr) -> bool {
    match i {
        Instr::Ret | Instr::Jump(_) | Instr::JumpEqual(_) => false,
        _ => true,
    }
}

/// What a plain instruction does to the state, or `None` where it traps or
/// reads flags that are not set.
pub open spec fn apply(i: Instr, s: State) -> Option<State> {
    match i {
        Instr::IntelSyntax | Instr::Global | Instr::Main | Instr::Place(_) => Some(s),
        Instr::PushRbp => Some(s.push(s.rbp)),
        Instr::MovRbpRsp => Some(State { rbp: s.rsp, ..s }),
        Instr::SubRsp(n) => Some(State { rsp: wrap(s.rsp - n), flags: None, ..s }),
        Instr::PushImm(n) => Some(s.push(n as int)),
        Instr::MovRaxRbp => Some(State { rax: s.rbp, ..s }),
        Instr::SubRaxImm(n) => Some(State { rax: wrap(s.rax - n), flags: None, ..s }),
        Instr::PushRax => Some(s.push(s.rax)),
        Instr::PopRax => Some(State { rax: s.top(), ..s.pop() }),
        Instr::LoadRax => Some(State { rax: s.memory[s.rax], ..s }),
        Instr::PopRdi => Some(State { rdi: s.top(), ..s.pop() }),
        Instr::StoreRdi => Some(State { memory: s.memory.insert(s.rax, s.rdi), ..s }),
        Instr::PushRdi => Some(s.push(s.rdi)),
        Instr::MovRspRbp => Some(State { rsp: s.rbp, ..s }),
        Instr::PopRbp => Some(State { rbp: s.top(), ..s.pop() }),
        Instr::Compare => Some(State { flags: Some((s.rax, s.rdi)), ..s }),
        Instr::CompareZero => Some(State { flags: Some((s.rax, 0)), ..s }),
        Instr::SetEqual => match s.flags {
            Some((a, b)) => Some(s.set_low(a == b)),
            None => None,
        },
        Instr::SetNotEqual => match s.flags {
            Some((a, b)) => Some(s.set_low(a != b)),
            None => None,
        },
        Instr::SetLess => match s.flags {
            Some((a, b)) => Some(s.set_low(a < b)),
            None => None,
        },
        Instr::SetLessEqual => match s.flags {
            Some((a, b)) => Some(s.set_low(a <= b)),
            None => None,
        },
        Instr::ZeroExtend => Some(State { rax: s.rax % 256, ..s }),
        Instr::Add => Some(State { rax: wrap(s.rax + s.rdi), flags: None, ..s }),
        Instr::Sub => Some(State { rax: wrap(s.rax - s.rdi), flags: None, ..s }),
        Instr::Mul => Some(State { rax: wrap(s.rax * s.rdi), flags: None, ..s }),
        Instr::SignExtend => Some(
            State {
                rdx: if s.rax < 0 {
                    -1
                } else {
                    0
                },
                ..s
            },
        ),
        Instr::Div => {
            let dividend = s.rdx * modulus() + s.rax % modulus();
            let q = quotient(dividend, s.rdi);
            if s.rdi == 0 || !word(q) {
                None
            } else {
                Some(State { rax: q, rdx: dividend - q * s.rdi, flags: None, ..s })
            }
        },
        Instr::Ret | Instr::Jump(_) | Instr::JumpEqual(_) => None,
    }
}

/// The position of the first `label:` in the program, if there is one.
pub open spec fn target(program: Seq<Instr>, label: Label) -> Option<int> {
    if exists|k: int| 0 <= k < program.len() && program[k] == Instr::Place(label) {
        Some(
            choose|k: int|
                0 <= k < program.len() && program[k] == Instr::Place(label) && forall|j: int|
                    0 <= j < k ==> program[j] != Instr::Place(label),
        )
    } else {
        None
    }
}

/// One step of the machine at position `pc`.
pub open spec fn step(program: Seq<Instr>, pc: int, s: State) -> Outcome {
    if !(0 <= pc < program.len()) {
        Outcome::Faulted
    } else {
        match program[pc] {
            Instr::Ret => Outcome::Returned(s.rax),
            Instr::Jump(l) => match target(program, l) {
                Some(k) => Outcome::Running(k, s),
                None => Outcome::Faulted,
            },
            Instr::JumpEqual(l) => match (s.flags, target(program, l)) {
                (Some((a, b)), Some(k)) => Outcome::Running(
                    if a == b {
                        k
                    } else {
                        pc + 1
                    },
                    s,
                ),
                _ => Outcome::Faulted,
            },
            i => match apply(i, s) {
                Some(t) => Outcome::Running(pc + 1, t),
                None => Outcome::Faulted,
            },
        }
    }
}

/// What the machine has come to after `steps` steps from position `pc`, or
/// earlier where it has returned or faulted before.
pub open spec fn run(program: Seq<Instr>, pc: int, s: State, steps: nat) -> Outcome
    decreases steps,
{
    if steps == 0 {
        Outcome::Running(pc, s)
    } else {
        match step(program, pc, s) {
            Outcome::Running(next, t) => run(program, next, t, (steps - 1) as nat),
            other => other,
        }
    }
}

/// What a sequence of plain instructions does to the state, one after the
/// other.
pub open spec fn straight(code: Seq<Instr>, s: State) -> Option<State>
    decreases code.len(),
{
    if code.len() == 0 {
        Some(s)
    } else {
        match apply(code[0], s) {
            Some(t) => straight(code.subrange(1, code.len() as int), t),
            None => None,
        }
    }
}

} // verus!
