//! The instructions that the generator emits, and their text.
use crate::text::push_signed;
use crate::text::push_unsigned;
use crate::text::signed_text;
use crate::text::unsigned_text;
use vstd::prelude::*;

verus! {

/// The role of a label within its control construct.
#[derive(Clone, Copy, Debug, PartialEq, Eq)]
pub enum LabelKind {
    /// Where the alternative of an `if` starts.
    Else,
    /// Where the construct ends.
    End,
    /// Where a loop starts over.
    Begin,
}

/// A jump target: the role and the index of the control construct that it
/// belongs to.
#[derive(Clone, Copy, Debug, PartialEq, Eq)]
pub struct Label {
    pub kind: LabelKind,
    pub index: usize,
}

/// One line of the output: a directive, a label or an instruction of the
/// stack machine.
#[derive(Clone, Copy, Debug, PartialEq, Eq)]
pub enum Instr {
    /// `.intel_syntax noprefix`
    IntelSyntax,
    /// `.globl main`
    Global,
    /// `main:`
    Main,
    /// `push rbp`
    PushRbp,
    /// `mov rbp, rsp`
    MovRbpRsp,
    /// `sub rsp, n`
    SubRsp(usize),
    /// `push n`
    PushImm(isize),
    /// `mov rax, rbp`
    MovRaxRbp,
    /// `sub rax, n`
    SubRaxImm(usize),
    /// `push rax`
    PushRax,
    /// `pop rax`
    PopRax,
    /// `mov rax, [rax]`
    LoadRax,
    /// `pop rdi`
    PopRdi,
    /// `mov [rax], rdi`
    StoreRdi,
    /// `push rdi`
    PushRdi,
    /// `mov rsp, rbp`
    MovRspRbp,
    /// `pop rbp`
    PopRbp,
    /// `ret`
    Ret,
    /// Compare `rax` with `rdi`.
    Compare,
    /// `sete al`
    SetEqual,
    /// `setne al`
    SetNotEqual,
    /// `setl al`
    SetLess,
    /// `setle al`
    SetLessEqual,
    /// `movzb rax, al`
    ZeroExtend,
    /// `add rax, rdi`
    Add,
    /// `sub rax, rdi`
    Sub,
    /// `imul rax, rdi`
    Mul,
    /// `cqo`
    SignExtend,
    /// `idiv rdi`
    Div,
    /// Compare `rax` with zero.
    CompareZero,
    /// `je label`
    JumpEqual(Label),
    /// `jmp label`
    Jump(Label),
    /// `label:`
    Place(Label),
}

/// The name of a label.
pub open spec fn label_text(l: Label) -> Seq<char> {
    match l.kind {
        LabelKind::Else => ".Lelse"@ + unsigned_text(l.index),
        LabelKind::End => ".Lend"@ + unsigned_text(l.index),
        LabelKind::Begin => ".Lbegin"@ + unsigned_text(l.index),
    }
}

/// The line of an instruction.
pub open spec fn render(i: Instr) -> Seq<char> {
    match i {
        Instr::IntelSyntax => ".intel_syntax noprefix"@,
        Instr::Global => ".globl main"@,
        Instr::Main => "main:"@,
        Instr::PushRbp => "  push rbp"@,
        Instr::MovRbpRsp => "  mov rbp, rsp"@,
        Instr::SubRsp(n) => "  sub rsp, "@ + unsigned_text(n),
        Instr::PushImm(n) => "  push "@ + signed_text(n),
        Instr::MovRaxRbp => "  mov rax, rbp"@,
        Instr::SubRaxImm(n) => "  sub rax, "@ + unsigned_text(n),
        Instr::PushRax => "  push rax"@,
        Instr::PopRax => "  pop rax"@,
        Instr::LoadRax => "  mov rax, [rax]"@,
        Instr::PopRdi => "  pop rdi"@,
        Instr::StoreRdi => "  mov [rax], rdi"@,
        Instr::PushRdi => "  push rdi"@,
        Instr::MovRspRbp => "  mov rsp, rbp"@,
        Instr::PopRbp => "  pop rbp"@,
        Instr::Ret => "  ret"@,
        Instr::Compare => "  cmp rax, rdi"@,
        Instr::SetEqual => "  sete al"@,
        Instr::SetNotEqual => "  setne al"@,
        Instr::SetLess => "  setl al"@,
        Instr::SetLessEqual => "  setle al"@,
        Instr::ZeroExtend => "  movzb rax, al"@,
        Instr::Add => "  add rax, rdi"@,
        Instr::Sub => "  sub rax, rdi"@,
        Instr::Mul => "  imul rax, rdi"@,
        Instr::SignExtend => "  cqo"@,
        Instr::Div => "  idiv rdi"@,
        Instr::CompareZero => "  cmp rax, 0"@,
        Instr::JumpEqual(l) => "  je "@ + label_text(l),
        Instr::Jump(l) => "  jmp "@ + label_text(l),
        Instr::Place(l) => label_text(l) + ":"@,
    }
}

/// The lines of a sequence of instructions.
pub open spec fn render_all(code: Seq<Instr>) -> Seq<Seq<char>> {
    Seq::new(code.len(), |k: int| render(code[k]))
}

fn push_label(s: &mut String, l: &Label)
    ensures
        final(s)@ == old(s)@ + label_text(*l),
{
    match l.kind {
        LabelKind::Else => s.append(".Lelse"),
        LabelKind::End => s.append(".Lend"),
        LabelKind::Begin => s.append(".Lbegin"),
    }
    push_unsigned(s, l.index);
    assert(s@ =~= old(s)@ + label_text(*l));
}

/// A string that starts with `head`.
fn start(head: &str) -> (s: String)
    ensures
        s@ == head@,
{
    head.to_owned()
}

impl Instr {
    /// The line of the instruction.
    pub fn line(&self) -> (s: String)
        ensures
            s@ == render(*self),
    {
        match self {
            Instr::IntelSyntax => start(".intel_syntax noprefix"),
            Instr::Global => start(".globl main"),
            Instr::Main => start("main:"),
            Instr::PushRbp => start("  push rbp"),
            Instr::MovRbpRsp => start("  mov rbp, rsp"),
            Instr::SubRsp(n) => {
                let mut s = start("  sub rsp, ");
                push_unsigned(&mut s, *n);
                s
            },
            Instr::PushImm(n) => {
                let mut s = start("  push ");
                push_signed(&mut s, *n);
                s
            },
            Instr::MovRaxRbp => start("  mov rax, rbp"),
            Instr::SubRaxImm(n) => {
                let mut s = start("  sub rax, ");
                push_unsigned(&mut s, *n);
                s
            },
            Instr::PushRax => start("  push rax"),
            Instr::PopRax => start("  pop rax"),
            Instr::LoadRax => start("  mov rax, [rax]"),
            Instr::PopRdi => start("  pop rdi"),
            Instr::StoreRdi => start("  mov [rax], rdi"),
            Instr::PushRdi => start("  push rdi"),
            Instr::MovRspRbp => start("  mov rsp, rbp"),
            Instr::PopRbp => start("  pop rbp"),
            Instr::Ret => start("  ret"),
            Instr::Compare => start("  cmp rax, rdi"),
            Instr::SetEqual => start("  sete al"),
            Instr::SetNotEqual => start("  setne al"),
            Instr::SetLess => start("  setl al"),
            Instr::SetLessEqual => start("  setle al"),
            Instr::ZeroExtend => start("  movzb rax, al"),
            Instr::Add => start("  add rax, rdi"),
            Instr::Sub => start("  sub rax, rdi"),
            Instr::Mul => start("  imul rax, rdi"),
            Instr::SignExtend => start("  cqo"),
            Instr::Div => start("  idiv rdi"),
            Instr::CompareZero => start("  cmp rax, 0"),
            Instr::JumpEqual(l) => {
                let mut s = start("  je ");
                push_label(&mut s, l);
                s
            },
            Instr::Jump(l) => {
                let mut s = start("  jmp ");
                push_label(&mut s, l);
                s
            },
            Instr::Place(l) => {
                let mut s = String::new();
                push_label(&mut s, l);
                s.append(":");
                assert(s@ =~= render(*self));
                s
            },
        }
    }
}

/// The lines of `code`.
pub fn lines(code: &Vec<Instr>) -> (out: Vec<String>)
    ensures
        out.deep_view() == render_all(code@),
{
    let mut out: Vec<String> = Vec::new();
    let mut k: usize = 0;
    while k < code.len()
        invariant
            k <= code@.len(),
            out@.len() == k,
            forall|j: int| 0 <= j < k ==> (#[trigger] out@[j])@ == render(code@[j]),
        decreases code@.len() - k,
    {
        out.push(code[k].line());
        k += 1;
    }
    assert(out.deep_view() =~= render_all(code@));
    out
}

} // verus!
