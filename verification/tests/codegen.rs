use minic::codegen::{codegen, Codegen, Error, Instr, Label, LabelKind};
use minic::parser::Node;
use minic::{compile, CompileError};

fn text(lines: &[&str]) -> Vec<String> {
    lines.iter().map(|l| l.to_string()).collect()
}

#[test]
fn an_empty_program() {
    assert_eq!(
        codegen(vec![]),
        Ok(text(&[
            ".intel_syntax noprefix",
            ".globl main",
            "main:",
            "  push rbp",
            "  mov rbp, rsp",
            "  sub rsp, 208",
            "  mov rsp, rbp",
            "  pop rbp",
            "  ret",
        ]))
    );
}

#[test]
fn an_expression_statement() {
    assert_eq!(
        compile("1+2*3;"),
        Ok(text(&[
            ".intel_syntax noprefix",
            ".globl main",
            "main:",
            "  push rbp",
            "  mov rbp, rsp",
            "  sub rsp, 208",
            "  push 1",
            "  push 2",
            "  push 3",
            "  pop rdi",
            "  pop rax",
            "  imul rax, rdi",
            "  push rax",
            "  pop rdi",
            "  pop rax",
            "  add rax, rdi",
            "  push rax",
            "  pop rax",
            "  mov rsp, rbp",
            "  pop rbp",
            "  ret",
        ]))
    );
}

fn body(src: &str) -> Vec<String> {
    let lines = compile(src).unwrap();
    lines[6..lines.len() - 3].to_vec()
}

#[test]
fn variables_and_assignment() {
    assert_eq!(
        body("a=1; b=a;"),
        text(&[
            "  mov rax, rbp",
            "  sub rax, 0",
            "  push rax",
            "  push 1",
            "  pop rdi",
            "  pop rax",
            "  mov [rax], rdi",
            "  push rdi",
            "  pop rax",
            "  mov rax, rbp",
            "  sub rax, 8",
            "  push rax",
            "  mov rax, rbp",
            "  sub rax, 0",
            "  push rax",
            "  pop rax",
            "  mov rax, [rax]",
            "  push rax",
            "  pop rdi",
            "  pop rax",
            "  mov [rax], rdi",
            "  push rdi",
            "  pop rax",
        ])
    );
}

#[test]
fn comparisons_and_division() {
    assert_eq!(
        body("1==2;"),
        text(&[
            "  push 1",
            "  push 2",
            "  pop rdi",
            "  pop rax",
            "  cmp rax, rdi",
            "  sete al",
            "  movzb rax, al",
            "  push rax",
            "  pop rax",
        ])
    );
    assert_eq!(body("1!=2;")[5], "  setne al");
    assert_eq!(body("1<2;")[5], "  setl al");
    assert_eq!(body("1<=2;")[5], "  setle al");
    assert_eq!(body("1>2;")[..2], text(&["  push 2", "  push 1"])[..]);
    assert_eq!(body("3-4;")[4], "  sub rax, rdi");
    assert_eq!(
        body("7/2;"),
        text(&[
            "  push 7",
            "  push 2",
            "  pop rdi",
            "  pop rax",
            "  cqo",
            "  idiv rdi",
            "  push rax",
            "  pop rax",
        ])
    );
}

#[test]
fn numbers_in_decimal() {
    assert_eq!(body("0;")[0], "  push 0");
    assert_eq!(body("-5;")[0], "  push -5");
    assert_eq!(body("1234567890;")[0], "  push 1234567890");
    assert_eq!(body("9223372036854775807;")[0], "  push 9223372036854775807");
    assert_eq!(
        Instr::PushImm(isize::MIN).line(),
        format!("  push {}", isize::MIN)
    );
    assert_eq!(Instr::PushImm(-10).line(), "  push -10");
    assert_eq!(Instr::SubRaxImm(200).line(), "  sub rax, 200");
    assert_eq!(
        Instr::SubRaxImm(usize::MAX).line(),
        format!("  sub rax, {}", usize::MAX)
    );
    assert_eq!(
        Instr::Jump(Label {
            kind: LabelKind::Begin,
            index: 10
        })
        .line(),
        "  jmp .Lbegin10"
    );
}

#[test]
fn return_leaves_the_frame() {
    assert_eq!(
        body("return 1;"),
        text(&[
            "  push 1",
            "  pop rax",
            "  mov rsp, rbp",
            "  pop rbp",
            "  ret",
            "  pop rax",
        ])
    );
}

#[test]
fn if_without_else_code() {
    assert_eq!(
        body("if (1) 2;"),
        text(&[
            "  push 1",
            "  pop rax",
            "  cmp rax, 0",
            "  je .Lend0",
            "  push 2",
            ".Lend0:",
            "  pop rax",
        ])
    );
}

#[test]
fn if_with_else_code() {
    assert_eq!(
        body("if (1) 2; else 3;"),
        text(&[
            "  push 1",
            "  pop rax",
            "  cmp rax, 0",
            "  je .Lelse0",
            "  push 2",
            "  jmp .Lend0",
            ".Lelse0:",
            "  push 3",
            ".Lend0:",
            "  pop rax",
        ])
    );
}

#[test]
fn while_loop() {
    assert_eq!(
        body("while (1) 2;"),
        text(&[
            ".Lbegin0:",
            "  push 1",
            "  pop rax",
            "  cmp rax, 0",
            "  je .Lend0",
            "  push 2",
            "  jmp .Lbegin0",
            ".Lend0:",
            "  pop rax",
        ])
    );
}

#[test]
fn for_loop_with_all_clauses() {
    assert_eq!(
        body("for (1; 2; 3) 4;"),
        text(&[
            "  push 1",
            ".Lbegin0:",
            "  push 2",
            "  pop rax",
            "  cmp rax, 0",
            "  je .Lend0",
            "  push 3",
            "  push 4",
            "  jmp .Lbegin0",
            ".Lend0:",
            "  pop rax",
        ])
    );
}

#[test]
fn for_loop_without_test_has_no_branch() {
    assert_eq!(
        body("for (;;) 4;"),
        text(&[
            ".Lbegin0:",
            "  push 4",
            "  jmp .Lbegin0",
            ".Lend0:",
            "  pop rax",
        ])
    );
    let lines = body("for (1;;3) 4;");
    assert!(lines.iter().all(|l| !l.starts_with("  je")));
    assert!(lines.iter().all(|l| l != "  cmp rax, 0"));
}

#[test]
fn labels_are_never_shared() {
    let lines = body("if (1) { while (2) 3; } else for (;;) 4; if (5) 6; { if (7) 8; }");
    let placed: Vec<&String> = lines.iter().filter(|l| l.ends_with(':')).collect();
    assert_eq!(
        placed,
        vec![
            ".Lbegin1:",
            ".Lend1:",
            ".Lelse0:",
            ".Lbegin2:",
            ".Lend2:",
            ".Lend0:",
            ".Lend3:",
            ".Lend4:",
        ]
    );
    for (i, a) in placed.iter().enumerate() {
        for b in placed.iter().skip(i + 1) {
            assert_ne!(a, b);
        }
    }
}

#[test]
fn a_generator_goes_on_counting() {
    let mut generator = Codegen::new();
    let first = generator
        .gen(vec![Node::while_n(Node::number(1), Node::number(2))])
        .unwrap();
    let second = generator
        .gen(vec![Node::while_n(Node::number(1), Node::number(2))])
        .unwrap();
    assert_eq!(first[6], ".Lbegin0:");
    assert_eq!(second[6], ".Lbegin1:");
}

#[test]
fn a_block_adds_nothing_between_statements() {
    assert_eq!(
        body("{ 1; 2; }"),
        text(&["  push 1", "  push 2", "  pop rax"])
    );
    assert_eq!(body("{}"), text(&["  pop rax"]));
}

#[test]
fn an_assignment_to_a_number_has_no_code() {
    assert_eq!(
        codegen(vec![Node::assign(Node::number(1), Node::number(2))]),
        Err(Error::AssignTarget)
    );
    assert_eq!(
        codegen(vec![
            Node::number(1),
            Node::block(vec![Node::return_n(Node::plus(
                Node::number(1),
                Node::assign(Node::number(1), Node::number(2))
            ))])
        ]),
        Err(Error::AssignTarget)
    );
}

#[test]
fn instructions_and_text_agree() {
    let nodes = vec![Node::if_n(
        Node::less(Node::local_variable("a", 16), Node::number(2)),
        Node::return_n(Node::number(3)),
        None,
    )];
    let code = Codegen::new().instructions(&nodes).unwrap();
    let lines: Vec<String> = code.iter().map(|i| i.line()).collect();
    assert_eq!(Ok(lines), codegen(nodes));
}

#[test]
fn the_same_text_compiles_to_the_same_lines() {
    let src = "a = 1; for (i = 0; i < 10; i = i + 1) { if (i > 5) a = a * 2; else a = a + 1; } return a;";
    assert_eq!(compile(src), compile(src));
    assert!(compile(src).is_ok());
}

#[test]
fn a_program_that_fails_has_no_output() {
    assert!(matches!(compile("(1+2;"), Err(CompileError::Parse(_))));
    assert!(matches!(compile("1+2"), Err(CompileError::Parse(_))));
    assert!(matches!(compile("1=2;"), Err(CompileError::Parse(_))));
    assert!(matches!(compile("1 $ 2;"), Err(CompileError::Lex(_))));
    assert!(matches!(compile("1; 2; (3;"), Err(CompileError::Parse(_))));
}
