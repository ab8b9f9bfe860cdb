use minic::compile_code;
use minic::machine::runner::{run_program, Stop};

fn result(src: &str) -> Stop {
    let code = compile_code(src).unwrap();
    run_program(&code, 100_000, 4096)
}

#[test]
fn precedence() {
    assert_eq!(result("1+2*3;"), Stop::Returned(7));
    assert_eq!(result("(1+2)*3;"), Stop::Returned(9));
    assert_eq!(result("2*3+4*5;"), Stop::Returned(26));
    assert_eq!(result("1+2<4;"), Stop::Returned(1));
    assert_eq!(result("1<2==1;"), Stop::Returned(1));
}

#[test]
fn operators_of_one_level_group_to_the_left() {
    assert_eq!(result("10-4-3;"), Stop::Returned(3));
    assert_eq!(result("100/10/5;"), Stop::Returned(2));
    assert_eq!(result("2-3+4;"), Stop::Returned(3));
    assert_eq!(result("8/4*2;"), Stop::Returned(4));
    assert_eq!(result("3<2<1;"), Stop::Returned(1));
    assert_eq!(result("5!=5!=1;"), Stop::Returned(1));
}

#[test]
fn comparisons_give_one_or_zero() {
    assert_eq!(result("1==1;"), Stop::Returned(1));
    assert_eq!(result("1!=1;"), Stop::Returned(0));
    assert_eq!(result("2<1;"), Stop::Returned(0));
    assert_eq!(result("1<=1;"), Stop::Returned(1));
    assert_eq!(result("1==2;"), Stop::Returned(0));
    assert_eq!(result("1!=2;"), Stop::Returned(1));
    assert_eq!(result("1<2;"), Stop::Returned(1));
    assert_eq!(result("2<=1;"), Stop::Returned(0));
    assert_eq!(result("2>1;"), Stop::Returned(1));
    assert_eq!(result("1>2;"), Stop::Returned(0));
    assert_eq!(result("1>=1;"), Stop::Returned(1));
    assert_eq!(result("1>=2;"), Stop::Returned(0));
    assert_eq!(result("-1<1;"), Stop::Returned(1));
    assert_eq!(result("0-9223372036854775807-1 < 9223372036854775807;"), Stop::Returned(1));
}

#[test]
fn variables_keep_what_is_assigned() {
    assert_eq!(result("a=1; b=2; a+b;"), Stop::Returned(3));
    assert_eq!(result("a=3; b=5*6-8; a+b/2;"), Stop::Returned(14));
    assert_eq!(result("a=1; b=2; a=10; a+b;"), Stop::Returned(12));
    assert_eq!(result("foo=7; bar_1=foo*foo; bar_1-foo;"), Stop::Returned(42));
}

#[test]
fn assignment_is_a_value_and_groups_to_the_right() {
    assert_eq!(result("a=b=5; a+b;"), Stop::Returned(10));
    assert_eq!(result("a=5;"), Stop::Returned(5));
    assert_eq!(result("a=(b=2)+1; a*10+b;"), Stop::Returned(32));
}

#[test]
fn control_flow() {
    assert_eq!(result("i=0; while(i<5) i=i+1; i;"), Stop::Returned(5));
    assert_eq!(
        result("for(i=0;;i=i+1) { if(i==3) return i; }"),
        Stop::Returned(3)
    );
    assert_eq!(
        result("n=0; for(i=0;i<3;i=i+1) n=n+1; n;"),
        Stop::Returned(3)
    );
    assert!(matches!(result("for(i=0;i<3;i=i+1) i;"), Stop::Returned(_)));
    assert_eq!(result("if (1) return 2; return 3;"), Stop::Returned(2));
    assert_eq!(result("if (0) return 2; return 3;"), Stop::Returned(3));
    assert_eq!(result("if (0) return 2; else return 4; return 3;"), Stop::Returned(4));
    assert_eq!(result("if (7) return 2; else return 4; return 3;"), Stop::Returned(2));
    assert_eq!(
        result("s=0; i=1; while (i<=10) { s=s+i; i=i+1; } return s;"),
        Stop::Returned(55)
    );
    assert_eq!(
        result("n=0; i=0; while (i<3) { j=0; while (j<4) { n=n+1; j=j+1; } i=i+1; } return n;"),
        Stop::Returned(12)
    );
    assert_eq!(result("return 1; return 2;"), Stop::Returned(1));
    assert_eq!(result("{ a=1; { a=a+1; } } a;"), Stop::Returned(2));
}

#[test]
fn division_rounds_toward_zero() {
    assert_eq!(result("7/2;"), Stop::Returned(3));
    assert_eq!(result("(1+1)/2;"), Stop::Returned(1));
    assert_eq!(result("-7/2;"), Stop::Returned(-3));
    assert_eq!(result("7/-2;"), Stop::Returned(-3));
    assert_eq!(result("-7/-2;"), Stop::Returned(3));
    assert_eq!(result("0/5;"), Stop::Returned(0));
    assert_eq!(result("(0-7)/2;"), Stop::Returned(-3));
}

#[test]
fn the_first_operand_is_evaluated_first() {
    assert_eq!(result("a=8; (a=a/2)/(a=a/2);"), Stop::Returned(2));
    assert_eq!(result("a=1; (a=a+1)-(a=a*10);"), Stop::Returned(-18));
    assert_eq!(result("a=1; (a=a+1)<(a=a+1);"), Stop::Returned(1));
    assert_eq!(result("a=1; (a=2)==(a=3); a;"), Stop::Returned(3));
    assert_eq!(result("a=1; (a=2)!=(a=3); a;"), Stop::Returned(3));
    assert_eq!(result("a=1; (a=a+1)==(a=a*2);"), Stop::Returned(0));
    assert_eq!(result("a=1; (a=a+1)>(a=a+1); a;"), Stop::Returned(3));
}

#[test]
fn a_comment_at_the_end_of_the_text() {
    assert_eq!(result("1; // end"), Stop::Returned(1));
    assert_eq!(result("7; // seven\n// and no more"), Stop::Returned(7));
}

#[test]
fn arithmetic_wraps() {
    assert_eq!(
        result("9223372036854775807+1;"),
        Stop::Returned(i64::MIN)
    );
    assert_eq!(
        result("0-9223372036854775807-2;"),
        Stop::Returned(i64::MAX)
    );
    assert_eq!(
        result("4611686018427387904*4;"),
        Stop::Returned(0)
    );
    assert_eq!(
        result("3037000500*3037000500;"),
        Stop::Returned(3037000500i64.wrapping_mul(3037000500))
    );
}

#[test]
fn a_division_that_traps_faults() {
    assert_eq!(result("1/0;"), Stop::Faulted);
    assert_eq!(result("a=0; 5/a;"), Stop::Faulted);
    assert_eq!(result("(0-9223372036854775807-1)/(0-1);"), Stop::Faulted);
    assert_eq!(result("(0-9223372036854775807-1)/1;"), Stop::Returned(i64::MIN));
}

#[test]
fn the_interpreter_gives_up_in_time() {
    let code = compile_code("while (1) 1;").unwrap();
    assert_eq!(run_program(&code, 1000, 4096), Stop::Exhausted);
    assert_eq!(run_program(&code, 100_000, 64), Stop::Exhausted);
    let code = compile_code("1;").unwrap();
    assert_eq!(run_program(&code, 5, 4096), Stop::Exhausted);
    assert_eq!(run_program(&code, 100, 4096), Stop::Returned(1));
    assert_eq!(run_program(&code, 100, 10), Stop::Exhausted);
    assert_eq!(run_program(&vec![], 100, 10), Stop::Faulted);
}

#[test]
fn an_empty_program_returns_what_rax_held() {
    assert_eq!(result(""), Stop::Returned(0));
    assert_eq!(result("// nothing\n/* at all */"), Stop::Returned(0));
}

/// An expression of the test: a number or an operation on two expressions.
enum Expr {
    Num(i64),
    Op(char, Box<Expr>, Box<Expr>),
}

fn next_random(state: &mut u64) -> u64 {
    *state = state
        .wrapping_mul(6364136223846793005)
        .wrapping_add(1442695040888963407);
    *state >> 33
}

fn random_expr(state: &mut u64, depth: u32) -> Expr {
    if depth == 0 || next_random(state) % 4 == 0 {
        let small = (next_random(state) % 20) as i64;
        let large = (next_random(state) % 2) as i64 * 4611686018427387904;
        return Expr::Num(small + large);
    }
    let ops = ['+', '-', '*', '/', '<', 'l', '>', 'g', '=', '!'];
    let op = ops[(next_random(state) % ops.len() as u64) as usize];
    Expr::Op(
        op,
        Box::new(random_expr(state, depth - 1)),
        Box::new(random_expr(state, depth - 1)),
    )
}

fn show(e: &Expr) -> String {
    match e {
        Expr::Num(n) => format!("{}", n),
        Expr::Op(op, l, r) => {
            let mark = match op {
                'l' => "<=".to_string(),
                'g' => ">=".to_string(),
                '=' => "==".to_string(),
                '!' => "!=".to_string(),
                other => other.to_string(),
            };
            format!("({} {} {})", show(l), mark, show(r))
        }
    }
}

fn eval(e: &Expr) -> Option<i64> {
    match e {
        Expr::Num(n) => Some(*n),
        Expr::Op(op, l, r) => {
            let a = eval(l)?;
            let b = eval(r)?;
            match op {
                '+' => Some(a.wrapping_add(b)),
                '-' => Some(a.wrapping_sub(b)),
                '*' => Some(a.wrapping_mul(b)),
                '/' => a.checked_div(b),
                '<' => Some((a < b) as i64),
                'l' => Some((a <= b) as i64),
                '>' => Some((a > b) as i64),
                'g' => Some((a >= b) as i64),
                '=' => Some((a == b) as i64),
                _ => Some((a != b) as i64),
            }
        }
    }
}

#[test]
fn random_expressions_have_their_value() {
    let mut state: u64 = 2024;
    let mut returned = 0;
    let mut faulted = 0;
    for _ in 0..300 {
        let e = random_expr(&mut state, 4);
        let src = format!("{};", show(&e));
        match eval(&e) {
            Some(v) => {
                assert_eq!(result(&src), Stop::Returned(v), "{}", src);
                returned += 1;
            }
            None => {
                assert_eq!(result(&src), Stop::Faulted, "{}", src);
                faulted += 1;
            }
        }
    }
    assert!(returned > 100);
    assert!(faulted > 0);
}

/// The source text of an expression with the parentheses only where the
/// grammar needs them.
fn show_bare(e: &Expr, level: i32) -> String {
    match e {
        Expr::Num(n) => format!("{}", n),
        Expr::Op(op, l, r) => {
            let (rank, mark) = match op {
                '*' => (0, "*"),
                '/' => (0, "/"),
                '+' => (1, "+"),
                '-' => (1, "-"),
                '<' => (2, "<"),
                'l' => (2, "<="),
                '>' => (2, ">"),
                'g' => (2, ">="),
                '=' => (3, "=="),
                _ => (3, "!="),
            };
            let text = format!(
                "{} {} {}",
                show_bare(l, rank),
                mark,
                show_bare(r, rank - 1)
            );
            if rank <= level {
                text
            } else {
                format!("({})", text)
            }
        }
    }
}

#[test]
fn parentheses_are_needed_only_against_precedence() {
    let mut state: u64 = 7;
    for _ in 0..300 {
        let e = random_expr(&mut state, 4);
        let full = format!("{};", show(&e));
        let bare = format!("{};", show_bare(&e, 3));
        assert_eq!(
            minic::parser::parse(&minic::tokenizer::tokenize(&bare).unwrap()[..]),
            minic::parser::parse(&minic::tokenizer::tokenize(&full).unwrap()[..]),
            "{}",
            bare
        );
    }
}
