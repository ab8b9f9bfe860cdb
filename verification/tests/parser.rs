use minic::parser::{parse, Error, Node, Parser};
use minic::tokenizer::{tokenize, Token};

#[test]
fn it_block() {
    let mut parser = Parser::new();
    let tokens = tokenize(
        "
                n = 0;
                m = 0;
                for(i=0; i<1; i=i+1) {
                    n = n + i;
                    m = m + i;
                }
            ",
    )
    .unwrap();
    let n = Node::local_variable("n", 8 * 0);
    let m = Node::local_variable("m", 8 * 1);
    let i = Node::local_variable("i", 8 * 2);
    assert_eq!(
        parser.program(&tokens[..]),
        Ok((
            vec![
                Node::assign(n.clone(), Node::number(0)),
                Node::assign(m.clone(), Node::number(0)),
                Node::for_n(
                    Some(Node::assign(i.clone(), Node::number(0))),
                    Some(Node::less(i.clone(), Node::number(1))),
                    Some(Node::assign(
                        i.clone(),
                        Node::plus(i.clone(), Node::number(1),)
                    )),
                    Node::block(vec![
                        Node::assign(n.clone(), Node::plus(n.clone(), i.clone())),
                        Node::assign(m.clone(), Node::plus(m.clone(), i.clone())),
                    ]),
                ),
            ],
            &[] as &[Token]
        ))
    );
}

#[test]
fn it_program() {
    let mut parser = Parser::new();
    let tokens = tokenize(
        "
                a = 3;
                b = 5 * 6 - 8;
                return a + b / 2;

                n = 0;
                m = 0;
                for(i=0; i<1; i=i+1) {
                    n = n + i;
                    m = m + i;
                }
                if(1==1) a + b;
                while(1==1) a + b;
            ",
    )
    .unwrap();
    let a = Node::local_variable("a", 8 * 0);
    let b = Node::local_variable("b", 8 * 1);
    let n = Node::local_variable("n", 8 * 2);
    let m = Node::local_variable("m", 8 * 3);
    let i = Node::local_variable("i", 8 * 4);
    assert_eq!(
        parser.program(&tokens[..]),
        Ok((
            vec![
                Node::assign(a.clone(), Node::number(3)),
                Node::assign(
                    b.clone(),
                    Node::minus(
                        Node::multiple(Node::number(5), Node::number(6)),
                        Node::number(8),
                    )
                ),
                Node::return_n(Node::plus(
                    a.clone(),
                    Node::devide(b.clone(), Node::number(2))
                )),
                Node::assign(n.clone(), Node::number(0)),
                Node::assign(m.clone(), Node::number(0)),
                Node::for_n(
                    Some(Node::assign(i.clone(), Node::number(0))),
                    Some(Node::less(i.clone(), Node::number(1))),
                    Some(Node::assign(
                        i.clone(),
                        Node::plus(i.clone(), Node::number(1),)
                    )),
                    Node::block(vec![
                        Node::assign(n.clone(), Node::plus(n.clone(), i.clone())),
                        Node::assign(m.clone(), Node::plus(m.clone(), i.clone())),
                    ]),
                ),
                Node::if_n(
                    Node::equal(Node::number(1), Node::number(1)),
                    Node::plus(a.clone(), b.clone()),
                    None
                ),
                Node::while_n(
                    Node::equal(Node::number(1), Node::number(1)),
                    Node::plus(a.clone(), b.clone()),
                ),
            ],
            &[] as &[Token]
        ))
    );
}

fn trees(src: &str) -> Result<Vec<Node>, Error> {
    parse(&tokenize(src).unwrap()[..])
}

#[test]
fn precedence_and_grouping() {
    assert_eq!(
        trees("1+2*3;"),
        Ok(vec![Node::plus(
            Node::number(1),
            Node::multiple(Node::number(2), Node::number(3))
        )])
    );
    assert_eq!(
        trees("(1+2)*3;"),
        Ok(vec![Node::multiple(
            Node::plus(Node::number(1), Node::number(2)),
            Node::number(3)
        )])
    );
    assert_eq!(
        trees("8-4-2;"),
        Ok(vec![Node::minus(
            Node::minus(Node::number(8), Node::number(4)),
            Node::number(2)
        )])
    );
    assert_eq!(
        trees("8/4/2;"),
        Ok(vec![Node::devide(
            Node::devide(Node::number(8), Node::number(4)),
            Node::number(2)
        )])
    );
}

#[test]
fn comparisons_are_normalised() {
    assert_eq!(
        trees("1<2;"),
        Ok(vec![Node::less(Node::number(1), Node::number(2))])
    );
    assert_eq!(
        trees("1>2;"),
        Ok(vec![Node::less(Node::number(2), Node::number(1))])
    );
    assert_eq!(
        trees("1<=2;"),
        Ok(vec![Node::less_equal(Node::number(1), Node::number(2))])
    );
    assert_eq!(
        trees("1>=2;"),
        Ok(vec![Node::less_equal(Node::number(2), Node::number(1))])
    );
    assert_eq!(
        trees("1==2;"),
        Ok(vec![Node::equal(Node::number(1), Node::number(2))])
    );
    assert_eq!(
        trees("1!=2;"),
        Ok(vec![Node::unequal(Node::number(1), Node::number(2))])
    );
}

#[test]
fn operands_keep_the_order_of_the_source() {
    let a = Node::local_variable("a", 0);
    let b = Node::local_variable("b", 8);
    assert_eq!(trees("a==b;"), Ok(vec![Node::equal(a.clone(), b.clone())]));
    assert_eq!(trees("a!=b;"), Ok(vec![Node::unequal(a.clone(), b.clone())]));
    assert_eq!(trees("a<b;"), Ok(vec![Node::less(a.clone(), b.clone())]));
    assert_eq!(trees("a-b;"), Ok(vec![Node::minus(a.clone(), b.clone())]));
    assert_eq!(trees("a/b;"), Ok(vec![Node::devide(a.clone(), b.clone())]));
    assert_eq!(
        trees("1==2==3;"),
        Ok(vec![Node::equal(
            Node::equal(Node::number(1), Node::number(2)),
            Node::number(3)
        )])
    );
    assert_eq!(
        trees("1==2!=3;"),
        Ok(vec![Node::unequal(
            Node::equal(Node::number(1), Node::number(2)),
            Node::number(3)
        )])
    );
}

#[test]
fn unary_signs() {
    assert_eq!(trees("+5;"), Ok(vec![Node::number(5)]));
    assert_eq!(trees("-5;"), Ok(vec![Node::number(-5)]));
    assert_eq!(
        trees("-a;"),
        Ok(vec![Node::minus(
            Node::number(0),
            Node::local_variable("a", 0)
        )])
    );
    assert_eq!(
        trees("-(1+2);"),
        Ok(vec![Node::minus(
            Node::number(0),
            Node::plus(Node::number(1), Node::number(2))
        )])
    );
    assert_eq!(trees("+a;"), Ok(vec![Node::local_variable("a", 0)]));
}

#[test]
fn offsets_follow_first_use() {
    let a = Node::local_variable("a", 0);
    let b = Node::local_variable("b", 8);
    assert_eq!(
        trees("a=1; b=2; a+b;"),
        Ok(vec![
            Node::assign(a.clone(), Node::number(1)),
            Node::assign(b.clone(), Node::number(2)),
            Node::plus(a.clone(), b.clone()),
        ])
    );
    let a = Node::local_variable("a", 8);
    let b = Node::local_variable("b", 0);
    assert_eq!(
        trees("b=2; a=1; a+b; b;"),
        Ok(vec![
            Node::assign(b.clone(), Node::number(2)),
            Node::assign(a.clone(), Node::number(1)),
            Node::plus(a.clone(), b.clone()),
            b.clone(),
        ])
    );
}

#[test]
fn offsets_are_kept_between_calls() {
    let mut parser = Parser::new();
    let first = tokenize("x; y;").unwrap();
    let second = tokenize("z = y;").unwrap();
    assert_eq!(
        parser.program(&first[..]),
        Ok((
            vec![Node::local_variable("x", 0), Node::local_variable("y", 8)],
            &[] as &[Token]
        ))
    );
    assert_eq!(
        parser.program(&second[..]),
        Ok((
            vec![Node::assign(
                Node::local_variable("z", 16),
                Node::local_variable("y", 8)
            )],
            &[] as &[Token]
        ))
    );
}

#[test]
fn assignment_groups_to_the_right() {
    let a = Node::local_variable("a", 0);
    let b = Node::local_variable("b", 8);
    assert_eq!(
        trees("a=b=5;"),
        Ok(vec![Node::assign(a, Node::assign(b, Node::number(5)))])
    );
}

#[test]
fn for_clauses_may_be_empty() {
    let i = Node::local_variable("i", 0);
    assert_eq!(
        trees("for(;;) i;"),
        Ok(vec![Node::for_n(None, None, None, i.clone())])
    );
    assert_eq!(
        trees("for(i=0;;i=i+1) { if(i==3) return i; }"),
        Ok(vec![Node::for_n(
            Some(Node::assign(i.clone(), Node::number(0))),
            None,
            Some(Node::assign(
                i.clone(),
                Node::plus(i.clone(), Node::number(1))
            )),
            Node::block(vec![Node::if_n(
                Node::equal(i.clone(), Node::number(3)),
                Node::return_n(i.clone()),
                None
            )]),
        )])
    );
}

#[test]
fn if_with_else() {
    assert_eq!(
        trees("if (1) 2; else 3;"),
        Ok(vec![Node::if_n(
            Node::number(1),
            Node::number(2),
            Some(Node::number(3))
        )])
    );
    assert_eq!(
        trees("if (1) if (2) 3; else 4;"),
        Ok(vec![Node::if_n(
            Node::number(1),
            Node::if_n(Node::number(2), Node::number(3), Some(Node::number(4))),
            None
        )])
    );
}

#[test]
fn nested_blocks() {
    assert_eq!(
        trees("{ {} { 1; } }"),
        Ok(vec![Node::block(vec![
            Node::block(vec![]),
            Node::block(vec![Node::number(1)])
        ])])
    );
    assert_eq!(trees(""), Ok(vec![]));
}

fn error_of(src: &str) -> (Vec<Token>, usize) {
    match trees(src) {
        Err(Error::Expected(tokens, at)) => (tokens, at),
        other => panic!("{:?}", other),
    }
}

#[test]
fn structural_errors() {
    // an unmatched parenthesis
    let (tokens, at) = error_of("(1+2;");
    assert!(matches!(tokens[..], [Token::RightParen]));
    assert_eq!(at, 4);
    // a missing semicolon
    let (tokens, at) = error_of("1+2");
    assert!(matches!(tokens[..], [Token::EndExpr]));
    assert_eq!(at, 3);
    // no expression
    let (tokens, at) = error_of("1+;");
    assert!(matches!(tokens[..], [Token::LeftParen]));
    assert_eq!(at, 2);
    // a block that is not closed
    let (tokens, at) = error_of("{ 1;");
    assert!(matches!(tokens[..], [Token::RightBlock]));
    assert_eq!(at, 3);
    // a header without its parenthesis
    let (tokens, at) = error_of("while 1;");
    assert!(matches!(tokens[..], [Token::LeftParen]));
    assert_eq!(at, 1);
    let (tokens, at) = error_of("for 1;");
    assert!(matches!(tokens[..], [Token::LeftParen]));
    assert_eq!(at, 1);
    let (tokens, at) = error_of("for (1; 2; 3 4;");
    assert!(matches!(tokens[..], [Token::RightParen]));
    assert_eq!(at, 7);
    let (tokens, at) = error_of("for (1 2; 3) 4;");
    assert!(matches!(tokens[..], [Token::EndExpr]));
    assert_eq!(at, 3);
    let (tokens, at) = error_of("return 1");
    assert!(matches!(tokens[..], [Token::EndExpr]));
    assert_eq!(at, 2);
    // an operator without a rule
    let (tokens, at) = error_of("!1;");
    assert!(matches!(tokens[..], [Token::LeftParen]));
    assert_eq!(at, 0);
    // an alternative without its statement
    let (tokens, at) = error_of("else 1;");
    assert!(matches!(tokens[..], [Token::LeftParen]));
    assert_eq!(at, 0);
}

#[test]
fn assignment_needs_a_variable() {
    assert_eq!(trees("1=2;"), Err(Error::AssignTarget(1)));
    assert_eq!(trees("a+1=2;"), Err(Error::AssignTarget(3)));
    assert_eq!(trees("(a)=2;"), Ok(vec![Node::assign(
        Node::local_variable("a", 0),
        Node::number(2)
    )]));
}

#[test]
fn a_copy_is_equal() {
    let tree = trees("for(i=0;i<3;i=i+1) { if (i) return i; else { i; } } while (1) 2;").unwrap();
    assert_eq!(tree.clone(), tree);
}
