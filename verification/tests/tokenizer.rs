use minic::tokenizer::scan::{
    identity, number, skip_comment_block, skip_comment_oneline, skip_spaces, tokens,
};
use minic::tokenizer::Token;

#[test]
fn it_skip_space_with() {
    assert_eq!(skip_spaces("   Ab".as_bytes()), "Ab".as_bytes());
    assert_eq!(skip_spaces("Ab".as_bytes()), "Ab".as_bytes());
}

#[test]
fn it_skip_comment_oneline() {
    assert_eq!(
        skip_comment_oneline("// hello world\nhello".as_bytes()),
        Ok("hello".as_bytes())
    );
}

#[test]
fn it_skip_comment_block() {
    assert_eq!(
        skip_comment_block("/* hello world\nhello */hello".as_bytes()),
        Ok("hello".as_bytes())
    );
}

#[test]
fn it_number() {
    assert_eq!(number("100".as_bytes()), Ok((100, "".as_bytes())));
}

#[test]
fn it_identity() {
    assert_eq!(
        identity("to ken".as_bytes()),
        Ok(("to".to_owned(), " ken".as_bytes()))
    );
    assert_eq!(
        identity("token".as_bytes()),
        Ok(("token".to_owned(), "".as_bytes()))
    );
}

#[test]
fn it_tokens() {
    assert_eq!(
        tokens(
            "
            a = 3;
            b = 5 * 6 - 8;
            // b = 5 * 6 - 8;
            a + b / 2;
            "
            .as_bytes()
        ),
        Ok((
            vec![
                Token::identity("a"),
                Token::Assign,
                Token::Number(3),
                Token::EndExpr,
                Token::identity("b"),
                Token::Assign,
                Token::Number(5),
                Token::Multiple,
                Token::Number(6),
                Token::Minus,
                Token::Number(8),
                Token::EndExpr,
                Token::identity("a"),
                Token::Plus,
                Token::identity("b"),
                Token::Devide,
                Token::Number(2),
                Token::EndExpr,
            ],
            "".as_bytes()
        ))
    );
}
