use minic::tokenizer::scan::{
    identity as word_at, identity_inner, ignore_space_and_comment, number as number_at,
    number_inner, skip_comment_block as skip_block, skip_comment_oneline as skip_line,
    skip_spaces as spaces, skip_until_end_of_block_comment, skip_until_newline, token,
    tokens as all_tokens, Error,
};
use minic::tokenizer::{tokenize, Token};

fn kinds(tokens: &[Token]) -> Vec<String> {
    tokens
        .iter()
        .map(|t| match t {
            Token::Number(n) => format!("#{}", n),
            Token::Identity(s) => format!("@{}", s),
            other => format!("{:?}", other),
        })
        .collect()
}

fn kinds_and_payloads(src: &str) -> Vec<String> {
    kinds(&tokenize(src).unwrap())
}

#[test]
fn payloads_are_kept() {
    assert_eq!(
        kinds_and_payloads("a = 3; b2 = 5 * 60 - _a;".replace("_a", "a_").as_str()),
        vec!["@a", "Assign", "#3", "EndExpr", "@b2", "Assign", "#5", "Multiple", "#60", "Minus", "@a_", "EndExpr"]
    );
    assert_eq!(kinds_and_payloads("007"), vec!["#7"]);
    assert_eq!(kinds_and_payloads("0"), vec!["#0"]);
    assert_eq!(
        kinds_and_payloads("9223372036854775807"),
        vec![format!("#{}", isize::MAX)]
    );
}

#[test]
fn every_mark() {
    assert_eq!(
        kinds_and_payloads("+ - * / ! && || = == != < <= > >= ; ( ) { }"),
        vec![
            "Plus", "Minus", "Multiple", "Devide", "Not", "And", "Or", "Assign", "Equal",
            "NotEqual", "Less", "LessEqual", "More", "MoreEqual", "EndExpr", "LeftParen",
            "RightParen", "LeftBlock", "RightBlock"
        ]
    );
    assert_eq!(
        kinds_and_payloads("a<=b>=c==d!=e"),
        vec!["@a", "LessEqual", "@b", "MoreEqual", "@c", "Equal", "@d", "NotEqual", "@e"]
    );
    assert_eq!(kinds_and_payloads("==="), vec!["Equal", "Assign"]);
    assert_eq!(kinds_and_payloads("<=="), vec!["LessEqual", "Assign"]);
    assert_eq!(kinds_and_payloads("!!="), vec!["Not", "NotEqual"]);
}

#[test]
fn keywords_need_an_end() {
    assert_eq!(
        kinds_and_payloads("return if else while for"),
        vec!["Return", "If", "Else", "While", "For"]
    );
    assert_eq!(kinds_and_payloads("ifx"), vec!["@ifx"]);
    assert_eq!(kinds_and_payloads("if_"), vec!["@if_"]);
    assert_eq!(kinds_and_payloads("if1"), vec!["@if1"]);
    assert_eq!(kinds_and_payloads("returned"), vec!["@returned"]);
    assert_eq!(kinds_and_payloads("form"), vec!["@form"]);
    assert_eq!(kinds_and_payloads("elsewhile"), vec!["@elsewhile"]);
    assert_eq!(kinds_and_payloads("If"), vec!["@If"]);
    assert_eq!(kinds_and_payloads("if("), vec!["If", "LeftParen"]);
    assert_eq!(kinds_and_payloads("for;"), vec!["For", "EndExpr"]);
    assert_eq!(kinds_and_payloads("1if"), vec!["#1", "If"]);
    assert_eq!(kinds_and_payloads("a1 1a"), vec!["@a1", "#1", "@a"]);
}

#[test]
fn whitespace_and_comments_are_left_out() {
    assert_eq!(kinds_and_payloads(" \t\r\n\x0b\x0c 1 \n"), vec!["#1"]);
    assert_eq!(kinds_and_payloads("1 // one\n2 /* two */ 3"), vec!["#1", "#2", "#3"]);
    assert_eq!(
        kinds_and_payloads("// a\n// b\n  /* c */ /* d */ // e\r1"),
        vec!["#1"]
    );
    assert_eq!(kinds_and_payloads("/* // */ 1 // /*\n 2"), vec!["#1", "#2"]);
    assert_eq!(kinds_and_payloads("/**/1/***/2"), vec!["#1", "#2"]);
    assert_eq!(kinds_and_payloads("1 / 2"), vec!["#1", "Devide", "#2"]);
    assert_eq!(kinds_and_payloads(""), Vec::<String>::new());
    assert_eq!(kinds_and_payloads("  \n "), Vec::<String>::new());
    assert_eq!(
        all_tokens(&[b'1', 0x85, b'2', 0xa0]).map(|r| r.0.len()),
        Ok(2)
    );
}

#[test]
fn a_byte_with_no_token_is_an_error_at_its_place() {
    let expected: Vec<u8> = "iefw&|=!<>+-*/!=<>;(){}".bytes().collect();
    assert_eq!(tokenize("1 + $"), Err(Error::Expected(expected.clone(), 4)));
    assert_eq!(tokenize("_a"), Err(Error::Expected(expected.clone(), 0)));
    assert_eq!(tokenize("a & b"), Err(Error::Expected(expected.clone(), 2)));
    assert_eq!(tokenize("a | b"), Err(Error::Expected(expected.clone(), 2)));
    assert_eq!(tokenize("\n\n  #"), Err(Error::Expected(expected.clone(), 4)));
    assert_eq!(
        all_tokens(&[b'a', 0xc3, 0xa9]),
        Err(Error::Expected(expected.clone(), 1))
    );
    assert_eq!(token("".as_bytes()), Err(Error::Expected(expected.clone(), 0)));
    assert_eq!(token(" 1".as_bytes()), Err(Error::Expected(expected, 0)));
}

#[test]
fn a_line_comment_may_end_with_the_input() {
    assert_eq!(
        all_tokens("1; // end".as_bytes()).map(|r| (kinds(&r.0), r.1.len())),
        Ok((vec!["#1".to_string(), "EndExpr".to_string()], 0))
    );
    assert_eq!(kinds_and_payloads("1 // one"), vec!["#1"]);
    assert_eq!(kinds_and_payloads("//"), Vec::<String>::new());
    assert_eq!(kinds_and_payloads("1 //"), vec!["#1"]);
    assert_eq!(kinds_and_payloads("1 /* a */ // b"), vec!["#1"]);
    assert_eq!(kinds_and_payloads("// a\n// b"), Vec::<String>::new());
    assert_eq!(skip_until_newline("abc".as_bytes()), Ok("".as_bytes()));
    assert_eq!(skip_until_newline("".as_bytes()), Ok("".as_bytes()));
    assert_eq!(skip_line("//abc".as_bytes()), Ok("".as_bytes()));
    assert_eq!(skip_line("//".as_bytes()), Ok("".as_bytes()));
    assert_eq!(
        ignore_space_and_comment("  /* a */ // b".as_bytes()),
        Ok("".as_bytes())
    );
}

#[test]
fn a_block_comment_without_its_end_is_an_error_at_the_end() {
    assert_eq!(tokenize("1 /* one"), Err(Error::Expected(vec![b'*', b'/'], 8)));
    assert_eq!(tokenize("/*/"), Err(Error::Expected(vec![b'*', b'/'], 3)));
    assert_eq!(
        tokenize("1 // one\n /* two"),
        Err(Error::Expected(vec![b'*', b'/'], 16))
    );
    assert_eq!(
        skip_until_end_of_block_comment("abc*".as_bytes()),
        Err(Error::Expected(vec![b'*', b'/'], 4))
    );
    assert_eq!(
        skip_block("/*abc".as_bytes()),
        Err(Error::Expected(vec![b'*', b'/'], 5))
    );
    assert_eq!(
        ignore_space_and_comment("  // a\n /* b".as_bytes()),
        Err(Error::Expected(vec![b'*', b'/'], 12))
    );
}

#[test]
fn a_number_that_does_not_fit_is_an_error() {
    assert_eq!(tokenize("1 + 9223372036854775808"), Err(Error::Overflow(4)));
    assert_eq!(
        tokenize("99999999999999999999999999"),
        Err(Error::Overflow(0))
    );
    assert_eq!(
        number_at("9223372036854775808;".as_bytes()),
        Err(Error::Overflow(0))
    );
    assert_eq!(
        number_at("9223372036854775807;".as_bytes()),
        Ok((isize::MAX, ";".as_bytes()))
    );
}

#[test]
fn the_parts_of_the_scanner() {
    assert_eq!(spaces("".as_bytes()), "".as_bytes());
    assert_eq!(spaces(" \t\n".as_bytes()), "".as_bytes());
    assert_eq!(skip_until_newline("ab\ncd\n".as_bytes()), Ok("cd\n".as_bytes()));
    assert_eq!(skip_until_newline("ab\r\ncd".as_bytes()), Ok("\ncd".as_bytes()));
    assert_eq!(skip_line("/ab".as_bytes()), Ok("/ab".as_bytes()));
    assert_eq!(skip_line("ab//\n".as_bytes()), Ok("ab//\n".as_bytes()));
    assert_eq!(skip_block("/ab".as_bytes()), Ok("/ab".as_bytes()));
    assert_eq!(skip_block("/**/".as_bytes()), Ok("".as_bytes()));
    assert_eq!(
        skip_until_end_of_block_comment("a*b**/c*/".as_bytes()),
        Ok("c*/".as_bytes())
    );
    assert_eq!(
        ignore_space_and_comment(" // a\n /* b */\n// c\n x ".as_bytes()),
        Ok("x ".as_bytes())
    );
    assert_eq!(ignore_space_and_comment("x".as_bytes()), Ok("x".as_bytes()));
    assert_eq!(
        number_inner("123abc".as_bytes()),
        ("123".to_owned(), "abc".as_bytes())
    );
    assert_eq!(number_inner("abc".as_bytes()), ("".to_owned(), "abc".as_bytes()));
    assert_eq!(
        identity_inner("a_1 b".as_bytes()),
        ("a_1".to_owned(), " b".as_bytes())
    );
    assert_eq!(identity_inner("_9-".as_bytes()), ("_9".to_owned(), "-".as_bytes()));
    assert_eq!(identity_inner("+".as_bytes()), ("".to_owned(), "+".as_bytes()));
    assert_eq!(word_at("if(".as_bytes()), Ok(("if".to_owned(), "(".as_bytes())));
    assert_eq!(word_at("x9_y z".as_bytes()), Ok(("x9_y".to_owned(), " z".as_bytes())));
    let letters: Vec<u8> = (b'a'..=b'z').chain(b'A'..=b'Z').collect();
    assert_eq!(word_at("9x".as_bytes()), Err(Error::Expected(letters.clone(), 0)));
    assert_eq!(word_at("_x".as_bytes()), Err(Error::Expected(letters.clone(), 0)));
    assert_eq!(word_at("".as_bytes()), Err(Error::Expected(letters, 0)));
    let digits: Vec<u8> = (b'0'..=b'9').collect();
    assert_eq!(number_at("x1".as_bytes()), Err(Error::Expected(digits.clone(), 0)));
    assert_eq!(number_at("".as_bytes()), Err(Error::Expected(digits, 0)));
    assert_eq!(number_at("42".as_bytes()), Ok((42, "".as_bytes())));
    assert!(matches!(token("while(".as_bytes()), Ok((Token::While, rest)) if rest == "(".as_bytes()));
    assert!(matches!(token(">=1".as_bytes()), Ok((Token::MoreEqual, rest)) if rest == "1".as_bytes()));
    assert!(matches!(token("12+".as_bytes()), Ok((Token::Number(12), rest)) if rest == "+".as_bytes()));
    assert!(matches!(token("ab+".as_bytes()), Ok((Token::Identity(name), rest)) if name == "ab" && rest == "+".as_bytes()));
}

#[test]
fn tokens_are_equal_by_kind() {
    assert_eq!(Token::number(1), Token::number(2));
    assert_eq!(Token::identity("a"), Token::identity("b"));
    assert_ne!(Token::number(1), Token::identity("a"));
    assert_ne!(Token::Plus, Token::Minus);
    assert_eq!(Token::If, Token::If);
    assert_ne!(Token::If, Token::Else);
    assert_ne!(Token::LeftBlock, Token::LeftParen);
    assert_eq!(Token::number(5).clone(), Token::Number(5));
}
