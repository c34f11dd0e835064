use kaleido::lexer::{tokenize, KeyWord, LexError, Op, Operator, Token};

fn id(name: &str) -> Token {
    Token::Id(name.to_string())
}

fn lit(text: &str) -> Token {
    Token::Lit(text.to_string())
}

#[test]
fn single_identifier_token() {
    assert_eq!(tokenize("x"), Ok(vec![id("x")]));
}

#[test]
fn single_literal_token() {
    assert_eq!(tokenize("42"), Ok(vec![lit("42")]));
}

#[test]
fn literal_with_point() {
    assert_eq!(tokenize("3.14"), Ok(vec![lit("3.14")]));
}

#[test]
fn literal_leading_point() {
    assert_eq!(tokenize(".5"), Ok(vec![lit(".5")]));
}

#[test]
fn literal_trailing_point() {
    assert_eq!(tokenize("5."), Ok(vec![lit("5.")]));
}

#[test]
fn malformed_literal_two_points() {
    assert_eq!(tokenize("1.2.3"), Err(LexError::NumericFormat));
}

#[test]
fn malformed_literal_lone_point() {
    assert_eq!(tokenize("."), Err(LexError::NumericFormat));
}

#[test]
fn keywords_become_keyword_tokens() {
    assert_eq!(
        tokenize("var def if then else"),
        Ok(vec![
            Token::KeyWord(KeyWord::Var),
            Token::KeyWord(KeyWord::Def),
            Token::KeyWord(KeyWord::If),
            Token::KeyWord(KeyWord::Then),
            Token::KeyWord(KeyWord::Else),
        ])
    );
}

#[test]
fn foreign_declaration_keyword() {
    let word: String = vec!['e', 'x', 't', 'e', 'r', 'n'].into_iter().collect();
    assert_eq!(tokenize(&word), Ok(vec![Token::KeyWord(KeyWord::Extern)]));
}

#[test]
fn keyword_prefix_is_identifier() {
    assert_eq!(tokenize("variable"), Ok(vec![id("variable")]));
}

#[test]
fn case_sensitive_keywords() {
    assert_eq!(tokenize("Var"), Ok(vec![id("Var")]));
}

#[test]
fn single_space_is_skipped() {
    assert_eq!(tokenize("a b"), Ok(vec![id("a"), id("b")]));
}

#[test]
fn double_space_is_a_token() {
    assert_eq!(tokenize("a  b"), Ok(vec![id("a"), Token::Tab, id("b")]));
}

#[test]
fn three_spaces_give_one_tab() {
    assert_eq!(tokenize("a   b"), Ok(vec![id("a"), Token::Tab, id("b")]));
}

#[test]
fn four_spaces_give_two_tabs() {
    assert_eq!(
        tokenize("a    b"),
        Ok(vec![id("a"), Token::Tab, Token::Tab, id("b")])
    );
}

#[test]
fn other_whitespace_is_skipped() {
    assert_eq!(tokenize("a\tb\nc"), Ok(vec![id("a"), id("b"), id("c")]));
}

#[test]
fn all_operators() {
    assert_eq!(
        tokenize("= + - * / == != < > <= >= ! && || ^"),
        Ok(vec![
            Token::Op(Op::Assign),
            Token::Op(Op::Plus),
            Token::Op(Op::Minus),
            Token::Op(Op::Mult),
            Token::Op(Op::Div),
            Token::Op(Op::Eq),
            Token::Op(Op::Ne),
            Token::Op(Op::Lt),
            Token::Op(Op::Gt),
            Token::Op(Op::Le),
            Token::Op(Op::Ge),
            Token::Op(Op::Not),
            Token::Op(Op::And),
            Token::Op(Op::Or),
            Token::Op(Op::Xor),
        ])
    );
}

#[test]
fn brackets_are_single_tokens() {
    assert_eq!(
        tokenize("(a)"),
        Ok(vec![Token::LeftBracket, id("a"), Token::RightBracket])
    );
}

#[test]
fn comment_token_carries_text() {
    assert_eq!(
        tokenize("x // comment\n"),
        Ok(vec![id("x"), Token::Comm(" comment\n".to_string())])
    );
}

#[test]
fn comment_at_end_of_input_gets_line_feed() {
    assert_eq!(
        tokenize("x // note"),
        Ok(vec![id("x"), Token::Comm(" note\n".to_string())])
    );
}

#[test]
fn comment_keeps_carriage_return() {
    assert_eq!(
        tokenize("x // note\ry"),
        Ok(vec![id("x"), Token::Comm(" note\r".to_string()), id("y")])
    );
}

#[test]
fn empty_comment() {
    assert_eq!(tokenize("//"), Ok(vec![Token::Comm("\n".to_string())]));
}

#[test]
fn unknown_punctuation_run_fails() {
    assert_eq!(tokenize("a @ b"), Err(LexError::Lexical));
}

#[test]
fn comment_opener_glued_to_more_punctuation_fails() {
    assert_eq!(tokenize("1 //= 2"), Err(LexError::Lexical));
}

#[test]
fn unclassified_character_fails() {
    assert_eq!(tokenize("\u{1}"), Err(LexError::Lexical));
}

#[test]
fn empty_input_gives_no_tokens() {
    assert_eq!(tokenize(""), Ok(vec![]));
}

#[test]
fn glued_literal_and_operator() {
    assert_eq!(
        tokenize("1+2"),
        Ok(vec![lit("1"), Token::Op(Op::Plus), lit("2")])
    );
}

#[test]
fn operator_priorities() {
    assert_eq!(Op::Assign.priority(), 0);
    assert_eq!(Op::Eq.priority(), 1);
    assert_eq!(Op::Ne.priority(), 1);
    assert_eq!(Op::Lt.priority(), 1);
    assert_eq!(Op::Gt.priority(), 1);
    assert_eq!(Op::Le.priority(), 1);
    assert_eq!(Op::Ge.priority(), 1);
    assert_eq!(Op::Plus.priority(), 2);
    assert_eq!(Op::Minus.priority(), 2);
    assert_eq!(Op::Or.priority(), 2);
    assert_eq!(Op::Xor.priority(), 2);
    assert_eq!(Op::Mult.priority(), 3);
    assert_eq!(Op::Div.priority(), 3);
    assert_eq!(Op::And.priority(), 3);
    assert_eq!(Op::Not.priority(), 4);
}
