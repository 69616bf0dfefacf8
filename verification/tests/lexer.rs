use fgrs::parser::SimpleLexer;
use fgrs::parser::Token;

fn lex_all(text: &str) -> Vec<Token<String, String>> {
    let mut lexer = SimpleLexer::new(text.chars().collect());
    let mut tokens = Vec::new();
    while let Some(t) = lexer.next() {
        tokens.push(t);
    }
    tokens
}

#[test]
fn test_lex_words_and_operators() {
    assert_eq!(
        lex_all("x : Add y z"),
        vec![
            Token::NodeId("x".to_string()),
            Token::Colon,
            Token::Symbol("Add".to_string()),
            Token::NodeId("y".to_string()),
            Token::NodeId("z".to_string()),
        ]
    );
}

#[test]
fn test_lex_operator_ending_a_word() {
    // The colon ends the word without any whitespace; the held-back
    // operator token comes out on the following call.
    assert_eq!(
        lex_all("x: Zero"),
        vec![
            Token::NodeId("x".to_string()),
            Token::Colon,
            Token::Symbol("Zero".to_string()),
        ]
    );
}

#[test]
fn test_lex_arrow_and_redirect() {
    assert_eq!(
        lex_all("-> x := z _"),
        vec![
            Token::ArrowShaft,
            Token::ArrowTip,
            Token::NodeId("x".to_string()),
            Token::Colon,
            Token::Redirect,
            Token::NodeId("z".to_string()),
            Token::Empty,
        ]
    );
}

#[test]
fn test_lex_parens_and_trailing_word() {
    // A word at the very end of the input, with no trailing
    // whitespace, is still handed out.
    assert_eq!(
        lex_all("(Cons a)"),
        vec![
            Token::Open,
            Token::Symbol("Cons".to_string()),
            Token::NodeId("a".to_string()),
            Token::Close,
        ]
    );
}

#[test]
fn test_lex_empty_input() {
    assert_eq!(lex_all(""), vec![]);
    assert_eq!(lex_all("   \n\t"), vec![]);
}

#[test]
fn test_lex_uppercase_inside_word() {
    // Only the first character decides between symbol and node id.
    assert_eq!(
        lex_all("aBc Abc"),
        vec![
            Token::NodeId("aBc".to_string()),
            Token::Symbol("Abc".to_string()),
        ]
    );
}
