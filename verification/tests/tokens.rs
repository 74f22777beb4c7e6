use code_tokens::lexer::{code_to_tokens, partition_string};
use code_tokens::render::tokens_to_string;
use code_tokens::template::text_to_tokens;
use code_tokens::token::Token;

#[test]
fn text_to_tokens_returns_empty_tokens_for_empty_string() {
    assert_eq!(text_to_tokens("").len(), 0);
}

#[test]
fn text_to_tokens_returns_function_tokens() {
    let tokens: Vec<String> = text_to_tokens("create function foo")
        .iter()
        .map(|tok: &Token| tok.to_string())
        .collect();
    assert_eq!(vec!["fn", " ", "foo", "(", ")", " ", "{", "\n", "}"], tokens);
}

#[test]
fn tokens_to_string_returns_empty_string_for_empty_tokens() {
    let ref tokens: Vec<Token> = Vec::new();
    assert_eq!(tokens_to_string(tokens), "");
}

#[test]
fn tokens_to_string_returns_tokens_representation() {
    let ref tokens: Vec<Token> = vec![
        Token::new("fn"),
        Token::new(" "),
        Token::new("main"),
        Token::new("("),
        Token::new(")"),
        Token::new(" "),
        Token::new("{"),
        Token::new("\n"),
        Token::new("}"),
    ];
    assert_eq!(tokens_to_string(tokens), "fn main() {\n}");
}

#[test]
fn partition_string_returns_empty_vector_for_empty_string() {
    assert_eq!(partition_string("").len(), 0);
}

#[test]
fn partition_string_returns_partitioned_string() {
    assert_eq!(
        partition_string("(test){ }"),
        vec!["(", "test", ")", "{", " ", "}"]
    );
}

#[test]
fn partition_string_should_handle_string_with_separators_only() {
    assert_eq!(partition_string("   "), vec![" ", " ", " "]);
}

#[test]
fn partition_string_should_handle_utf8_string() {
    assert_eq!(
        partition_string(&"忠犬ハチ公 (忠犬ハチ公)".to_string()),
        vec!["忠犬ハチ公", " ", "(", "忠犬ハチ公", ")"]
    );
}

#[test]
fn code_to_tokens_returns_empty_tokens_for_empty_code() {
    assert_eq!(code_to_tokens("").len(), 0);
}

#[test]
fn code_to_tokens_returns_function_tokens() {
    let expected: Vec<Token> = vec![
        Token::new("fn"),
        Token::new(" "),
        Token::new("test"),
        Token::new("("),
        Token::new(")"),
        Token::new(" "),
        Token::new("{"),
        Token::new("\n"),
        Token::new("}"),
    ];
    let tokens: Vec<Token> = code_to_tokens("fn test() {\n}");

    assert_eq!(expected, tokens);
}

#[test]
fn render_of_segmentation_reproduces_the_input() {
    let inputs = [
        "",
        "fn main() {\n}",
        "(test){ }",
        "   ",
        "忠犬ハチ公 (忠犬ハチ公)",
        "{{{}}}",
        "no separators here?no:yes",
        "\tmixed \u{3000}spaces\u{a0}and(delims)",
        "(",
        "ends with run",
        "{starts}",
    ];
    for input in inputs {
        assert_eq!(tokens_to_string(&code_to_tokens(input)), input);
    }
}

#[test]
fn text_to_tokens_rejects_wrong_keyword() {
    assert_eq!(text_to_tokens("create class foo").len(), 0);
}

#[test]
fn text_to_tokens_rejects_wrong_part_count() {
    assert_eq!(text_to_tokens("create function").len(), 0);
    assert_eq!(text_to_tokens("create function foo bar").len(), 0);
    assert_eq!(text_to_tokens("create  function foo").len(), 0);
    assert_eq!(text_to_tokens("create function foo ").len(), 0);
    assert_eq!(text_to_tokens(" create function foo").len(), 0);
}

#[test]
fn text_to_tokens_takes_the_name_verbatim() {
    let tokens: Vec<String> = text_to_tokens("create function 1+1")
        .iter()
        .map(|tok: &Token| tok.to_string())
        .collect();
    assert_eq!(vec!["fn", " ", "1+1", "(", ")", " ", "{", "\n", "}"], tokens);
}

#[test]
fn partition_string_keeps_leading_and_trailing_separators_alone() {
    assert_eq!(partition_string("(a"), vec!["(", "a"]);
    assert_eq!(partition_string("a)"), vec!["a", ")"]);
    assert_eq!(partition_string("\na\t"), vec!["\n", "a", "\t"]);
}

#[test]
fn partition_string_keeps_a_run_without_separators_whole() {
    assert_eq!(partition_string("abc"), vec!["abc"]);
}

#[test]
fn partition_string_treats_every_whitespace_scalar_as_separator() {
    assert_eq!(
        partition_string("a\u{3000}b\u{a0}c"),
        vec!["a", "\u{3000}", "b", "\u{a0}", "c"]
    );
}

#[test]
fn tokens_are_equal_exactly_when_their_texts_are() {
    assert_eq!(Token::new("abc"), Token::new("abc"));
    assert_ne!(Token::new("abc"), Token::new("abd"));
    assert_eq!(Token::new("").to_string(), "");
    assert_eq!(Token::new("忠犬").to_string(), "忠犬");
}
