use pysdl_compiler::tokenizer::{scan, tokenize};
use pysdl_compiler::types::TokenType;

#[test]
fn test_basic_tokenization() {
    let code = "x = 10\n";
    let tokens = tokenize(code);
    assert_eq!(tokens.len(), 4);
    assert_eq!(tokens[0].value, "x");
    assert_eq!(tokens[1].value, "=");
    assert_eq!(tokens[2].value, "10");
}

#[test]
fn test_sdl2_keyword() {
    let code = "sdl2.init()\n";
    let tokens = tokenize(code);
    assert!(tokens.iter().any(|t| t.value == "sdl2."));
}

#[test]
fn assignment_token_kinds() {
    let tokens = tokenize("x = 10\n");
    let kinds: Vec<TokenType> = tokens.iter().map(|t| t.token_type).collect();
    assert_eq!(kinds, vec![TokenType::Identifier, TokenType::Symbol, TokenType::Number, TokenType::Eol]);
    assert_eq!(tokens[3].value, "\n");
}

#[test]
fn runtime_prefix_is_first_token() {
    let tokens = tokenize("sdl2.display.flip()\n");
    assert_eq!(tokens[0].token_type, TokenType::Keyword);
    assert_eq!(tokens[0].value, "sdl2.");
    assert_eq!(tokens[1].value, "display");
}

#[test]
fn empty_text_has_no_tokens() {
    assert!(tokenize("").is_empty());
}

#[test]
fn blank_lines_still_end() {
    let tokens = tokenize("\n\n");
    assert_eq!(tokens.len(), 2);
    assert!(tokens.iter().all(|t| t.token_type == TokenType::Eol));
}

#[test]
fn last_line_without_newline_ends() {
    let tokens = tokenize("a\r\nb");
    let values: Vec<&str> = tokens.iter().map(|t| t.value.as_str()).collect();
    assert_eq!(values, vec!["a", "\n", "b", "\n"]);
}

#[test]
fn comment_runs_to_line_end() {
    let tokens = tokenize("x = 1 # note, here\n");
    assert_eq!(tokens[3].token_type, TokenType::Comment);
    assert_eq!(tokens[3].value, "# note, here");
    assert_eq!(tokens[4].token_type, TokenType::Eol);
}

#[test]
fn keyword_needs_word_boundary() {
    let tokens = tokenize("iffy = true\n");
    assert_eq!(tokens[0].token_type, TokenType::Identifier);
    assert_eq!(tokens[0].value, "iffy");
    assert_eq!(tokens[2].token_type, TokenType::Keyword);
    assert_eq!(tokens[2].value, "true");
}

#[test]
fn while_and_if_are_keywords() {
    let tokens = tokenize("while (x)\nif y\n");
    assert_eq!(tokens[0].token_type, TokenType::Keyword);
    assert_eq!(tokens[0].value, "while");
    let at_if = tokens.iter().position(|t| t.value == "if").unwrap();
    assert_eq!(tokens[at_if].token_type, TokenType::Keyword);
}

#[test]
fn string_literal_with_escape() {
    let tokens = tokenize("s = \"a\\\"b\" + 1\n");
    assert_eq!(tokens[2].token_type, TokenType::String);
    assert_eq!(tokens[2].value, "\"a\\\"b\"");
    assert_eq!(tokens[3].value, "+");
}

#[test]
fn unterminated_string_is_not_a_string() {
    let tokens = tokenize("\"abc\n");
    assert!(tokens.iter().all(|t| t.token_type != TokenType::String));
    assert_eq!(tokens[0].value, "abc");
}

#[test]
fn floor_division_is_one_symbol() {
    let tokens = tokenize("a // 2\n");
    assert_eq!(tokens[1].token_type, TokenType::Symbol);
    assert_eq!(tokens[1].value, "//");
    assert_eq!(tokens.len(), 4);
}

#[test]
fn number_then_identifier() {
    let tokens = tokenize("12ab\n");
    assert_eq!(tokens[0].token_type, TokenType::Number);
    assert_eq!(tokens[0].value, "12");
    assert_eq!(tokens[1].token_type, TokenType::Identifier);
    assert_eq!(tokens[1].value, "ab");
}

#[test]
fn unrecognised_character_warns() {
    let (tokens, warnings) = scan("x = 1 $\ny ? 2\n");
    assert_eq!(tokens.len(), 7);
    assert_eq!(warnings.len(), 2);
    assert_eq!((warnings[0].line, warnings[0].column, warnings[0].character), (1, 7, '$'));
    assert_eq!((warnings[1].line, warnings[1].column, warnings[1].character), (2, 3, '?'));
}

#[test]
fn non_ascii_string_keeps_columns() {
    let (tokens, warnings) = scan("s = \"añ\" $\n");
    assert_eq!(tokens[2].value, "\"añ\"");
    assert_eq!(warnings[0].column, 10);
}

#[test]
fn underscore_continues_a_keyword_word() {
    let tokens = tokenize("true_x = 1\n");
    assert_eq!(tokens[0].token_type, TokenType::Identifier);
    assert_eq!(tokens[0].value, "true_x");
    assert_eq!(tokens.len(), 4);
}

#[test]
fn non_ascii_letter_ends_a_keyword() {
    let (tokens, warnings) = scan("ifé\n");
    assert_eq!(tokens[0].token_type, TokenType::Keyword);
    assert_eq!(tokens[0].value, "if");
    assert_eq!(warnings.len(), 1);
    assert_eq!(warnings[0].character, 'é');
}

#[test]
fn unicode_space_is_skipped() {
    let (tokens, warnings) = scan("a\u{3000}b\n");
    assert!(warnings.is_empty());
    assert_eq!(tokens.len(), 3);
}
