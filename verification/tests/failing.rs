use lolcompiler::lexer::{LexError, LexErrorKind, Token};
use lolcompiler::parser::{ParseError, Parser, SyntaxAnalyzer};
use lolcompiler::{compile, CompileError};

fn text(s: &str) -> Token {
    Token::Text(s.to_string())
}

fn fails(source: &str) -> ParseError {
    match compile(source) {
        Err(CompileError::Parse(e)) => e,
        other => panic!("expected a failure of the grammar, got {:?}", other),
    }
}

fn rejects(tokens: Vec<Token>) -> ParseError {
    let mut parser = Parser::new(tokens);
    let error = parser.parse().unwrap_err();
    assert_eq!(parser.output(), "");
    error
}

#[test]
fn lexical_error_stops_the_compilation() {
    assert_eq!(
        compile("#HAI\n#WAT\n#KTHXBYE"),
        Err(CompileError::Lex(LexError {
            kind: LexErrorKind::UnknownAnnotation("WAT".to_string()),
            line: 2
        }))
    );
}

#[test]
fn unclosed_comment_fails() {
    assert_eq!(fails("#HAI #OBTW never closed #KTHXBYE"), ParseError::UnclosedComment);
    assert_eq!(fails("#HAI text #OBTW"), ParseError::UnclosedComment);
    assert_eq!(rejects(vec![Token::Hai, Token::Obtw, Token::Kthxbye]), ParseError::UnclosedComment);
}

#[test]
fn second_definition_fails() {
    assert_eq!(
        fails("#HAI #I HAZ a #IT IZ 1 #MKAY #I HAZ a #IT IZ 2 #MKAY #KTHXBYE"),
        ParseError::AlreadyDefined { name: "a ".to_string() }
    );
    assert_eq!(
        fails("#HAI #I HAZ a #IT IZ 1 #MKAY some text #I HAZ a #IT IZ 1 #MKAY #KTHXBYE"),
        ParseError::AlreadyDefined { name: "a ".to_string() }
    );
}

#[test]
fn undefined_use_fails() {
    assert_eq!(
        fails("#HAI #LEMME SEE ghost #MKAY #KTHXBYE"),
        ParseError::Undefined { name: "ghost ".to_string() }
    );
    assert_eq!(
        fails("#HAI #LEMME SEE a #MKAY #I HAZ a #IT IZ 1 #MKAY #KTHXBYE"),
        ParseError::Undefined { name: "a ".to_string() }
    );
}

#[test]
fn empty_list_fails() {
    assert_eq!(fails("#HAI #MAEK LIST #OIC #KTHXBYE"), ParseError::EmptyList);
    assert_eq!(fails("#HAI #MAEK LIST #OBTW c #TLDR #OIC #KTHXBYE"), ParseError::EmptyList);
    assert_eq!(fails("#HAI #MAEK PARAGRAF #MAEK LIST #OIC #OIC #KTHXBYE"), ParseError::EmptyList);
}

#[test]
fn missing_markers_are_reported_with_what_was_found() {
    assert_eq!(
        rejects(vec![]),
        ParseError::Expected { expected: Token::Hai, found: None }
    );
    assert_eq!(
        rejects(vec![Token::Kthxbye]),
        ParseError::Expected { expected: Token::Hai, found: Some(Token::Kthxbye) }
    );
    assert_eq!(
        fails("#HAI #GIMMEH BOLD b #OIC #KTHXBYE"),
        ParseError::Expected { expected: Token::Mkay, found: Some(Token::Oic) }
    );
    assert_eq!(
        fails("#HAI #MAEK LIST #GIMMEH BOLD b #MKAY #OIC #KTHXBYE"),
        ParseError::Expected { expected: Token::Item, found: Some(Token::Bold) }
    );
    assert_eq!(
        fails("#HAI #MAEK LIST #GIMMEH ITEM a #MKAY #KTHXBYE"),
        ParseError::Expected { expected: Token::Oic, found: Some(Token::Kthxbye) }
    );
    assert_eq!(
        fails("#HAI #I HAZ a #MKAY"),
        ParseError::Expected { expected: Token::ItIz, found: Some(Token::Mkay) }
    );
    assert_eq!(
        fails("#HAI #MAEK LIST #GIMMEH ITEM a #OIC"),
        ParseError::Expected { expected: Token::Mkay, found: Some(Token::Oic) }
    );
}

#[test]
fn content_after_the_end_fails() {
    assert_eq!(
        fails("#HAI #KTHXBYE more"),
        ParseError::TrailingContent { token: text("more") }
    );
    assert_eq!(
        fails("#HAI #KTHXBYE #KTHXBYE"),
        ParseError::TrailingContent { token: Token::Kthxbye }
    );
}

#[test]
fn body_that_does_not_end_fails() {
    assert_eq!(fails("#HAI"), ParseError::UnexpectedInBody { found: None });
    assert_eq!(fails("#HAI some text"), ParseError::UnexpectedInBody { found: None });
}

#[test]
fn comment_right_before_the_end_fails() {
    assert_eq!(
        fails("#HAI text #OBTW c #TLDR #KTHXBYE"),
        ParseError::UnexpectedInBody { found: Some(Token::Kthxbye) }
    );
}

#[test]
fn tokens_that_start_nothing_in_the_body_fail() {
    assert_eq!(fails("#HAI #OIC"), ParseError::UnexpectedInBody { found: Some(Token::Oic) });
    assert_eq!(fails("#HAI #MKAY"), ParseError::UnexpectedInBody { found: Some(Token::Mkay) });
    assert_eq!(fails("#HAI #HAI"), ParseError::UnexpectedInBody { found: Some(Token::Hai) });
    assert_eq!(fails("#HAI #IT IZ"), ParseError::UnexpectedInBody { found: Some(Token::ItIz) });
    assert_eq!(fails("#HAI #TLDR"), ParseError::UnexpectedInBody { found: Some(Token::Tldr) });
    assert_eq!(
        rejects(vec![Token::Hai, Token::VarDef("x".to_string())]),
        ParseError::UnexpectedInBody { found: Some(Token::VarDef("x".to_string())) }
    );
    assert_eq!(
        rejects(vec![Token::Hai, Token::I]),
        ParseError::UnexpectedInBody { found: Some(Token::I) }
    );
}

#[test]
fn block_opener_needs_a_block() {
    assert_eq!(
        fails("#HAI #MAEK #KTHXBYE"),
        ParseError::ExpectedBlock { found: Some(Token::Kthxbye) }
    );
    assert_eq!(fails("#HAI #MAEK"), ParseError::ExpectedBlock { found: None });
    assert_eq!(
        fails("#HAI text #MAEK HEAD #OIC #KTHXBYE"),
        ParseError::ExpectedBlock { found: Some(Token::Head) }
    );
}

#[test]
fn head_needs_exactly_a_title() {
    assert_eq!(
        fails("#HAI #MAEK HEAD #OIC #KTHXBYE"),
        ParseError::Expected { expected: Token::Gimmeh, found: Some(Token::Oic) }
    );
    assert_eq!(
        fails("#HAI #MAEK HEAD #GIMMEH BOLD x #MKAY #OIC #KTHXBYE"),
        ParseError::Expected { expected: Token::Title, found: Some(Token::Bold) }
    );
    assert_eq!(fails("#HAI #MAEK HEAD #GIMMEH TITLE #MKAY #OIC #KTHXBYE"), ParseError::TitleWithoutText);
    assert_eq!(
        fails("#HAI #MAEK HEAD #GIMMEH TITLE a #MKAY #GIMMEH TITLE b #MKAY #OIC #KTHXBYE"),
        ParseError::Expected { expected: Token::Oic, found: Some(Token::Gimmeh) }
    );
}

#[test]
fn inline_opener_in_the_body_needs_an_element() {
    assert_eq!(
        fails("#HAI #GIMMEH ITEM x #MKAY #KTHXBYE"),
        ParseError::UnexpectedElementInBody { found: Some(Token::Item) }
    );
    assert_eq!(
        fails("#HAI #GIMMEH TITLE x #MKAY #KTHXBYE"),
        ParseError::UnexpectedElementInBody { found: Some(Token::Title) }
    );
    assert_eq!(
        rejects(vec![Token::Hai, Token::Gimmeh]),
        ParseError::UnexpectedElementInBody { found: None }
    );
}

#[test]
fn paragraph_failures() {
    assert_eq!(
        fails("#HAI #MAEK PARAGRAF #GIMMEH ITEM x #MKAY #OIC #KTHXBYE"),
        ParseError::UnexpectedElementInParagraph { found: Some(Token::Item) }
    );
    assert_eq!(
        fails("#HAI #MAEK PARAGRAF #MAEK PARAGRAF #OIC #OIC #KTHXBYE"),
        ParseError::ExpectedListInParagraph { found: Some(Token::Paragraf) }
    );
    assert_eq!(
        fails("#HAI #MAEK PARAGRAF #I HAZ a #IT IZ b #MKAY #OIC #KTHXBYE"),
        ParseError::DefinitionInParagraph
    );
    assert_eq!(
        rejects(vec![Token::Hai, Token::Maek, Token::Paragraf, Token::I, Token::Oic, Token::Kthxbye]),
        ParseError::DefinitionInParagraph
    );
    assert_eq!(
        fails("#HAI #MAEK PARAGRAF text #KTHXBYE"),
        ParseError::UnexpectedInParagraph { found: Some(Token::Kthxbye) }
    );
    assert_eq!(
        fails("#HAI #MAEK PARAGRAF text"),
        ParseError::UnexpectedInParagraph { found: None }
    );
    assert_eq!(
        fails("#HAI #MAEK PARAGRAF text #OBTW c #TLDR #OIC #KTHXBYE"),
        ParseError::UnexpectedInParagraph { found: Some(Token::Oic) }
    );
}

#[test]
fn definition_failures() {
    assert_eq!(fails("#HAI #I HAZ #IT IZ v #MKAY #KTHXBYE"), ParseError::MissingDefinitionName);
    assert_eq!(fails("#HAI #I HAZ n #IT IZ #MKAY #KTHXBYE"), ParseError::MissingDefinitionValue);
    assert_eq!(fails("#HAI #I HAZ"), ParseError::MissingDefinitionName);
    assert_eq!(
        fails("#HAI #I HAZ n #IT IZ v #KTHXBYE"),
        ParseError::Expected { expected: Token::Mkay, found: Some(Token::Kthxbye) }
    );
}

#[test]
fn use_failures() {
    assert_eq!(fails("#HAI #LEMME SEE #MKAY #KTHXBYE"), ParseError::MissingUseName);
    assert_eq!(
        fails("#HAI #LEMME SEE n #KTHXBYE"),
        ParseError::Expected { expected: Token::Mkay, found: Some(Token::Kthxbye) }
    );
}

#[test]
fn syntax_is_checked_before_the_namespace() {
    assert_eq!(
        fails("#HAI #I HAZ a #IT IZ 1 #MKAY #I HAZ a #IT IZ 2 #OIC"),
        ParseError::Expected { expected: Token::Mkay, found: Some(Token::Oic) }
    );
}

#[test]
fn list_item_takes_only_bold_and_italics() {
    assert_eq!(
        fails("#HAI #MAEK LIST #GIMMEH ITEM #GIMMEH NEWLINE #MKAY #OIC #KTHXBYE"),
        ParseError::UnexpectedElementInItem { found: Some(Token::Newline) }
    );
    assert_eq!(
        fails("#HAI #MAEK LIST #GIMMEH ITEM #GIMMEH SOUNDZ a #MKAY #MKAY #OIC #KTHXBYE"),
        ParseError::UnexpectedElementInItem { found: Some(Token::Soundz("a".to_string())) }
    );
    assert_eq!(
        fails("#HAI #MAEK LIST #GIMMEH ITEM #MAEK LIST #GIMMEH ITEM #MKAY #OIC #MKAY #OIC #KTHXBYE"),
        ParseError::Expected { expected: Token::Mkay, found: Some(Token::Maek) }
    );
}

#[test]
fn rules_applied_in_the_wrong_place_fail() {
    let mut parser = Parser::new(vec![Token::Hai]);
    assert_eq!(parser.parse_audio(), Err(ParseError::NotAtSoundz));
    assert_eq!(parser.parse_video(), Err(ParseError::NotAtVidz));
    assert_eq!(parser.parse_inner_text(), Err(ParseError::NotAtText));
    assert_eq!(
        parser.parse_newline(),
        Err(ParseError::Expected { expected: Token::Newline, found: Some(Token::Hai) })
    );
    assert_eq!(parser.parse_list_items(), Err(ParseError::EmptyList));
}

#[test]
fn failure_discards_what_was_written() {
    let mut parser = Parser::new(vec![
        Token::Hai,
        text("written"),
        Token::Maek,
        Token::Paragraf,
        text("more"),
        Token::Kthxbye,
    ]);
    assert_eq!(
        parser.parse(),
        Err(ParseError::UnexpectedInParagraph { found: Some(Token::Kthxbye) })
    );
    assert_eq!(parser.output(), "");
    assert_eq!(parser.into_output(), "");
}
