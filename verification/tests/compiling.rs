use lolcompiler::lexer::Token;
use lolcompiler::parser::{ParseError, Parser, SyntaxAnalyzer};
use lolcompiler::{compile, CompileError};

fn text(s: &str) -> Token {
    Token::Text(s.to_string())
}

fn parse(tokens: Vec<Token>) -> Result<String, ParseError> {
    let mut parser = Parser::new(tokens);
    parser.parse()?;
    Ok(parser.into_output())
}

fn page(body: &str) -> String {
    format!("<!DOCTYPE html>\n<html>\n<body>\n{}</body>\n</html>\n", body)
}

#[test]
fn smallest_document() {
    assert_eq!(compile("#HAI #KTHXBYE"), Ok(page("")));
    assert_eq!(parse(vec![Token::Hai, Token::Kthxbye]), Ok(page("")));
}

#[test]
fn paragraph_of_plain_text() {
    let html = compile("#HAI #MAEK PARAGRAF Sample text #OIC #KTHXBYE").unwrap();
    assert!(html.contains("<p>Sample text </p>"));
    assert_eq!(html, page("<p>Sample text </p>\n"));
}

#[test]
fn variable_is_written_where_it_is_used() {
    let html =
        compile("#HAI #I HAZ name #IT IZ value #MKAY before #LEMME SEE name #MKAY after #KTHXBYE")
            .unwrap();
    assert_eq!(html, page("before value after "));
}

#[test]
fn variable_in_a_paragraph() {
    let html = compile(
        "#HAI #I HAZ who #IT IZ world#MKAY #MAEK PARAGRAF hello #LEMME SEE who #MKAY #OIC #KTHXBYE",
    )
    .unwrap();
    assert_eq!(html, page("<p>hello world</p>\n"));
}

#[test]
fn names_are_compared_as_written() {
    assert_eq!(
        compile("#HAI #I HAZ name #IT IZ v #MKAY #LEMME SEE name#MKAY #KTHXBYE"),
        Err(CompileError::Parse(ParseError::Undefined { name: "name".to_string() }))
    );
}

#[test]
fn compile_is_repeatable() {
    let source = "#HAI #MAEK HEAD #GIMMEH TITLE t #MKAY #OIC #MAEK LIST #GIMMEH ITEM a #MKAY #OIC #KTHXBYE";
    assert_eq!(compile(source), compile(source));
    assert_eq!(compile("#HAI #NOPE"), compile("#HAI #NOPE"));
}

#[test]
fn head_with_title() {
    let html = compile("#HAI #MAEK HEAD #GIMMEH TITLE My page #MKAY #OIC #KTHXBYE").unwrap();
    assert_eq!(
        html,
        "<!DOCTYPE html>\n<html>\n<head>\n<title>My page </title>\n</head>\n<body>\n</body>\n</html>\n"
    );
}

#[test]
fn head_with_comments() {
    let html = compile(
        "#HAI #OBTW top #TLDR #MAEK HEAD #OBTW a #TLDR #GIMMEH TITLE T#MKAY #OBTW b #TLDR #OBTW c #TLDR #OIC #KTHXBYE",
    )
    .unwrap();
    assert_eq!(
        html,
        "<!DOCTYPE html>\n<html>\n<head>\n<title>T</title>\n</head>\n<body>\n</body>\n</html>\n"
    );
}

#[test]
fn block_at_the_top_that_is_no_head_belongs_to_the_body() {
    assert_eq!(
        parse(vec![Token::Hai, Token::Maek, Token::Paragraf, Token::Oic, Token::Kthxbye]),
        Ok(page("<p></p>\n"))
    );
    assert_eq!(
        compile("#HAI #MAEK LIST #GIMMEH ITEM x#MKAY #OIC #KTHXBYE"),
        Ok(page("<ul>\n<li>x</li>\n</ul>\n"))
    );
}

#[test]
fn comments_hide_every_token() {
    let html = compile("#HAI #OBTW #MAEK #I HAZ #GIMMEH BOLD x #KTHXBYE #OBTW #TLDR text #KTHXBYE");
    assert_eq!(html, Ok(page("text ")));
}

#[test]
fn inline_elements_in_the_body() {
    let html = compile(
        "#HAI #GIMMEH BOLD b #MKAY #GIMMEH ITALICS i#MKAY #GIMMEH NEWLINE #GIMMEH BOLD #MKAY #KTHXBYE",
    )
    .unwrap();
    assert_eq!(html, page("<b>b </b><i>i</i><br>\n<b></b>"));
}

#[test]
fn audio_and_video() {
    let html = compile(
        "#HAI #GIMMEH SOUNDZ http://x/a.mp3 #MKAY #MAEK PARAGRAF #GIMMEH VIDZ http://x/v #MKAY #OIC #KTHXBYE",
    )
    .unwrap();
    assert_eq!(
        html,
        page(
            "<audio controls><source src=\"http://x/a.mp3\" type=\"audio/mp3\"></audio>\n<p><iframe src=\"http://x/v\" frameborder=\"0\" allowfullscreen></iframe>\n</p>\n"
        )
    );
}

#[test]
fn paragraph_with_everything() {
    let html = compile(
        "#HAI #I HAZ v #IT IZ V#MKAY #MAEK PARAGRAF a #OBTW no #TLDR #GIMMEH BOLD b#MKAY #GIMMEH NEWLINE #LEMME SEE v #MKAY #MAEK LIST #GIMMEH ITEM i#MKAY #OIC z #OIC #KTHXBYE",
    )
    .unwrap();
    assert_eq!(html, page("<p>a <b>b</b><br>\nV<ul>\n<li>i</li>\n</ul>\nz </p>\n"));
}

#[test]
fn list_items_hold_text_bold_and_italics() {
    let html = compile(
        "#HAI #MAEK LIST #OBTW c #TLDR #GIMMEH ITEM one #GIMMEH BOLD two #MKAY three #GIMMEH ITALICS #MKAY #MKAY #OBTW c #TLDR #GIMMEH ITEM #MKAY #OIC #KTHXBYE",
    )
    .unwrap();
    assert_eq!(html, page("<ul>\n<li>one <b>two </b>three <i></i></li>\n<li></li>\n</ul>\n"));
}

#[test]
fn orphan_inline_tokens_in_the_body_are_passed_over() {
    assert_eq!(
        parse(vec![
            Token::Hai,
            Token::Bold,
            Token::Italics,
            Token::Soundz("a".to_string()),
            Token::Vidz("v".to_string()),
            Token::Newline,
            text("t"),
            Token::Kthxbye,
        ]),
        Ok(page("t"))
    );
}

#[test]
fn rules_can_be_driven_one_by_one() {
    let mut parser = Parser::new(vec![
        Token::Obtw,
        Token::Tldr,
        Token::Gimmeh,
        Token::Title,
        text("T"),
        Token::Mkay,
        Token::Bold,
        text("b"),
        Token::Mkay,
        Token::Italics,
        Token::Mkay,
        Token::Newline,
        text("plain"),
        Token::Soundz("s".to_string()),
        Token::Mkay,
        Token::Vidz("v".to_string()),
        Token::Mkay,
        Token::IHaz,
        text("n"),
        Token::ItIz,
        text("val"),
        Token::Mkay,
        Token::LemmeSee,
        text("n"),
        Token::Mkay,
        Token::List,
        Token::Gimmeh,
        Token::Item,
        Token::Mkay,
        Token::Oic,
        Token::Gimmeh,
        Token::Item,
        text("i"),
        Token::Mkay,
        Token::Paragraf,
        Token::Oic,
        text("x"),
        Token::Maek,
        Token::Head,
        Token::Gimmeh,
        Token::Title,
        text("H"),
        Token::Mkay,
        Token::Oic,
        text("y"),
        Token::Kthxbye,
    ]);
    assert_eq!(parser.parse_comment(), Ok(()));
    assert_eq!(parser.parse_title(), Ok(()));
    assert_eq!(parser.parse_bold(), Ok(()));
    assert_eq!(parser.parse_italics(), Ok(()));
    assert_eq!(parser.parse_newline(), Ok(()));
    assert_eq!(parser.parse_inner_text(), Ok(()));
    assert_eq!(parser.parse_audio(), Ok(()));
    assert_eq!(parser.parse_video(), Ok(()));
    assert_eq!(parser.parse_variable_define(), Ok(()));
    assert_eq!(parser.parse_variable_use(), Ok(()));
    assert_eq!(parser.parse_list(), Ok(()));
    assert_eq!(parser.parse_list_items(), Ok(()));
    assert_eq!(parser.parse_paragraph(), Ok(()));
    assert_eq!(parser.parse_inner_paragraph(), Ok(()));
    assert_eq!(parser.parse_head(), Ok(()));
    assert_eq!(parser.parse_body(), Ok(()));
    assert_eq!(
        parser.output(),
        "<title>T</title>\n<b>b</b><i></i><br>\nplain<audio controls><source src=\"s\" type=\"audio/mp3\"></audio>\n<iframe src=\"v\" frameborder=\"0\" allowfullscreen></iframe>\nval<ul>\n<li></li>\n</ul>\n<li>i</li>\n<p></p>\nx<head>\n<title>H</title>\n</head>\ny"
    );
    assert_eq!(
        parser.parse_lolcode(),
        Err(ParseError::Expected { expected: Token::Hai, found: Some(Token::Kthxbye) })
    );
    assert_eq!(parser.output(), "");
}

#[test]
fn inner_list_is_the_items_of_a_list() {
    let mut parser = Parser::new(vec![Token::Gimmeh, Token::Item, text("a"), Token::Mkay]);
    assert_eq!(parser.parse_inner_list(), Ok(()));
    assert_eq!(parser.output(), "<li>a</li>\n");
}
