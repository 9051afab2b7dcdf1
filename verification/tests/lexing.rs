use lolcompiler::lexer::{
    alias, annotation, element, is_annotation, LexError, LexErrorKind, Lexer, LexicalAnalyzer,
    Token,
};
use lolcompiler::scan::{Alias, Annotation, Element};

fn text(s: &str) -> Token {
    Token::Text(s.to_string())
}

fn lex(source: &str) -> Result<Vec<Token>, LexError> {
    Lexer::new(source).lex()
}

#[test]
fn test_trait_basic_program() {
    let source = "#HAI\n#KTHXBYE";
    let mut lexer = Lexer::new(source);

    let actual_tokens = lexer.lex().unwrap();

    let expected_tokens = vec![Token::Hai, Token::Kthxbye];

    assert_eq!(actual_tokens, expected_tokens);
}

#[test]
fn test_complex_inline_text() {
    let source = "#MAEK PARAGRAF Sample text #OIC";
    let mut lexer = Lexer::new(source);

    let actual_tokens = lexer.lex().unwrap();

    let expected_tokens = vec![
        Token::Maek,
        Token::Paragraf,
        Token::Text("Sample text ".to_string()),
        Token::Oic,
    ];

    assert_eq!(actual_tokens, expected_tokens);
}

#[test]
fn variable_definition_is_keywords_and_text() {
    let tokens = lex("#I HAZ myvar #IT IZ 42 #MKAY").unwrap();
    assert_eq!(tokens, vec![Token::IHaz, text("myvar "), Token::ItIz, text("42 "), Token::Mkay]);
}

#[test]
fn empty_source_has_no_tokens() {
    assert_eq!(lex("").unwrap(), Vec::<Token>::new());
    assert_eq!(lex(" \n\t ").unwrap(), Vec::<Token>::new());
}

#[test]
fn every_plain_annotation_is_one_token() {
    let tokens = lex("#HAI #KTHXBYE #OBTW #TLDR #MAEK #OIC #MKAY #HEAD #PARAGRAF #LIST").unwrap();
    assert_eq!(
        tokens,
        vec![
            Token::Hai,
            Token::Kthxbye,
            Token::Obtw,
            Token::Tldr,
            Token::Maek,
            Token::Oic,
            Token::Mkay,
            Token::Head,
            Token::Paragraf,
            Token::List,
        ]
    );
}

#[test]
fn annotations_are_read_in_any_case() {
    assert_eq!(lex("#hai #KthxBye").unwrap(), vec![Token::Hai, Token::Kthxbye]);
    assert_eq!(lex("#gimmeh item").unwrap(), vec![Token::Gimmeh, Token::Item]);
    assert_eq!(lex("#i haz").unwrap(), vec![Token::IHaz]);
}

#[test]
fn annotation_ends_at_the_next_hash() {
    assert_eq!(lex("#HAI#KTHXBYE").unwrap(), vec![Token::Hai, Token::Kthxbye]);
}

#[test]
fn two_word_keywords_are_one_token_each() {
    assert_eq!(
        lex("#I HAZ #IT IZ #LEMME SEE").unwrap(),
        vec![Token::IHaz, Token::ItIz, Token::LemmeSee]
    );
    assert_eq!(lex("#I\n\n  haz").unwrap(), vec![Token::IHaz]);
}

#[test]
fn bare_block_keywords_are_tokens() {
    assert_eq!(
        lex("PARAGRAF list Head").unwrap(),
        vec![Token::Paragraf, Token::List, Token::Head]
    );
}

#[test]
fn bare_word_starts_text_up_to_the_next_hash() {
    assert_eq!(lex("one two\nthree #OIC").unwrap(), vec![text("one two\nthree "), Token::Oic]);
    assert_eq!(lex("  lead").unwrap(), vec![text("lead")]);
    assert_eq!(lex("a PARAGRAF b#").is_err(), true);
    assert_eq!(lex("a PARAGRAF b").unwrap(), vec![text("a PARAGRAF b")]);
}

#[test]
fn styles_are_followed_by_their_text() {
    assert_eq!(
        lex("#GIMMEH BOLD   very bold #MKAY").unwrap(),
        vec![Token::Gimmeh, Token::Bold, text("very bold "), Token::Mkay]
    );
    assert_eq!(
        lex("#GIMMEH ITALICS x#MKAY").unwrap(),
        vec![Token::Gimmeh, Token::Italics, text("x"), Token::Mkay]
    );
    assert_eq!(
        lex("#GIMMEH TITLE My page #MKAY").unwrap(),
        vec![Token::Gimmeh, Token::Title, text("My page "), Token::Mkay]
    );
}

#[test]
fn style_without_text_has_no_text_token() {
    assert_eq!(
        lex("#GIMMEH BOLD #MKAY").unwrap(),
        vec![Token::Gimmeh, Token::Bold, Token::Mkay]
    );
    assert_eq!(lex("#GIMMEH BOLD").unwrap(), vec![Token::Gimmeh, Token::Bold]);
}

#[test]
fn text_after_a_style_may_hold_keywords() {
    assert_eq!(
        lex("#GIMMEH BOLD PARAGRAF #MKAY").unwrap(),
        vec![Token::Gimmeh, Token::Bold, text("PARAGRAF "), Token::Mkay]
    );
}

#[test]
fn media_carry_one_word() {
    assert_eq!(
        lex("#GIMMEH SOUNDZ http://a/b.mp3 #MKAY").unwrap(),
        vec![Token::Gimmeh, Token::Soundz("http://a/b.mp3".to_string()), Token::Mkay]
    );
    assert_eq!(
        lex("#GIMMEH VIDZ   v.example/x#MKAY").unwrap(),
        vec![Token::Gimmeh, Token::Vidz("v.example/x".to_string()), Token::Mkay]
    );
    assert_eq!(
        lex("#GIMMEH SOUNDZ #MKAY").unwrap(),
        vec![Token::Gimmeh, Token::Soundz(String::new()), Token::Mkay]
    );
}

#[test]
fn item_and_newline_carry_nothing() {
    assert_eq!(
        lex("#GIMMEH ITEM one #MKAY #GIMMEH NEWLINE").unwrap(),
        vec![Token::Gimmeh, Token::Item, text("one "), Token::Mkay, Token::Gimmeh, Token::Newline]
    );
}

#[test]
fn unknown_annotation_names_the_word_and_the_line() {
    assert_eq!(
        lex("#HAI\n\n#Nope more"),
        Err(LexError { kind: LexErrorKind::UnknownAnnotation("Nope".to_string()), line: 3 })
    );
    assert_eq!(
        lex("# x"),
        Err(LexError { kind: LexErrorKind::UnknownAnnotation(String::new()), line: 1 })
    );
}

#[test]
fn broken_two_word_keywords_fail() {
    assert_eq!(lex("#I HAS x"), Err(LexError { kind: LexErrorKind::ExpectedHaz, line: 1 }));
    assert_eq!(lex("\n#IT\nWAS x"), Err(LexError { kind: LexErrorKind::ExpectedIz, line: 3 }));
    assert_eq!(lex("#LEMME"), Err(LexError { kind: LexErrorKind::ExpectedSee, line: 1 }));
    assert_eq!(lex("#LEMME #SEE"), Err(LexError { kind: LexErrorKind::ExpectedSee, line: 1 }));
}

#[test]
fn unknown_gimmeh_names_the_word_in_upper_case() {
    assert_eq!(
        lex("a\n#GIMMEH blink x"),
        Err(LexError { kind: LexErrorKind::UnknownGimmeh("BLINK".to_string()), line: 2 })
    );
    assert_eq!(
        lex("#GIMMEH\n"),
        Err(LexError { kind: LexErrorKind::UnknownGimmeh(String::new()), line: 2 })
    );
}

#[test]
fn lexer_counts_lines_and_ends_empty() {
    let mut lexer = Lexer::new("#HAI\nsome\ntext\n#KTHXBYE\n");
    assert_eq!(lexer.line, 1);
    let tokens = lexer.lex().unwrap();
    assert_eq!(tokens, vec![Token::Hai, text("some\ntext\n"), Token::Kthxbye]);
    assert_eq!(lexer.line, 5);
    assert_eq!(lexer.line_number(), 5);
    assert_eq!(lexer.get_char(), None);
    assert_eq!(lexer.lex().unwrap(), Vec::<Token>::new());
}

#[test]
fn failed_lexer_stays_where_it_failed() {
    let mut lexer = Lexer::new("#HAI\n#BAD rest");
    assert!(lexer.lex().is_err());
    assert_eq!(lexer.line, 2);
    assert_eq!(lexer.get_char(), Some(' '));
    assert_eq!(lexer.lex().unwrap(), vec![text("rest")]);
}

#[test]
fn get_char_reads_one_character() {
    let mut lexer = Lexer::new("a\nb");
    assert_eq!(lexer.get_char(), Some('a'));
    assert_eq!(lexer.line, 1);
    assert_eq!(lexer.get_char(), Some('\n'));
    assert_eq!(lexer.line, 2);
    lexer.add_char('q');
    assert_eq!(lexer.get_char(), Some('b'));
    assert_eq!(lexer.get_char(), None);
    assert_eq!(lexer.line, 2);
}

#[test]
fn lookup_knows_the_annotations() {
    let lexer = Lexer::new("");
    for name in [
        "#HAI", "#KTHXBYE", "#OBTW", "#TLDR", "#MAEK", "#OIC", "#MKAY", "#GIMMEH", "#I", "#IT",
        "#LEMME", "#HEAD", "#PARAGRAF", "#LIST",
    ] {
        assert!(lexer.lookup(name));
        assert!(lexer.lookup(&name.to_lowercase()));
        assert!(is_annotation(name));
    }
    assert!(!lexer.lookup("HAI"));
    assert!(!lexer.lookup("#BOLD"));
    assert!(!lexer.lookup(""));
    assert!(!is_annotation("#hai"));
}

#[test]
fn annotation_classifies_upper_case_cores() {
    assert_eq!(annotation("HAI"), Annotation::Hai);
    assert_eq!(annotation("KTHXBYE"), Annotation::Kthxbye);
    assert_eq!(annotation("OBTW"), Annotation::Obtw);
    assert_eq!(annotation("TLDR"), Annotation::Tldr);
    assert_eq!(annotation("MAEK"), Annotation::Maek);
    assert_eq!(annotation("OIC"), Annotation::Oic);
    assert_eq!(annotation("MKAY"), Annotation::Mkay);
    assert_eq!(annotation("GIMMEH"), Annotation::Gimmeh);
    assert_eq!(annotation("I"), Annotation::I);
    assert_eq!(annotation("IT"), Annotation::It);
    assert_eq!(annotation("LEMME"), Annotation::Lemme);
    assert_eq!(annotation("HEAD"), Annotation::Head);
    assert_eq!(annotation("PARAGRAF"), Annotation::Paragraf);
    assert_eq!(annotation("LIST"), Annotation::List);
    assert_eq!(annotation("hai"), Annotation::Unknown);
    assert_eq!(annotation(""), Annotation::Unknown);
    assert_eq!(annotation("BOLD"), Annotation::Unknown);
}

#[test]
fn element_classifies_upper_case_words() {
    assert_eq!(element("BOLD"), Element::Bold);
    assert_eq!(element("ITALICS"), Element::Italics);
    assert_eq!(element("TITLE"), Element::Title);
    assert_eq!(element("SOUNDZ"), Element::Soundz);
    assert_eq!(element("VIDZ"), Element::Vidz);
    assert_eq!(element("ITEM"), Element::Item);
    assert_eq!(element("NEWLINE"), Element::Newline);
    assert_eq!(element("bold"), Element::Unknown);
    assert_eq!(element("HAI"), Element::Unknown);
}

#[test]
fn alias_classifies_upper_case_words() {
    assert_eq!(alias("PARAGRAF"), Alias::Paragraf);
    assert_eq!(alias("LIST"), Alias::List);
    assert_eq!(alias("HEAD"), Alias::Head);
    assert_eq!(alias("Head"), Alias::Plain);
    assert_eq!(alias("TITLE"), Alias::Plain);
}

#[test]
fn extra_white_space_between_units_changes_no_token() {
    let tight = lex("#HAI#MAEK PARAGRAF Some text #GIMMEH BOLD b #MKAY#OIC#KTHXBYE").unwrap();
    let loose =
        lex("  #HAI \n\n #MAEK \t PARAGRAF   Some text #GIMMEH   BOLD   b #MKAY \n#OIC\n #KTHXBYE \n")
            .unwrap();
    assert_eq!(tight, loose);
    assert_eq!(lex("#I HAZ").unwrap(), lex("\u{2003}#I \u{a0}\r\n HAZ\u{3000}").unwrap());
}

#[test]
fn white_space_inside_text_is_kept() {
    assert_ne!(lex("a b#OIC").unwrap(), lex("a  b#OIC").unwrap());
    assert_ne!(lex("a#OIC").unwrap(), lex("a #OIC").unwrap());
}

#[test]
fn token_equality_compares_kind_and_payload() {
    assert_eq!(text("a"), text("a"));
    assert_ne!(text("a"), text("b"));
    assert_ne!(text("a"), Token::VarDef("a".to_string()));
    assert_ne!(Token::Soundz("a".to_string()), Token::Vidz("a".to_string()));
    assert_ne!(Token::I, Token::IHaz);
    assert_eq!(Token::VarVal("1".to_string()).duplicate(), Token::VarVal("1".to_string()));
}
