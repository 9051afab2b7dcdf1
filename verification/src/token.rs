use vstd::prelude::*;
use vstd::std_specs::cmp::PartialEqSpecImpl;

verus! {

/// One element of the lexical vocabulary of a document.
///
/// Structural markers carry nothing; free text and the two media addresses
/// carry their characters.
#[derive(Debug, Clone)]
pub enum Token {
    Hai,
    Kthxbye,
    Obtw,
    Tldr,
    Maek,
    Oic,
    Gimmeh,
    Mkay,
    Head,
    Title,
    Paragraf,
    Bold,
    Italics,
    List,
    Item,
    Newline,
    Soundz(String),
    Vidz(String),
    IHaz,
    ItIz,
    LemmeSee,
    I,
    VarDef(String),
    VarVal(String),
    Text(String),
}

/// The mathematical value of a [`Token`]: the same vocabulary, with every
/// payload as a sequence of characters.
pub enum Lexeme {
    Hai,
    Kthxbye,
    Obtw,
    Tldr,
    Maek,
    Oic,
    Gimmeh,
    Mkay,
    Head,
    Title,
    Paragraf,
    Bold,
    Italics,
    List,
    Item,
    Newline,
    Soundz(Seq<char>),
    Vidz(Seq<char>),
    IHaz,
    ItIz,
    LemmeSee,
    I,
    VarDef(Seq<char>),
    VarVal(Seq<char>),
    Text(Seq<char>),
}

impl View for Token {
    type V = Lexeme;

    open spec fn view(&self) -> Lexeme {
        match self {
            Token::Hai => Lexeme::Hai,
            Token::Kthxbye => Lexeme::Kthxbye,
            Token::Obtw => Lexeme::Obtw,
            Token::Tldr => Lexeme::Tldr,
            Token::Maek => Lexeme::Maek,
            Token::Oic => Lexeme::Oic,
            Token::Gimmeh => Lexeme::Gimmeh,
            Token::Mkay => Lexeme::Mkay,
            Token::Head => Lexeme::Head,
            Token::Title => Lexeme::Title,
            Token::Paragraf => Lexeme::Paragraf,
            Token::Bold => Lexeme::Bold,
            Token::Italics => Lexeme::Italics,
            Token::List => Lexeme::List,
            Token::Item => Lexeme::Item,
            Token::Newline => Lexeme::Newline,
            Token::Soundz(s) => Lexeme::Soundz(s@),
            Token::Vidz(s) => Lexeme::Vidz(s@),
            Token::IHaz => Lexeme::IHaz,
            Token::ItIz => Lexeme::ItIz,
            Token::LemmeSee => Lexeme::LemmeSee,
            Token::I => Lexeme::I,
            Token::VarDef(s) => Lexeme::VarDef(s@),
            Token::VarVal(s) => Lexeme::VarVal(s@),
            Token::Text(s) => Lexeme::Text(s@),
        }
    }
}

impl PartialEq for Token {
    /// Two tokens are equal when they are the same marker, or the same kind
    /// of payload token with the same characters.
    fn eq(&self, other: &Token) -> (r: bool) {
        match (self, other) {
            (Token::Hai, Token::Hai) => true,
            (Token::Kthxbye, Token::Kthxbye) => true,
            (Token::Obtw, Token::Obtw) => true,
            (Token::Tldr, Token::Tldr) => true,
            (Token::Maek, Token::Maek) => true,
            (Token::Oic, Token::Oic) => true,
            (Token::Gimmeh, Token::Gimmeh) => true,
            (Token::Mkay, Token::Mkay) => true,
            (Token::Head, Token::Head) => true,
            (Token::Title, Token::Title) => true,
            (Token::Paragraf, Token::Paragraf) => true,
            (Token::Bold, Token::Bold) => true,
            (Token::Italics, Token::Italics) => true,
            (Token::List, Token::List) => true,
            (Token::Item, Token::Item) => true,
            (Token::Newline, Token::Newline) => true,
            (Token::Soundz(a), Token::Soundz(b)) => a.eq(b),
            (Token::Vidz(a), Token::Vidz(b)) => a.eq(b),
            (Token::IHaz, Token::IHaz) => true,
            (Token::ItIz, Token::ItIz) => true,
            (Token::LemmeSee, Token::LemmeSee) => true,
            (Token::I, Token::I) => true,
            (Token::VarDef(a), Token::VarDef(b)) => a.eq(b),
            (Token::VarVal(a), Token::VarVal(b)) => a.eq(b),
            (Token::Text(a), Token::Text(b)) => a.eq(b),
            _ => false,
        }
    }
}

impl PartialEqSpecImpl for Token {
    open spec fn obeys_eq_spec() -> bool {
        true
    }

    open spec fn eq_spec(&self, other: &Token) -> bool {
        self@ == other@
    }
}

impl Token {
    /// A fresh token with the same value.
    pub fn duplicate(&self) -> (r: Token)
        ensures
            r@ == self@,
    {
        match self {
            Token::Hai => Token::Hai,
            Token::Kthxbye => Token::Kthxbye,
            Token::Obtw => Token::Obtw,
            Token::Tldr => Token::Tldr,
            Token::Maek => Token::Maek,
            Token::Oic => Token::Oic,
            Token::Gimmeh => Token::Gimmeh,
            Token::Mkay => Token::Mkay,
            Token::Head => Token::Head,
            Token::Title => Token::Title,
            Token::Paragraf => Token::Paragraf,
            Token::Bold => Token::Bold,
            Token::Italics => Token::Italics,
            Token::List => Token::List,
            Token::Item => Token::Item,
            Token::Newline => Token::Newline,
            Token::Soundz(s) => Token::Soundz(s.clone()),
            Token::Vidz(s) => Token::Vidz(s.clone()),
            Token::IHaz => Token::IHaz,
            Token::ItIz => Token::ItIz,
            Token::LemmeSee => Token::LemmeSee,
            Token::I => Token::I,
            Token::VarDef(s) => Token::VarDef(s.clone()),
            Token::VarVal(s) => Token::VarVal(s.clone()),
            Token::Text(s) => Token::Text(s.clone()),
        }
    }
}

/// The values of a sequence of tokens, in order.
pub open spec fn lexemes(tokens: Seq<Token>) -> Seq<Lexeme> {
    tokens.map_values(|t: Token| t@)
}

/// Making one more token adds its value at the end.
pub proof fn lemma_lexemes_push(tokens: Seq<Token>, token: Token)
    ensures
        lexemes(tokens.push(token)) == lexemes(tokens).push(token@),
{
    assert(lexemes(tokens.push(token)) =~= lexemes(tokens).push(token@));
}

} // verus!
