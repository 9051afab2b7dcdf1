//! The tokenizer: from the characters of a document to its tokens.

use vstd::prelude::*;
use crate::scan::{
    alias_of, annotation_of, element_of, keeps, lemma_eat_eat, lemma_eat_newlines,
    lemma_eat_nothing, lemma_newlines_one, lemma_span_bound, lemma_step_shortens,
    lemma_word_then_text, newlines, span, Alias, Annotation, Element, Input, LexFailure,
    LexFailureKind, Scan, Span,
};
use crate::text::uppercase;
use crate::token::{lemma_lexemes_push, lexemes, Lexeme};
pub use crate::token::Token;

verus! {

/// Why the tokenizer stopped.
#[derive(Debug, Clone, PartialEq, Eq)]
pub enum LexErrorKind {
    /// A `#` word outside the vocabulary; the word as written, without `#`.
    UnknownAnnotation(String),
    /// `#I` without `HAZ` after it.
    ExpectedHaz,
    /// `#IT` without `IZ` after it.
    ExpectedIz,
    /// `#LEMME` without `SEE` after it.
    ExpectedSee,
    /// `#GIMMEH` before a word that names no element; the word in upper case.
    UnknownGimmeh(String),
}

impl View for LexErrorKind {
    type V = LexFailureKind;

    open spec fn view(&self) -> LexFailureKind {
        match self {
            LexErrorKind::UnknownAnnotation(s) => LexFailureKind::UnknownAnnotation(s@),
            LexErrorKind::ExpectedHaz => LexFailureKind::ExpectedHaz,
            LexErrorKind::ExpectedIz => LexFailureKind::ExpectedIz,
            LexErrorKind::ExpectedSee => LexFailureKind::ExpectedSee,
            LexErrorKind::UnknownGimmeh(s) => LexFailureKind::UnknownGimmeh(s@),
        }
    }
}

/// A lexical error and the line on which the tokenizer met it.
#[derive(Debug, Clone, PartialEq, Eq)]
pub struct LexError {
    pub kind: LexErrorKind,
    pub line: usize,
}

impl View for LexError {
    type V = LexFailure;

    open spec fn view(&self) -> LexFailure {
        LexFailure { kind: self.kind@, line: self.line as nat }
    }
}

/// The value of a result of the tokenizer.
pub open spec fn tokens_view(r: Result<Vec<Token>, LexError>) -> Result<Seq<Lexeme>, LexFailure> {
    match r {
        Ok(tokens) => Ok(lexemes(tokens@)),
        Err(e) => Err(e@),
    }
}

/// The annotation that the upper-case core `upper` names.
pub fn annotation(upper: &str) -> (a: Annotation)
    ensures
        a == annotation_of(upper@),
{
    proof {
        reveal_strlit("HAI");
        assert("HAI"@ =~= seq!['H', 'A', 'I']);
        reveal_strlit("KTHXBYE");
        assert("KTHXBYE"@ =~= seq!['K', 'T', 'H', 'X', 'B', 'Y', 'E']);
        reveal_strlit("OBTW");
        assert("OBTW"@ =~= seq!['O', 'B', 'T', 'W']);
        reveal_strlit("TLDR");
        assert("TLDR"@ =~= seq!['T', 'L', 'D', 'R']);
        reveal_strlit("MAEK");
        assert("MAEK"@ =~= seq!['M', 'A', 'E', 'K']);
        reveal_strlit("OIC");
        assert("OIC"@ =~= seq!['O', 'I', 'C']);
        reveal_strlit("MKAY");
        assert("MKAY"@ =~= seq!['M', 'K', 'A', 'Y']);
        reveal_strlit("GIMMEH");
        assert("GIMMEH"@ =~= seq!['G', 'I', 'M', 'M', 'E', 'H']);
        reveal_strlit("I");
        assert("I"@ =~= seq!['I']);
        reveal_strlit("IT");
        assert("IT"@ =~= seq!['I', 'T']);
        reveal_strlit("LEMME");
        assert("LEMME"@ =~= seq!['L', 'E', 'M', 'M', 'E']);
        reveal_strlit("HEAD");
        assert("HEAD"@ =~= seq!['H', 'E', 'A', 'D']);
        reveal_strlit("PARAGRAF");
        assert("PARAGRAF"@ =~= seq!['P', 'A', 'R', 'A', 'G', 'R', 'A', 'F']);
        reveal_strlit("LIST");
        assert("LIST"@ =~= seq!['L', 'I', 'S', 'T']);
    }
    if upper.eq("HAI") {
        Annotation::Hai
    } else if upper.eq("KTHXBYE") {
        Annotation::Kthxbye
    } else if upper.eq("OBTW") {
        Annotation::Obtw
    } else if upper.eq("TLDR") {
        Annotation::Tldr
    } else if upper.eq("MAEK") {
        Annotation::Maek
    } else if upper.eq("OIC") {
        Annotation::Oic
    } else if upper.eq("MKAY") {
        Annotation::Mkay
    } else if upper.eq("GIMMEH") {
        Annotation::Gimmeh
    } else if upper.eq("I") {
        Annotation::I
    } else if upper.eq("IT") {
        Annotation::It
    } else if upper.eq("LEMME") {
        Annotation::Lemme
    } else if upper.eq("HEAD") {
        Annotation::Head
    } else if upper.eq("PARAGRAF") {
        Annotation::Paragraf
    } else if upper.eq("LIST") {
        Annotation::List
    } else {
        Annotation::Unknown
    }
}

/// The inline element that the upper-case word `upper` names after `#GIMMEH`.
pub fn element(upper: &str) -> (e: Element)
    ensures
        e == element_of(upper@),
{
    proof {
        reveal_strlit("BOLD");
        assert("BOLD"@ =~= seq!['B', 'O', 'L', 'D']);
        reveal_strlit("ITALICS");
        assert("ITALICS"@ =~= seq!['I', 'T', 'A', 'L', 'I', 'C', 'S']);
        reveal_strlit("TITLE");
        assert("TITLE"@ =~= seq!['T', 'I', 'T', 'L', 'E']);
        reveal_strlit("SOUNDZ");
        assert("SOUNDZ"@ =~= seq!['S', 'O', 'U', 'N', 'D', 'Z']);
        reveal_strlit("VIDZ");
        assert("VIDZ"@ =~= seq!['V', 'I', 'D', 'Z']);
        reveal_strlit("ITEM");
        assert("ITEM"@ =~= seq!['I', 'T', 'E', 'M']);
        reveal_strlit("NEWLINE");
        assert("NEWLINE"@ =~= seq!['N', 'E', 'W', 'L', 'I', 'N', 'E']);
    }
    if upper.eq("BOLD") {
        Element::Bold
    } else if upper.eq("ITALICS") {
        Element::Italics
    } else if upper.eq("TITLE") {
        Element::Title
    } else if upper.eq("SOUNDZ") {
        Element::Soundz
    } else if upper.eq("VIDZ") {
        Element::Vidz
    } else if upper.eq("ITEM") {
        Element::Item
    } else if upper.eq("NEWLINE") {
        Element::Newline
    } else {
        Element::Unknown
    }
}

/// The block keyword that the upper-case bare word `upper` stands for.
pub fn alias(upper: &str) -> (a: Alias)
    ensures
        a == alias_of(upper@),
{
    proof {
        reveal_strlit("PARAGRAF");
        assert("PARAGRAF"@ =~= seq!['P', 'A', 'R', 'A', 'G', 'R', 'A', 'F']);
        reveal_strlit("LIST");
        assert("LIST"@ =~= seq!['L', 'I', 'S', 'T']);
        reveal_strlit("HEAD");
        assert("HEAD"@ =~= seq!['H', 'E', 'A', 'D']);
    }
    if upper.eq("PARAGRAF") {
        Alias::Paragraf
    } else if upper.eq("LIST") {
        Alias::List
    } else if upper.eq("HEAD") {
        Alias::Head
    } else {
        Alias::Plain
    }
}

/// Whether `upper` is one of the annotations of the vocabulary, written in
/// upper case with its `#`.
pub open spec fn names_annotation(upper: Seq<char>) -> bool {
    ||| upper =~= seq!['#', 'H', 'A', 'I']
    ||| upper =~= seq!['#', 'K', 'T', 'H', 'X', 'B', 'Y', 'E']
    ||| upper =~= seq!['#', 'O', 'B', 'T', 'W']
    ||| upper =~= seq!['#', 'T', 'L', 'D', 'R']
    ||| upper =~= seq!['#', 'M', 'A', 'E', 'K']
    ||| upper =~= seq!['#', 'O', 'I', 'C']
    ||| upper =~= seq!['#', 'M', 'K', 'A', 'Y']
    ||| upper =~= seq!['#', 'G', 'I', 'M', 'M', 'E', 'H']
    ||| upper =~= seq!['#', 'I']
    ||| upper =~= seq!['#', 'I', 'T']
    ||| upper =~= seq!['#', 'L', 'E', 'M', 'M', 'E']
    ||| upper =~= seq!['#', 'H', 'E', 'A', 'D']
    ||| upper =~= seq!['#', 'P', 'A', 'R', 'A', 'G', 'R', 'A', 'F']
    ||| upper =~= seq!['#', 'L', 'I', 'S', 'T']
}

/// Whether the upper-case word `upper` is an annotation of the vocabulary.
pub fn is_annotation(upper: &str) -> (b: bool)
    ensures
        b == names_annotation(upper@),
{
    proof {
        reveal_strlit("#HAI");
        assert("#HAI"@ =~= seq!['#', 'H', 'A', 'I']);
        reveal_strlit("#KTHXBYE");
        assert("#KTHXBYE"@ =~= seq!['#', 'K', 'T', 'H', 'X', 'B', 'Y', 'E']);
        reveal_strlit("#OBTW");
        assert("#OBTW"@ =~= seq!['#', 'O', 'B', 'T', 'W']);
        reveal_strlit("#TLDR");
        assert("#TLDR"@ =~= seq!['#', 'T', 'L', 'D', 'R']);
        reveal_strlit("#MAEK");
        assert("#MAEK"@ =~= seq!['#', 'M', 'A', 'E', 'K']);
        reveal_strlit("#OIC");
        assert("#OIC"@ =~= seq!['#', 'O', 'I', 'C']);
        reveal_strlit("#MKAY");
        assert("#MKAY"@ =~= seq!['#', 'M', 'K', 'A', 'Y']);
        reveal_strlit("#GIMMEH");
        assert("#GIMMEH"@ =~= seq!['#', 'G', 'I', 'M', 'M', 'E', 'H']);
        reveal_strlit("#I");
        assert("#I"@ =~= seq!['#', 'I']);
        reveal_strlit("#IT");
        assert("#IT"@ =~= seq!['#', 'I', 'T']);
        reveal_strlit("#LEMME");
        assert("#LEMME"@ =~= seq!['#', 'L', 'E', 'M', 'M', 'E']);
        reveal_strlit("#HEAD");
        assert("#HEAD"@ =~= seq!['#', 'H', 'E', 'A', 'D']);
        reveal_strlit("#PARAGRAF");
        assert("#PARAGRAF"@ =~= seq!['#', 'P', 'A', 'R', 'A', 'G', 'R', 'A', 'F']);
        reveal_strlit("#LIST");
        assert("#LIST"@ =~= seq!['#', 'L', 'I', 'S', 'T']);
    }
    upper.eq("#HAI") || upper.eq("#KTHXBYE") || upper.eq("#OBTW") || upper.eq("#TLDR")
        || upper.eq("#MAEK") || upper.eq("#OIC") || upper.eq("#MKAY") || upper.eq("#GIMMEH")
        || upper.eq("#I") || upper.eq("#IT") || upper.eq("#LEMME") || upper.eq("#HEAD")
        || upper.eq("#PARAGRAF") || upper.eq("#LIST")
}

/// Whether a run of the given kind goes on over `c`.
fn continues(kind: Span, c: char) -> (b: bool)
    ensures
        b == keeps(kind, c),
{
    match kind {
        Span::Space => c.is_whitespace(),
        Span::Word => !c.is_whitespace() && c != '#',
        Span::Text => c != '#',
    }
}

/// What a tokenizer offers to the code that drives it, one character at a
/// time.
pub trait LexicalAnalyzer {
    /// Whether the next character can be read with the line number staying
    /// in its range.
    spec fn readable(&self) -> bool;

    /// Reads the next character, if there is one.
    fn get_char(&mut self) -> Option<char>
        requires
            old(self).readable(),
    ;

    /// Adds `c` to the lexeme that is being collected.
    fn add_char(&mut self, c: char);

    /// Whether `s`, in any case, is an annotation of the vocabulary.
    fn lookup(&self, s: &str) -> bool;
}

/// The tokenizer of one document.
pub struct Lexer {
    input: Vec<char>,
    pos: usize,
    /// The number of the line that the tokenizer has reached, from 1.
    pub line: usize,
    current_lexeme: String,
}

impl Lexer {
    /// The text left and the line reached.
    pub closed spec fn cursor(&self) -> Input {
        Input {
            rest: if self.pos <= self.input.len() {
                self.input@.skip(self.pos as int)
            } else {
                Seq::empty()
            },
            line: self.line as nat,
        }
    }

    /// The characters that are still to be read.
    pub open spec fn rest(&self) -> Seq<char> {
        self.cursor().rest
    }

    /// The lexeme that is being collected.
    pub closed spec fn lexeme(&self) -> Seq<char> {
        self.current_lexeme@
    }

    /// Whether the line number stays in its range however much of the text
    /// is read.
    pub open spec fn fits(&self) -> bool {
        self.cursor().line + newlines(self.rest()) <= usize::MAX
    }

    /// A tokenizer whose line number fits can read its next character.
    pub proof fn lemma_readable(&self)
        requires
            self.fits(),
        ensures
            self.readable(),
    {
        let rest = self.rest();
        if rest.len() > 0 {
            assert(rest.take(1) =~= seq![rest[0]]);
            lemma_newlines_one(rest[0]);
            lemma_eat_newlines(self.cursor(), 1);
        }
    }

    /// The number of the line that the tokenizer has reached.
    pub fn line_number(&self) -> (line: usize)
        ensures
            line == self.cursor().line,
    {
        self.line
    }

    /// The scan that stands at this tokenizer's place with `tokens` made.
    pub open spec fn scan(&self, tokens: Seq<Token>) -> Scan {
        Scan { input: self.cursor(), tokens: lexemes(tokens), failure: None }
    }

    /// A tokenizer at the start of `source`, on line 1.
    pub fn new(source: &str) -> (lexer: Lexer)
        ensures
            lexer.cursor() == (Input { rest: source@, line: 1 }),
            lexer.scan(Seq::empty()) == Scan::start(source@),
            lexer.lexeme() == Seq::<char>::empty(),
    {
        let mut input: Vec<char> = Vec::new();
        for c in it: source.chars()
            invariant
                input@ == it.seq().take(it.index() as int),
        {
            input.push(c);
        }
        assert(input@.skip(0) =~= source@);
        assert(lexemes(Seq::<Token>::empty()) =~= Seq::<Lexeme>::empty());
        Lexer { input, pos: 0, line: 1, current_lexeme: String::new() }
    }

    /// Whether this tokenizer, `tokens` and `r` are what the scan `after`
    /// describes.
    pub open spec fn agrees(&self, tokens: Seq<Token>, r: Result<(), LexError>, after: Scan) -> bool {
        &&& self.cursor() == after.input
        &&& lexemes(tokens) == after.tokens
        &&& match r {
            Ok(()) => after.failure is None,
            Err(e) => after.failure == Some(e@),
        }
    }

    /// Turns the whole text into tokens, or stops at the first lexical
    /// error. A scan that succeeds leaves no text; one that fails leaves the
    /// tokenizer where it met the error.
    pub fn lex(&mut self) -> (r: Result<Vec<Token>, LexError>)
        requires
            old(self).fits(),
        ensures
            tokens_view(r) == old(self).scan(Seq::empty()).run().outcome(),
            final(self).cursor() == old(self).scan(Seq::empty()).run().input,
            final(self).lexeme() == old(self).lexeme(),
    {
        let mut tokens: Vec<Token> = Vec::new();
        let ghost origin = old(self).scan(Seq::empty());
        assert(lexemes(tokens@) =~= Seq::<Lexeme>::empty());
        loop
            invariant
                self.fits(),
                self.lexeme() == old(self).lexeme(),
                origin == old(self).scan(Seq::empty()),
                self.scan(tokens@).run() == origin.run(),
            ensures
                self.lexeme() == old(self).lexeme(),
                self.rest().len() == 0,
                self.scan(tokens@).run() == origin.run(),
            decreases self.rest().len(),
        {
            let ghost before = self.scan(tokens@);
            match self.peek_char() {
                None => {
                    break;
                },
                Some(c) => {
                    proof {
                        lemma_step_shortens(before);
                    }
                    if c.is_whitespace() {
                        proof {
                            self.lemma_readable();
                        }
                        self.get_char();
                    } else if c == '#' {
                        proof {
                            self.lemma_readable();
                        }
                        self.get_char();
                        match self.lex_annotation(&mut tokens) {
                            Ok(()) => {},
                            Err(e) => {
                                proof {
                                    let after = before.step();
                                    assert(before.run() == after.run());
                                    assert(after.run() == after);
                                }
                                return Err(e);
                            },
                        }
                    } else {
                        self.lex_bare(&mut tokens);
                    }
                },
            }
        }
        Ok(tokens)
    }

    /// Reads an annotation from behind its `#`.
    fn lex_annotation(&mut self, tokens: &mut Vec<Token>) -> (r: Result<(), LexError>)
        requires
            old(self).fits(),
        ensures
            final(self).agrees(final(tokens)@, r, old(self).scan(old(tokens)@).annotation()),
            final(self).fits(),
            final(self).lexeme() == old(self).lexeme(),
    {
        let core = self.consume_annotation_core();
        let upper = core.as_str().to_uppercase();
        proof {
            reveal_strlit("HAZ");
        assert("HAZ"@ =~= seq!['H', 'A', 'Z']);
            reveal_strlit("IZ");
        assert("IZ"@ =~= seq!['I', 'Z']);
            reveal_strlit("SEE");
        assert("SEE"@ =~= seq!['S', 'E', 'E']);
            assert("HAZ"@ =~= seq!['H', 'A', 'Z']);
            assert("IZ"@ =~= seq!['I', 'Z']);
            assert("SEE"@ =~= seq!['S', 'E', 'E']);
            lemma_lexemes_push(tokens@, Token::Hai);
            lemma_lexemes_push(tokens@, Token::Kthxbye);
            lemma_lexemes_push(tokens@, Token::Obtw);
            lemma_lexemes_push(tokens@, Token::Tldr);
            lemma_lexemes_push(tokens@, Token::Maek);
            lemma_lexemes_push(tokens@, Token::Oic);
            lemma_lexemes_push(tokens@, Token::Mkay);
            lemma_lexemes_push(tokens@, Token::Gimmeh);
            lemma_lexemes_push(tokens@, Token::Head);
            lemma_lexemes_push(tokens@, Token::Paragraf);
            lemma_lexemes_push(tokens@, Token::List);
        }
        match annotation(upper.as_str()) {
            Annotation::Hai => {
                tokens.push(Token::Hai);
                Ok(())
            },
            Annotation::Kthxbye => {
                tokens.push(Token::Kthxbye);
                Ok(())
            },
            Annotation::Obtw => {
                tokens.push(Token::Obtw);
                Ok(())
            },
            Annotation::Tldr => {
                tokens.push(Token::Tldr);
                Ok(())
            },
            Annotation::Maek => {
                tokens.push(Token::Maek);
                Ok(())
            },
            Annotation::Oic => {
                tokens.push(Token::Oic);
                Ok(())
            },
            Annotation::Mkay => {
                tokens.push(Token::Mkay);
                Ok(())
            },
            Annotation::Gimmeh => {
                tokens.push(Token::Gimmeh);
                self.lex_element(tokens)
            },
            Annotation::I => self.lex_pair(tokens, "HAZ", Token::IHaz, LexErrorKind::ExpectedHaz),
            Annotation::It => self.lex_pair(tokens, "IZ", Token::ItIz, LexErrorKind::ExpectedIz),
            Annotation::Lemme => self.lex_pair(
                tokens,
                "SEE",
                Token::LemmeSee,
                LexErrorKind::ExpectedSee,
            ),
            Annotation::Head => {
                tokens.push(Token::Head);
                Ok(())
            },
            Annotation::Paragraf => {
                tokens.push(Token::Paragraf);
                Ok(())
            },
            Annotation::List => {
                tokens.push(Token::List);
                Ok(())
            },
            Annotation::Unknown => Err(
                LexError { kind: LexErrorKind::UnknownAnnotation(core), line: self.line },
            ),
        }
    }

    /// Reads the second word of a two-word keyword.
    fn lex_pair(
        &mut self,
        tokens: &mut Vec<Token>,
        second: &str,
        token: Token,
        otherwise: LexErrorKind,
    ) -> (r: Result<(), LexError>)
        requires
            old(self).fits(),
        ensures
            final(self).agrees(
                final(tokens)@,
                r,
                old(self).scan(old(tokens)@).pair(second@, token@, otherwise@),
            ),
            final(self).fits(),
            final(self).lexeme() == old(self).lexeme(),
    {
        let word = self.consume_word();
        let upper = word.as_str().to_uppercase();
        if upper.as_str().eq(second) {
            proof {
                lemma_lexemes_push(tokens@, token);
            }
            tokens.push(token);
            Ok(())
        } else {
            Err(LexError { kind: otherwise, line: self.line })
        }
    }

    /// Reads what follows `#GIMMEH`.
    fn lex_element(&mut self, tokens: &mut Vec<Token>) -> (r: Result<(), LexError>)
        requires
            old(self).fits(),
        ensures
            final(self).agrees(final(tokens)@, r, old(self).scan(old(tokens)@).element()),
            final(self).fits(),
            final(self).lexeme() == old(self).lexeme(),
    {
        let word = self.consume_word();
        let upper = word.as_str().to_uppercase();
        match element(upper.as_str()) {
            Element::Bold => {
                self.lex_styled(tokens, Token::Bold);
                Ok(())
            },
            Element::Italics => {
                self.lex_styled(tokens, Token::Italics);
                Ok(())
            },
            Element::Title => {
                self.lex_styled(tokens, Token::Title);
                Ok(())
            },
            Element::Soundz => {
                let address = self.consume_word();
                proof {
                    lemma_lexemes_push(tokens@, Token::Soundz(address));
                }
                tokens.push(Token::Soundz(address));
                Ok(())
            },
            Element::Vidz => {
                let address = self.consume_word();
                proof {
                    lemma_lexemes_push(tokens@, Token::Vidz(address));
                }
                tokens.push(Token::Vidz(address));
                Ok(())
            },
            Element::Item => {
                proof {
                    lemma_lexemes_push(tokens@, Token::Item);
                }
                tokens.push(Token::Item);
                Ok(())
            },
            Element::Newline => {
                proof {
                    lemma_lexemes_push(tokens@, Token::Newline);
                }
                tokens.push(Token::Newline);
                Ok(())
            },
            Element::Unknown => Err(
                LexError { kind: LexErrorKind::UnknownGimmeh(upper), line: self.line },
            ),
        }
    }

    /// Reads the free text that a style opener stands before.
    fn lex_styled(&mut self, tokens: &mut Vec<Token>, opener: Token)
        requires
            old(self).fits(),
        ensures
            final(self).agrees(
                final(tokens)@,
                Ok(()),
                old(self).scan(old(tokens)@).styled(opener@),
            ),
            final(self).fits(),
            final(self).lexeme() == old(self).lexeme(),
    {
        self.skip_whitespace();
        let text = self.consume_text();
        proof {
            lemma_lexemes_push(tokens@, opener);
        }
        tokens.push(opener);
        if !text.as_str().is_empty() {
            proof {
                lemma_lexemes_push(tokens@, Token::Text(text));
            }
            tokens.push(Token::Text(text));
        }
    }

    /// Reads a bare word and, unless it is a block keyword, the free text
    /// that it begins.
    fn lex_bare(&mut self, tokens: &mut Vec<Token>)
        requires
            old(self).fits(),
            old(self).rest().len() > 0,
            !keeps(Span::Space, old(self).rest()[0]),
        ensures
            final(self).agrees(final(tokens)@, Ok(()), old(self).scan(old(tokens)@).bare()),
            final(self).fits(),
            final(self).lexeme() == old(self).lexeme(),
    {
        proof {
            lemma_eat_nothing(self.cursor());
            lemma_word_then_text(self.rest());
            lemma_lexemes_push(tokens@, Token::Paragraf);
            lemma_lexemes_push(tokens@, Token::List);
            lemma_lexemes_push(tokens@, Token::Head);
        }
        let ghost start = self.cursor();
        let word = self.consume_word();
        let upper = word.as_str().to_uppercase();
        match alias(upper.as_str()) {
            Alias::Paragraf => {
                tokens.push(Token::Paragraf);
            },
            Alias::List => {
                tokens.push(Token::List);
            },
            Alias::Head => {
                tokens.push(Token::Head);
            },
            Alias::Plain => {
                let mut text = word;
                let more = self.consume_text();
                text.append(more.as_str());
                proof {
                    let w = span(start.rest, Span::Word);
                    let t = span(start.rest, Span::Text);
                    lemma_span_bound(start.rest, Span::Text);
                    lemma_eat_eat(start, w, (t - w) as nat);
                    assert(text@ =~= start.text());
                    lemma_lexemes_push(tokens@, Token::Text(text));
                }
                tokens.push(Token::Text(text));
            },
        }
    }

    /// The next character, which stays unread.
    fn peek_char(&self) -> (r: Option<char>)
        ensures
            r == if self.rest().len() > 0 {
                Some(self.rest()[0])
            } else {
                None::<char>
            },
    {
        if self.pos < self.input.len() {
            Some(self.input[self.pos])
        } else {
            None
        }
    }

    /// Reads the run of the given kind that stands at the front.
    fn take(&mut self, kind: Span) -> (s: String)
        requires
            old(self).fits(),
        ensures
            s@ == old(self).rest().take(span(old(self).rest(), kind) as int),
            s@.len() == span(old(self).rest(), kind),
            s@.len() <= old(self).rest().len(),
            final(self).cursor() == old(self).cursor().eat(s@.len()),
            final(self).fits(),
            final(self).lexeme() == old(self).lexeme(),
    {
        let mut s = String::new();
        let ghost start = self.cursor();
        let ghost mut n: nat = 0;
        proof {
            assert(start.eat(0) == start) by {
                assert(start.rest.skip(0) =~= start.rest);
                assert(start.rest.take(0) =~= Seq::<char>::empty());
            }
            assert(start.rest.take(0) =~= Seq::<char>::empty());
        }
        loop
            invariant
                self.fits(),
                self.lexeme() == old(self).lexeme(),
                start == old(self).cursor(),
                n <= start.rest.len(),
                self.cursor() == start.eat(n),
                s@ == start.rest.take(n as int),
                span(start.rest, kind) == n + span(self.rest(), kind),
            ensures
                self.fits(),
                self.lexeme() == old(self).lexeme(),
                n <= start.rest.len(),
                self.cursor() == start.eat(n),
                s@ == start.rest.take(n as int),
                span(start.rest, kind) == n,
            decreases self.rest().len(),
        {
            match self.peek_char() {
                Some(c) => {
                    if !continues(kind, c) {
                        break;
                    }
                    proof {
                        self.lemma_readable();
                    }
                    s.push(c);
                    self.get_char();
                    proof {
                        lemma_eat_eat(start, n, 1);
                        assert(start.rest.take(n as int + 1) =~= start.rest.take(n as int).push(c));
                        n = n + 1;
                    }
                },
                None => {
                    break;
                },
            }
        }
        s
    }

    /// Reads the core of an annotation: everything up to white space, `#` or
    /// the end.
    fn consume_annotation_core(&mut self) -> (s: String)
        requires
            old(self).fits(),
        ensures
            s@ == old(self).cursor().word(),
            final(self).cursor() == old(self).cursor().eat(s@.len()),
            s@.len() <= old(self).rest().len(),
            final(self).fits(),
            final(self).lexeme() == old(self).lexeme(),
    {
        self.take(Span::Word)
    }

    /// Skips white space, then reads one word: everything up to white space,
    /// `#` or the end.
    fn consume_word(&mut self) -> (s: String)
        requires
            old(self).fits(),
        ensures
            s@ == old(self).cursor().skip_spaces().word(),
            final(self).cursor() == old(self).cursor().skip_spaces().eat(s@.len()),
            final(self).fits(),
            final(self).lexeme() == old(self).lexeme(),
    {
        self.skip_whitespace();
        self.take(Span::Word)
    }

    /// Reads free text: everything up to `#` or the end.
    fn consume_text(&mut self) -> (s: String)
        requires
            old(self).fits(),
        ensures
            s@ == old(self).cursor().text(),
            final(self).cursor() == old(self).cursor().eat(s@.len()),
            s@.len() <= old(self).rest().len(),
            final(self).fits(),
            final(self).lexeme() == old(self).lexeme(),
    {
        self.take(Span::Text)
    }

    /// Reads on to the first character that is not white space.
    fn skip_whitespace(&mut self)
        requires
            old(self).fits(),
        ensures
            final(self).cursor() == old(self).cursor().skip_spaces(),
            final(self).fits(),
            final(self).lexeme() == old(self).lexeme(),
    {
        let _ = self.take(Span::Space);
    }
}

impl LexicalAnalyzer for Lexer {
    open spec fn readable(&self) -> bool {
        self.rest().len() > 0 && self.rest()[0] == '\n' ==> self.cursor().line < usize::MAX
    }

    /// Reads the next character, if there is one; a newline moves the line
    /// number on by one.
    fn get_char(&mut self) -> (r: Option<char>)
        ensures
            r == if old(self).rest().len() > 0 {
                Some(old(self).rest()[0])
            } else {
                None::<char>
            },
            final(self).cursor() == if r is Some {
                old(self).cursor().eat(1)
            } else {
                old(self).cursor()
            },
            final(self).lexeme() == old(self).lexeme(),
            old(self).fits() ==> final(self).fits(),
    {
        if self.pos < self.input.len() {
            let c = self.input[self.pos];
            proof {
                let rest = self.rest();
                assert(rest.take(1) =~= seq![c]);
                lemma_newlines_one(c);
                assert(self.input@.skip(self.pos as int + 1) =~= rest.skip(1));
                lemma_eat_newlines(self.cursor(), 1);
            }
            self.pos = self.pos + 1;
            if c == '\n' {
                self.line = self.line + 1;
            }
            Some(c)
        } else {
            None
        }
    }

    /// Adds `c` to the lexeme that is being collected; the text and the line
    /// stay as they are.
    fn add_char(&mut self, c: char)
        ensures
            final(self).lexeme() == old(self).lexeme().push(c),
            final(self).cursor() == old(self).cursor(),
    {
        self.current_lexeme.push(c);
    }

    /// Whether `s`, in any case, is an annotation of the vocabulary, written
    /// with its `#`.
    fn lookup(&self, s: &str) -> (b: bool)
        ensures
            b == names_annotation(uppercase(s@)),
    {
        let upper = s.to_uppercase();
        is_annotation(upper.as_str())
    }
}

} // verus!
