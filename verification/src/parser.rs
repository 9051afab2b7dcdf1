//! The document compiler: from the tokens of a document to its HTML.

use vstd::prelude::*;
use vstd::hash_map::StringHashMap;
use vstd::string::*;
use crate::grammar::{
    closing, lemma_body_moves, lemma_body_part_moves, lemma_comment_moves, lemma_comments_moves,
    lemma_inner_paragraph_moves, lemma_item_moves, lemma_item_part_moves, lemma_item_parts_moves,
    lemma_more_items_moves, lemma_paragraph_parts_moves, audio_element, video_element, Failure,
    Run,
};
use crate::token::{lexemes, Lexeme, Token};

verus! {

/// Why the compiler stopped.
#[derive(Debug, Clone, PartialEq)]
pub enum ParseError {
    /// A marker was required, and another token or the end stood there.
    Expected { expected: Token, found: Option<Token> },
    /// A token after `#KTHXBYE`.
    TrailingContent { token: Token },
    /// `#OBTW` without a `#TLDR` after it.
    UnclosedComment,
    /// `#GIMMEH TITLE` without text after it.
    TitleWithoutText,
    /// `#MAEK` in the body before something other than `PARAGRAF` or `LIST`.
    ExpectedBlock { found: Option<Token> },
    /// A token that starts nothing in the body.
    UnexpectedInBody { found: Option<Token> },
    /// `#GIMMEH` in the body before something that is no inline element.
    UnexpectedElementInBody { found: Option<Token> },
    /// `#GIMMEH` in a paragraph before something that is no inline element.
    UnexpectedElementInParagraph { found: Option<Token> },
    /// `#MAEK` in a paragraph before something other than `LIST`.
    ExpectedListInParagraph { found: Option<Token> },
    /// A variable definition in a paragraph.
    DefinitionInParagraph,
    /// A token that starts nothing in a paragraph.
    UnexpectedInParagraph { found: Option<Token> },
    /// `#I HAZ` without a name after it.
    MissingDefinitionName,
    /// `#IT IZ` without a value after it.
    MissingDefinitionValue,
    /// `#LEMME SEE` without a name after it.
    MissingUseName,
    /// A second definition of a variable.
    AlreadyDefined { name: String },
    /// A use of a variable that has no definition.
    Undefined { name: String },
    /// `#GIMMEH` in a list item before something other than `BOLD` or
    /// `ITALICS`.
    UnexpectedElementInItem { found: Option<Token> },
    /// A list without an item.
    EmptyList,
    /// The audio rule, applied where no audio token stands.
    NotAtSoundz,
    /// The video rule, applied where no video token stands.
    NotAtVidz,
    /// The text rule, applied where no text token stands.
    NotAtText,
}

/// The value of a token that may be missing.
pub open spec fn found_view(found: Option<Token>) -> Option<Lexeme> {
    match found {
        Some(token) => Some(token@),
        None => None,
    }
}

impl View for ParseError {
    type V = Failure;

    open spec fn view(&self) -> Failure {
        match self {
            ParseError::Expected { expected, found } => Failure::Expected {
                expected: expected@,
                found: found_view(*found),
            },
            ParseError::TrailingContent { token } => Failure::TrailingContent { token: token@ },
            ParseError::UnclosedComment => Failure::UnclosedComment,
            ParseError::TitleWithoutText => Failure::TitleWithoutText,
            ParseError::ExpectedBlock { found } => Failure::ExpectedBlock {
                found: found_view(*found),
            },
            ParseError::UnexpectedInBody { found } => Failure::UnexpectedInBody {
                found: found_view(*found),
            },
            ParseError::UnexpectedElementInBody { found } => Failure::UnexpectedElementInBody {
                found: found_view(*found),
            },
            ParseError::UnexpectedElementInParagraph {
                found,
            } => Failure::UnexpectedElementInParagraph { found: found_view(*found) },
            ParseError::ExpectedListInParagraph { found } => Failure::ExpectedListInParagraph {
                found: found_view(*found),
            },
            ParseError::DefinitionInParagraph => Failure::DefinitionInParagraph,
            ParseError::UnexpectedInParagraph { found } => Failure::UnexpectedInParagraph {
                found: found_view(*found),
            },
            ParseError::MissingDefinitionName => Failure::MissingDefinitionName,
            ParseError::MissingDefinitionValue => Failure::MissingDefinitionValue,
            ParseError::MissingUseName => Failure::MissingUseName,
            ParseError::AlreadyDefined { name } => Failure::AlreadyDefined { name: name@ },
            ParseError::Undefined { name } => Failure::Undefined { name: name@ },
            ParseError::UnexpectedElementInItem { found } => Failure::UnexpectedElementInItem {
                found: found_view(*found),
            },
            ParseError::EmptyList => Failure::EmptyList,
            ParseError::NotAtSoundz => Failure::NotAtSoundz,
            ParseError::NotAtVidz => Failure::NotAtVidz,
            ParseError::NotAtText => Failure::NotAtText,
        }
    }
}

/// The rules of the document grammar, each as one step of a compiler.
pub trait SyntaxAnalyzer {
    /// A whole document.
    fn parse_lolcode(&mut self) -> Result<(), ParseError>;

    /// The head block, if there is one.
    fn parse_head(&mut self) -> Result<(), ParseError>;

    /// The title.
    fn parse_title(&mut self) -> Result<(), ParseError>;

    /// Any number of comments.
    fn parse_comment(&mut self) -> Result<(), ParseError>;

    /// The body, up to the end of the document.
    fn parse_body(&mut self) -> Result<(), ParseError>;

    /// A paragraph, from behind its block opener.
    fn parse_paragraph(&mut self) -> Result<(), ParseError>;

    /// Comments, then one thing in a paragraph.
    fn parse_inner_paragraph(&mut self) -> Result<(), ParseError>;

    /// Free text.
    fn parse_inner_text(&mut self) -> Result<(), ParseError>;

    /// A variable definition.
    fn parse_variable_define(&mut self) -> Result<(), ParseError>;

    /// A variable use.
    fn parse_variable_use(&mut self) -> Result<(), ParseError>;

    /// Bold text, from behind its inline opener.
    fn parse_bold(&mut self) -> Result<(), ParseError>;

    /// Italic text, from behind its inline opener.
    fn parse_italics(&mut self) -> Result<(), ParseError>;

    /// A list, from behind its block opener.
    fn parse_list(&mut self) -> Result<(), ParseError>;

    /// The items of a list.
    fn parse_list_items(&mut self) -> Result<(), ParseError>;

    /// The items of a list.
    fn parse_inner_list(&mut self) -> Result<(), ParseError>;

    /// Audio, from behind its inline opener.
    fn parse_audio(&mut self) -> Result<(), ParseError>;

    /// Video, from behind its inline opener.
    fn parse_video(&mut self) -> Result<(), ParseError>;

    /// A forced line break, from behind its inline opener.
    fn parse_newline(&mut self) -> Result<(), ParseError>;
}

/// The values that a namespace binds its names to.
pub open spec fn bindings(variables: Map<Seq<char>, String>) -> Map<Seq<char>, Seq<char>> {
    Map::new(|name: Seq<char>| variables.contains_key(name), |name: Seq<char>| variables[name]@)
}

/// The compiler of one document: the tokens, a cursor into them, the
/// namespace of variables and the output written so far.
pub struct Parser {
    tokens: Vec<Token>,
    pos: usize,
    variables: StringHashMap<String>,
    output: String,
}

impl View for Parser {
    type V = Run;

    closed spec fn view(&self) -> Run {
        Run {
            tokens: lexemes(self.tokens@),
            pos: self.pos as nat,
            vars: bindings(self.variables@),
            out: self.output@,
            failure: None,
        }
    }
}

impl Parser {
    /// Whether this compiler and `r` are what the run `after` describes:
    /// the compiler holds the run's cursor, namespace and output, and `r`
    /// tells its failure.
    pub open spec fn agrees(&self, r: Result<(), ParseError>, after: Run) -> bool {
        &&& self@ == Run { failure: None, ..after }
        &&& match r {
            Ok(()) => after.failure is None,
            Err(e) => after.failure == Some(e@),
        }
    }

    /// A compiler before the first of `tokens`, with nothing defined and
    /// nothing written.
    pub fn new(tokens: Vec<Token>) -> (parser: Parser)
        ensures
            parser@ == Run::start(lexemes(tokens@)),
    {
        let parser = Parser {
            tokens,
            pos: 0,
            variables: StringHashMap::new(),
            output: String::new(),
        };
        assert(parser@.vars =~= Map::<Seq<char>, Seq<char>>::empty());
        parser
    }

    /// The output written so far. It is empty after a failure.
    pub fn output(&self) -> (html: &str)
        ensures
            html@ == self@.out,
    {
        self.output.as_str()
    }

    /// Hands out the output written so far.
    pub fn into_output(self) -> (html: String)
        ensures
            html@ == self@.out,
    {
        self.output
    }

    /// The token under the cursor.
    fn peek(&self) -> (r: Option<&Token>)
        ensures
            match r {
                Some(token) => self@.peek() == Some(token@),
                None => self@.peek() is None,
            },
    {
        if self.pos < self.tokens.len() {
            Some(&self.tokens[self.pos])
        } else {
            None
        }
    }

    /// Whether `marker` stands under the cursor.
    fn at(&self, marker: &Token) -> (b: bool)
        ensures
            b == (self@.peek() == Some(marker@)),
    {
        match self.peek() {
            Some(token) => token == marker,
            None => false,
        }
    }

    /// Whether `marker` stands behind the token under the cursor.
    fn next_is(&self, marker: &Token) -> (b: bool)
        ensures
            b == (self@.peek_next() == Some(marker@)),
    {
        if self.pos < self.tokens.len() && self.pos + 1 < self.tokens.len() {
            &self.tokens[self.pos + 1] == marker
        } else {
            false
        }
    }

    /// A copy of the token under the cursor, for a report.
    fn found(&self) -> (r: Option<Token>)
        ensures
            found_view(r) == self@.peek(),
    {
        match self.peek() {
            Some(token) => Some(token.duplicate()),
            None => None,
        }
    }

    /// Moves the cursor on by one token.
    fn advance(&mut self)
        requires
            old(self)@.peek() is Some,
        ensures
            final(self)@ == old(self)@.advance(),
    {
        assert(self.pos < self.tokens.len());
        self.pos = self.pos + 1;
    }

    /// Appends `html` to the output.
    fn emit(&mut self, html: &str)
        ensures
            final(self)@ == old(self)@.emit(html@),
    {
        self.output.append(html);
    }

    /// Stops with `error`: the output is discarded.
    fn fail(&mut self, error: ParseError) -> (r: Result<(), ParseError>)
        ensures
            final(self).agrees(r, old(self)@.fail(error@)),
            r is Err,
    {
        self.output = String::new();
        Err(error)
    }

    /// Requires `expected` under the cursor and passes it.
    fn expect(&mut self, expected: &Token) -> (r: Result<(), ParseError>)
        ensures
            final(self).agrees(r, old(self)@.expect(expected@)),
    {
        if self.at(expected) {
            self.advance();
            Ok(())
        } else {
            let found = self.found();
            self.fail(ParseError::Expected { expected: expected.duplicate(), found })
        }
    }

    /// Requires a text token under the cursor, passes it and hands out its
    /// characters.
    fn pass_text(&mut self, otherwise: ParseError) -> (r: Result<String, ParseError>)
        ensures
            match r {
                Ok(text) => final(self).agrees(Ok(()), old(self)@.pass_text(otherwise@))
                    && old(self)@.at_text() && text@ == old(self)@.text(),
                Err(e) => final(self).agrees(Err(e), old(self)@.pass_text(otherwise@)),
            },
    {
        match self.peek() {
            Some(Token::Text(text)) => {
                let text = text.clone();
                self.advance();
                Ok(text)
            },
            _ => {
                match self.fail(otherwise) {
                    Ok(()) => Ok(String::new()),
                    Err(e) => Err(e),
                }
            },
        }
    }

    /// Requires a text token under the cursor and writes its characters to
    /// the output as they are.
    fn copy_text(&mut self, otherwise: ParseError) -> (r: Result<(), ParseError>)
        ensures
            final(self).agrees(r, old(self)@.copy_text(otherwise@)),
    {
        if self.pos < self.tokens.len() {
            match &self.tokens[self.pos] {
                Token::Text(text) => {
                    self.output.append(text.as_str());
                    self.pos = self.pos + 1;
                    return Ok(());
                },
                _ => {},
            }
        }
        self.fail(otherwise)
    }

    /// Compiles the whole document: `#HAI`, comments, the head if there is
    /// one, the body, `#KTHXBYE`, and then nothing. When this fails, the
    /// output is empty.
    pub fn parse(&mut self) -> (r: Result<(), ParseError>)
        ensures
            final(self).agrees(r, old(self)@.document()),
    {
        self.emit("<!DOCTYPE html>\n<html>\n");
        self.expect(&Token::Hai)?;
        self.parse_comments()?;
        self.parse_head()?;
        self.emit("<body>\n");
        self.parse_body()?;
        self.emit("</body>\n");
        self.expect(&Token::Kthxbye)?;
        self.emit("</html>\n");
        match self.found() {
            Some(token) => self.fail(ParseError::TrailingContent { token }),
            None => Ok(()),
        }
    }

    /// Passes over any number of comments.
    fn parse_comments(&mut self) -> (r: Result<(), ParseError>)
        ensures
            final(self).agrees(r, old(self)@.comments()),
    {
        loop
            invariant
                self@.comments() == old(self)@.comments(),
            ensures
                self@.peek() != Some(Lexeme::Obtw),
                self@.comments() == old(self)@.comments(),
            decreases self@.left(),
        {
            if !self.at(&Token::Obtw) {
                break;
            }
            proof {
                let behind = self@.advance();
                lemma_comment_moves(behind);
                lemma_comments_moves(behind.comment());
            }
            self.advance();
            self.pass_comment()?;
        }
        Ok(())
    }

    /// Passes over one comment, from behind its `#OBTW`.
    fn pass_comment(&mut self) -> (r: Result<(), ParseError>)
        ensures
            final(self).agrees(r, old(self)@.comment()),
    {
        let mut end: usize = self.pos;
        while end < self.tokens.len()
            invariant
                self@ == old(self)@,
                closing(self@.tokens, end as nat) == closing(self@.tokens, self@.pos),
            decreases self.tokens.len() - end,
        {
            match &self.tokens[end] {
                Token::Tldr => {
                    self.pos = end + 1;
                    return Ok(());
                },
                _ => {},
            }
            end = end + 1;
        }
        self.fail(ParseError::UnclosedComment)
    }

    /// What follows `#I HAZ`: the name, `#IT IZ`, the value, `#MKAY`.
    fn parse_variable_define_core(&mut self) -> (r: Result<(), ParseError>)
        ensures
            final(self).agrees(r, old(self)@.define_core()),
    {
        let name = self.pass_text(ParseError::MissingDefinitionName)?;
        self.expect(&Token::ItIz)?;
        let value = self.pass_text(ParseError::MissingDefinitionValue)?;
        self.expect(&Token::Mkay)?;
        if self.variables.contains_key(name.as_str()) {
            self.fail(ParseError::AlreadyDefined { name })
        } else {
            proof {
                assert(bindings(self.variables@.insert(name@, value)) =~= bindings(
                    self.variables@,
                ).insert(name@, value@));
            }
            self.variables.insert(name, value);
            Ok(())
        }
    }

    /// An inline element in the body, from its `#GIMMEH`.
    fn parse_gimmeh_body_element(&mut self) -> (r: Result<(), ParseError>)
        ensures
            final(self).agrees(r, old(self)@.body_element()),
    {
        self.expect(&Token::Gimmeh)?;
        let found = self.found();
        self.inline(ParseError::UnexpectedElementInBody { found })
    }

    /// The inline element under the cursor; anything else there stops the
    /// compiler with `otherwise`.
    fn inline(&mut self, otherwise: ParseError) -> (r: Result<(), ParseError>)
        ensures
            final(self).agrees(r, old(self)@.inline(otherwise@)),
    {
        match self.peek() {
            Some(Token::Bold) => self.parse_bold(),
            Some(Token::Italics) => self.parse_italics(),
            Some(Token::Soundz(_)) => self.parse_audio(),
            Some(Token::Vidz(_)) => self.parse_video(),
            Some(Token::Newline) => self.parse_newline(),
            _ => self.fail(otherwise),
        }
    }

    /// One part of a list item.
    fn item_part(&mut self) -> (r: Result<(), ParseError>)
        ensures
            final(self).agrees(r, old(self)@.item_part()),
    {
        if self.at(&Token::Gimmeh) {
            self.advance();
            match self.peek() {
                Some(Token::Bold) => self.parse_bold(),
                Some(Token::Italics) => self.parse_italics(),
                _ => {
                    let found = self.found();
                    self.fail(ParseError::UnexpectedElementInItem { found })
                },
            }
        } else {
            self.parse_inner_text()
        }
    }

    /// One list item, from its `#GIMMEH`.
    fn item(&mut self) -> (r: Result<(), ParseError>)
        requires
            old(self)@.peek() == Some(Lexeme::Gimmeh),
        ensures
            final(self).agrees(r, old(self)@.item()),
    {
        self.advance();
        self.expect(&Token::Item)?;
        self.emit("<li>");
        loop
            invariant
                self@.item_parts() == old(self)@.advance().expect(Lexeme::Item).emit(
                    "<li>"@,
                ).item_parts(),
            ensures
                self@ == old(self)@.advance().expect(Lexeme::Item).emit("<li>"@).item_parts(),
            decreases self@.left(),
        {
            let part = match self.peek() {
                Some(Token::Gimmeh) => true,
                Some(Token::Text(_)) => true,
                _ => false,
            };
            if !part {
                break;
            }
            proof {
                let part = self@.item_part();
                lemma_item_part_moves(self@);
                lemma_item_parts_moves(part);
                lemma_comments_moves(part);
            }
            self.item_part()?;
        }
        self.expect(&Token::Mkay)?;
        self.emit("</li>\n");
        self.parse_comments()
    }

    /// One thing in a paragraph, after the comments before it.
    fn paragraph_part(&mut self) -> (r: Result<(), ParseError>)
        ensures
            final(self).agrees(r, old(self)@.paragraph_part()),
    {
        match self.peek() {
            Some(Token::Gimmeh) => {
                self.advance();
                let found = self.found();
                self.inline(ParseError::UnexpectedElementInParagraph { found })
            },
            Some(Token::Maek) => {
                self.advance();
                if self.at(&Token::List) {
                    self.parse_list()
                } else {
                    let found = self.found();
                    self.fail(ParseError::ExpectedListInParagraph { found })
                }
            },
            Some(Token::IHaz) => self.fail(ParseError::DefinitionInParagraph),
            Some(Token::I) => self.fail(ParseError::DefinitionInParagraph),
            Some(Token::LemmeSee) => self.parse_variable_use(),
            Some(Token::Text(_)) => self.parse_inner_text(),
            _ => {
                let found = self.found();
                self.fail(ParseError::UnexpectedInParagraph { found })
            },
        }
    }

    /// One thing in the body, after the comments before it.
    fn body_part(&mut self) -> (r: Result<(), ParseError>)
        ensures
            final(self).agrees(r, old(self)@.body_part()),
    {
        match self.peek() {
            Some(Token::Maek) => {
                self.advance();
                match self.peek() {
                    Some(Token::Paragraf) => self.parse_paragraph(),
                    Some(Token::List) => self.parse_list(),
                    _ => {
                        let found = self.found();
                        self.fail(ParseError::ExpectedBlock { found })
                    },
                }
            },
            Some(Token::IHaz) => self.parse_variable_define(),
            Some(Token::LemmeSee) => self.parse_variable_use(),
            Some(Token::Gimmeh) => self.parse_gimmeh_body_element(),
            Some(Token::Text(_)) => self.parse_inner_text(),
            Some(Token::Bold) => {
                self.advance();
                Ok(())
            },
            Some(Token::Italics) => {
                self.advance();
                Ok(())
            },
            Some(Token::Soundz(_)) => {
                self.advance();
                Ok(())
            },
            Some(Token::Vidz(_)) => {
                self.advance();
                Ok(())
            },
            Some(Token::Newline) => {
                self.advance();
                Ok(())
            },
            _ => {
                let found = self.found();
                self.fail(ParseError::UnexpectedInBody { found })
            },
        }
    }
}

impl SyntaxAnalyzer for Parser {
    /// Compiles the whole document.
    fn parse_lolcode(&mut self) -> (r: Result<(), ParseError>)
        ensures
            final(self).agrees(r, old(self)@.document()),
    {
        self.parse()
    }

    /// The head block, which is there when `#MAEK HEAD` stands under the
    /// cursor and else is nothing.
    fn parse_head(&mut self) -> (r: Result<(), ParseError>)
        ensures
            final(self).agrees(r, old(self)@.head()),
    {
        if self.at(&Token::Maek) && self.next_is(&Token::Head) {
            self.advance();
            self.expect(&Token::Head)?;
            self.emit("<head>\n");
            self.parse_comments()?;
            self.parse_title()?;
            self.parse_comments()?;
            self.expect(&Token::Oic)?;
            self.emit("</head>\n");
        }
        Ok(())
    }

    /// The title: `#GIMMEH TITLE`, one text, `#MKAY`.
    fn parse_title(&mut self) -> (r: Result<(), ParseError>)
        ensures
            final(self).agrees(r, old(self)@.title()),
    {
        self.expect(&Token::Gimmeh)?;
        self.expect(&Token::Title)?;
        self.emit("<title>");
        self.copy_text(ParseError::TitleWithoutText)?;
        self.expect(&Token::Mkay)?;
        self.emit("</title>\n");
        Ok(())
    }

    /// Any number of comments.
    fn parse_comment(&mut self) -> (r: Result<(), ParseError>)
        ensures
            final(self).agrees(r, old(self)@.comments()),
    {
        self.parse_comments()
    }

    /// The body, up to `#KTHXBYE`.
    fn parse_body(&mut self) -> (r: Result<(), ParseError>)
        ensures
            final(self).agrees(r, old(self)@.body()),
    {
        loop
            invariant
                self@.body() == old(self)@.body(),
            ensures
                self@ == old(self)@.body(),
            decreases self@.left(),
        {
            if self.at(&Token::Kthxbye) {
                break;
            }
            proof {
                let first = self@.comments();
                lemma_comments_moves(self@);
                lemma_body_part_moves(first);
                lemma_body_moves(first);
                lemma_body_moves(first.body_part());
            }
            self.parse_comments()?;
            self.body_part()?;
        }
        Ok(())
    }

    /// A paragraph, from behind its `#MAEK`.
    fn parse_paragraph(&mut self) -> (r: Result<(), ParseError>)
        ensures
            final(self).agrees(r, old(self)@.paragraph()),
    {
        self.expect(&Token::Paragraf)?;
        self.emit("<p>");
        loop
            invariant
                self@.paragraph_parts() == old(self)@.expect(Lexeme::Paragraf).emit(
                    "<p>"@,
                ).paragraph_parts(),
            ensures
                self@ == old(self)@.expect(Lexeme::Paragraf).emit("<p>"@).paragraph_parts(),
            decreases self@.left(),
        {
            if self.at(&Token::Oic) {
                break;
            }
            proof {
                lemma_inner_paragraph_moves(self@);
                lemma_paragraph_parts_moves(self@.inner_paragraph());
            }
            self.parse_inner_paragraph()?;
        }
        self.expect(&Token::Oic)?;
        self.emit("</p>\n");
        Ok(())
    }

    /// Comments, then one thing in a paragraph.
    fn parse_inner_paragraph(&mut self) -> (r: Result<(), ParseError>)
        ensures
            final(self).agrees(r, old(self)@.inner_paragraph()),
    {
        self.parse_comments()?;
        self.paragraph_part()
    }

    /// Free text, written to the output as it is.
    fn parse_inner_text(&mut self) -> (r: Result<(), ParseError>)
        ensures
            final(self).agrees(r, old(self)@.inner_text()),
    {
        self.copy_text(ParseError::NotAtText)
    }

    /// A variable definition, from its `#I HAZ`.
    fn parse_variable_define(&mut self) -> (r: Result<(), ParseError>)
        ensures
            final(self).agrees(r, old(self)@.define()),
    {
        self.expect(&Token::IHaz)?;
        self.parse_variable_define_core()
    }

    /// A variable use: `#LEMME SEE`, the name, `#MKAY`.
    fn parse_variable_use(&mut self) -> (r: Result<(), ParseError>)
        ensures
            final(self).agrees(r, old(self)@.use_variable()),
    {
        self.expect(&Token::LemmeSee)?;
        let name = self.pass_text(ParseError::MissingUseName)?;
        self.expect(&Token::Mkay)?;
        match self.variables.get(name.as_str()) {
            Some(value) => {
                self.output.append(value.as_str());
                Ok(())
            },
            None => self.fail(ParseError::Undefined { name }),
        }
    }

    /// Bold: `BOLD`, at most one text, `#MKAY`.
    fn parse_bold(&mut self) -> (r: Result<(), ParseError>)
        ensures
            final(self).agrees(r, old(self)@.bold()),
    {
        self.expect(&Token::Bold)?;
        self.emit("<b>");
        match self.peek() {
            Some(Token::Text(_)) => {
                self.parse_inner_text()?;
            },
            _ => {},
        }
        self.expect(&Token::Mkay)?;
        self.emit("</b>");
        Ok(())
    }

    /// Italics: `ITALICS`, at most one text, `#MKAY`.
    fn parse_italics(&mut self) -> (r: Result<(), ParseError>)
        ensures
            final(self).agrees(r, old(self)@.italics()),
    {
        self.expect(&Token::Italics)?;
        self.emit("<i>");
        match self.peek() {
            Some(Token::Text(_)) => {
                self.parse_inner_text()?;
            },
            _ => {},
        }
        self.expect(&Token::Mkay)?;
        self.emit("</i>");
        Ok(())
    }

    /// A list, from behind its `#MAEK`.
    fn parse_list(&mut self) -> (r: Result<(), ParseError>)
        ensures
            final(self).agrees(r, old(self)@.list()),
    {
        self.expect(&Token::List)?;
        self.emit("<ul>\n");
        self.parse_list_items()?;
        self.expect(&Token::Oic)?;
        self.emit("</ul>\n");
        Ok(())
    }

    /// The items of a list: comments, then one item or more.
    fn parse_list_items(&mut self) -> (r: Result<(), ParseError>)
        ensures
            final(self).agrees(r, old(self)@.items()),
    {
        let mut any: bool = false;
        self.parse_comments()?;
        let ghost first = self@;
        loop
            invariant
                first == old(self)@.comments(),
                first.ok(),
                !any ==> self@ == first,
                any ==> first.peek() == Some(Lexeme::Gimmeh),
                self@.more_items() == first.more_items(),
            ensures
                first.ok(),
                !any ==> self@ == first && first.peek() != Some(Lexeme::Gimmeh),
                any ==> first.peek() == Some(Lexeme::Gimmeh),
                self@ == first.more_items(),
            decreases self@.left(),
        {
            if !self.at(&Token::Gimmeh) {
                break;
            }
            proof {
                lemma_item_moves(self@);
                lemma_more_items_moves(self@.item());
            }
            self.item()?;
            any = true;
        }
        if !any {
            return self.fail(ParseError::EmptyList);
        }
        Ok(())
    }

    /// The items of a list.
    fn parse_inner_list(&mut self) -> (r: Result<(), ParseError>)
        ensures
            final(self).agrees(r, old(self)@.items()),
    {
        self.parse_list_items()
    }

    /// Audio: the token that carries the address, then `#MKAY`.
    fn parse_audio(&mut self) -> (r: Result<(), ParseError>)
        ensures
            final(self).agrees(r, old(self)@.audio()),
    {
        let address = match self.peek() {
            Some(Token::Soundz(address)) => address.clone(),
            _ => {
                return self.fail(ParseError::NotAtSoundz);
            },
        };
        self.advance();
        self.expect(&Token::Mkay)?;
        let ghost before = self.output@;
        self.output.append("<audio controls><source src=\"");
        self.output.append(address.as_str());
        self.output.append("\" type=\"audio/mp3\"></audio>\n");
        assert(self.output@ =~= before + audio_element(address@));
        Ok(())
    }

    /// Video: the token that carries the address, then `#MKAY`.
    fn parse_video(&mut self) -> (r: Result<(), ParseError>)
        ensures
            final(self).agrees(r, old(self)@.video()),
    {
        let address = match self.peek() {
            Some(Token::Vidz(address)) => address.clone(),
            _ => {
                return self.fail(ParseError::NotAtVidz);
            },
        };
        self.advance();
        self.expect(&Token::Mkay)?;
        let ghost before = self.output@;
        self.output.append("<iframe src=\"");
        self.output.append(address.as_str());
        self.output.append("\" frameborder=\"0\" allowfullscreen></iframe>\n");
        assert(self.output@ =~= before + video_element(address@));
        Ok(())
    }

    /// A forced line break: the one token `NEWLINE`.
    fn parse_newline(&mut self) -> (r: Result<(), ParseError>)
        ensures
            final(self).agrees(r, old(self)@.newline()),
    {
        self.expect(&Token::Newline)?;
        self.emit("<br>\n");
        Ok(())
    }
}

} // verus!
