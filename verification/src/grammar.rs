//! The document grammar as mathematics: what each rule does to the cursor,
//! the namespace and the output of one compilation run.

use vstd::prelude::*;
use crate::token::Lexeme;

verus! {

/// Why a compilation run stopped.
pub enum Failure {
    /// A marker was required, and another token or the end stood there.
    Expected { expected: Lexeme, found: Option<Lexeme> },
    /// A token after `#KTHXBYE`.
    TrailingContent { token: Lexeme },
    /// `#OBTW` without a `#TLDR` after it.
    UnclosedComment,
    /// `#GIMMEH TITLE` without text after it.
    TitleWithoutText,
    /// `#MAEK` in the body before something other than `PARAGRAF` or `LIST`.
    ExpectedBlock { found: Option<Lexeme> },
    /// A token that starts nothing in the body.
    UnexpectedInBody { found: Option<Lexeme> },
    /// `#GIMMEH` in the body before something that is no inline element.
    UnexpectedElementInBody { found: Option<Lexeme> },
    /// `#GIMMEH` in a paragraph before something that is no inline element.
    UnexpectedElementInParagraph { found: Option<Lexeme> },
    /// `#MAEK` in a paragraph before something other than `LIST`.
    ExpectedListInParagraph { found: Option<Lexeme> },
    /// A variable definition in a paragraph.
    DefinitionInParagraph,
    /// A token that starts nothing in a paragraph.
    UnexpectedInParagraph { found: Option<Lexeme> },
    /// `#I HAZ` without a name after it.
    MissingDefinitionName,
    /// `#IT IZ` without a value after it.
    MissingDefinitionValue,
    /// `#LEMME SEE` without a name after it.
    MissingUseName,
    /// A second definition of a variable.
    AlreadyDefined { name: Seq<char> },
    /// A use of a variable that has no definition.
    Undefined { name: Seq<char> },
    /// `#GIMMEH` in a list item before something other than `BOLD` or
    /// `ITALICS`.
    UnexpectedElementInItem { found: Option<Lexeme> },
    /// A list without an item.
    EmptyList,
    /// The audio rule, applied where no audio token stands.
    NotAtSoundz,
    /// The video rule, applied where no video token stands.
    NotAtVidz,
    /// The text rule, applied where no text token stands.
    NotAtText,
}

/// The state of one compilation run: the tokens and the cursor into them,
/// the namespace of variables, the output written so far, and the failure
/// that stopped the run, if one did.
///
/// Every rule is a function on runs. A rule applied to a run that has failed
/// changes nothing, so the first failure is the one that stays.
pub struct Run {
    pub tokens: Seq<Lexeme>,
    pub pos: nat,
    pub vars: Map<Seq<char>, Seq<char>>,
    pub out: Seq<char>,
    pub failure: Option<Failure>,
}

/// The element that plays the sound at `address`.
pub open spec fn audio_element(address: Seq<char>) -> Seq<char> {
    "<audio controls><source src=\""@ + address + "\" type=\"audio/mp3\"></audio>\n"@
}

/// The element that shows the video at `address`.
pub open spec fn video_element(address: Seq<char>) -> Seq<char> {
    "<iframe src=\""@ + address + "\" frameborder=\"0\" allowfullscreen></iframe>\n"@
}

/// The place of the first `#TLDR` at or after `from`, if there is one.
pub open spec fn closing(tokens: Seq<Lexeme>, from: nat) -> Option<nat>
    decreases tokens.len() - from,
{
    if from >= tokens.len() {
        None
    } else if tokens[from as int] == Lexeme::Tldr {
        Some(from)
    } else {
        closing(tokens, from + 1)
    }
}

impl Run {
    /// The run that stands before the first of `tokens`, with nothing
    /// defined and nothing written.
    pub open spec fn start(tokens: Seq<Lexeme>) -> Run {
        Run { tokens, pos: 0, vars: Map::empty(), out: Seq::empty(), failure: None }
    }

    /// Whether the run goes on.
    pub open spec fn ok(self) -> bool {
        self.failure is None
    }

    /// A measure of what is left to do: nothing after a failure, and
    /// otherwise more the more tokens are unread.
    pub open spec fn left(self) -> nat {
        if self.failure is Some {
            0
        } else if self.pos >= self.tokens.len() {
            1
        } else {
            (self.tokens.len() - self.pos + 1) as nat
        }
    }

    /// The token under the cursor, if the cursor has not left the tokens.
    pub open spec fn peek(self) -> Option<Lexeme> {
        if self.pos < self.tokens.len() {
            Some(self.tokens[self.pos as int])
        } else {
            None
        }
    }

    /// The token behind the one under the cursor.
    pub open spec fn peek_next(self) -> Option<Lexeme> {
        if self.pos + 1 < self.tokens.len() {
            Some(self.tokens[self.pos + 1int])
        } else {
            None
        }
    }

    /// Whether a text token stands under the cursor.
    pub open spec fn at_text(self) -> bool {
        self.peek() matches Some(Lexeme::Text(_))
    }

    /// The characters of the text token under the cursor.
    pub open spec fn text(self) -> Seq<char>
        recommends
            self.at_text(),
    {
        self.peek()->Some_0->Text_0
    }

    /// The cursor moves on by one token.
    pub open spec fn advance(self) -> Run {
        if self.ok() {
            Run { pos: self.pos + 1, ..self }
        } else {
            self
        }
    }

    /// The cursor moves to `pos`.
    pub open spec fn jump(self, pos: nat) -> Run {
        if self.ok() {
            Run { pos, ..self }
        } else {
            self
        }
    }

    /// `html` is appended to the output.
    pub open spec fn emit(self, html: Seq<char>) -> Run {
        if self.ok() {
            Run { out: self.out + html, ..self }
        } else {
            self
        }
    }

    /// The run stops with `failure`, and the output is discarded.
    pub open spec fn fail(self, failure: Failure) -> Run {
        if self.ok() {
            Run { out: Seq::empty(), failure: Some(failure), ..self }
        } else {
            self
        }
    }

    /// `name` is bound to `value`.
    pub open spec fn bind(self, name: Seq<char>, value: Seq<char>) -> Run {
        if self.ok() {
            Run { vars: self.vars.insert(name, value), ..self }
        } else {
            self
        }
    }

    /// The marker `marker` is required under the cursor and passed.
    pub open spec fn expect(self, marker: Lexeme) -> Run {
        if self.peek() == Some(marker) {
            self.advance()
        } else {
            self.fail(Failure::Expected { expected: marker, found: self.peek() })
        }
    }

    /// A text token is required under the cursor and passed.
    pub open spec fn pass_text(self, otherwise: Failure) -> Run {
        if self.at_text() {
            self.advance()
        } else {
            self.fail(otherwise)
        }
    }

    /// A text token is required under the cursor; its characters go to the
    /// output as they are.
    pub open spec fn copy_text(self, otherwise: Failure) -> Run {
        if self.at_text() {
            self.emit(self.text()).advance()
        } else {
            self.fail(otherwise)
        }
    }

    /// Free text, written to the output as it is.
    pub open spec fn inner_text(self) -> Run {
        self.copy_text(Failure::NotAtText)
    }

    /// One comment, from behind its `#OBTW`: everything up to the first
    /// `#TLDR` is passed over, whatever it is.
    pub open spec fn comment(self) -> Run {
        match closing(self.tokens, self.pos) {
            Some(end) => self.jump(end + 1),
            None => self.fail(Failure::UnclosedComment),
        }
    }

    /// Any number of comments.
    pub open spec fn comments(self) -> Run
        decreases self.left(),
    {
        if self.ok() && self.peek() == Some(Lexeme::Obtw) {
            proof {
                lemma_comment_moves(self.advance());
            }
            self.advance().comment().comments()
        } else {
            self
        }
    }

    /// The title: `#GIMMEH TITLE`, one text, `#MKAY`.
    pub open spec fn title(self) -> Run {
        self.expect(Lexeme::Gimmeh).expect(Lexeme::Title).emit("<title>"@).copy_text(
            Failure::TitleWithoutText,
        ).expect(Lexeme::Mkay).emit("</title>\n"@)
    }

    /// The head block, which is there when `#MAEK HEAD` stands under the
    /// cursor and else is nothing: a title, with comments before and after
    /// it, closed by `#OIC`.
    pub open spec fn head(self) -> Run {
        if self.peek() == Some(Lexeme::Maek) && self.peek_next() == Some(Lexeme::Head) {
            self.advance().expect(Lexeme::Head).emit("<head>\n"@).comments().title().comments().expect(
                Lexeme::Oic,
            ).emit("</head>\n"@)
        } else {
            self
        }
    }

    /// Bold: `BOLD`, at most one text, `#MKAY`.
    pub open spec fn bold(self) -> Run {
        let open = self.expect(Lexeme::Bold).emit("<b>"@);
        let inner = if open.at_text() {
            open.inner_text()
        } else {
            open
        };
        inner.expect(Lexeme::Mkay).emit("</b>"@)
    }

    /// Italics: `ITALICS`, at most one text, `#MKAY`.
    pub open spec fn italics(self) -> Run {
        let open = self.expect(Lexeme::Italics).emit("<i>"@);
        let inner = if open.at_text() {
            open.inner_text()
        } else {
            open
        };
        inner.expect(Lexeme::Mkay).emit("</i>"@)
    }

    /// Audio: the token that carries the address, then `#MKAY`.
    pub open spec fn audio(self) -> Run {
        match self.peek() {
            Some(Lexeme::Soundz(address)) => self.advance().expect(Lexeme::Mkay).emit(
                audio_element(address),
            ),
            _ => self.fail(Failure::NotAtSoundz),
        }
    }

    /// Video: the token that carries the address, then `#MKAY`.
    pub open spec fn video(self) -> Run {
        match self.peek() {
            Some(Lexeme::Vidz(address)) => self.advance().expect(Lexeme::Mkay).emit(
                video_element(address),
            ),
            _ => self.fail(Failure::NotAtVidz),
        }
    }

    /// A forced line break: the one token `NEWLINE`.
    pub open spec fn newline(self) -> Run {
        self.expect(Lexeme::Newline).emit("<br>\n"@)
    }

    /// The inline element that stands behind a `#GIMMEH`; anything else
    /// there stops the run with `otherwise`.
    pub open spec fn inline(self, otherwise: Failure) -> Run {
        match self.peek() {
            Some(Lexeme::Bold) => self.bold(),
            Some(Lexeme::Italics) => self.italics(),
            Some(Lexeme::Soundz(_)) => self.audio(),
            Some(Lexeme::Vidz(_)) => self.video(),
            Some(Lexeme::Newline) => self.newline(),
            _ => self.fail(otherwise),
        }
    }

    /// An inline element in the body, from its `#GIMMEH`.
    pub open spec fn body_element(self) -> Run {
        let behind = self.expect(Lexeme::Gimmeh);
        behind.inline(Failure::UnexpectedElementInBody { found: behind.peek() })
    }

    /// What follows `#I HAZ`: the name, `#IT IZ`, the value, `#MKAY`. The
    /// name must be new; it is bound, and nothing is written.
    pub open spec fn define_core(self) -> Run {
        let name = self.text();
        let named = self.pass_text(Failure::MissingDefinitionName).expect(Lexeme::ItIz);
        let value = named.text();
        let closed = named.pass_text(Failure::MissingDefinitionValue).expect(Lexeme::Mkay);
        if closed.vars.contains_key(name) {
            closed.fail(Failure::AlreadyDefined { name })
        } else {
            closed.bind(name, value)
        }
    }

    /// A variable definition, from its `#I HAZ`.
    pub open spec fn define(self) -> Run {
        self.expect(Lexeme::IHaz).define_core()
    }

    /// A variable use: `#LEMME SEE`, the name, `#MKAY`. The name must be
    /// bound; its value is written as it is.
    pub open spec fn use_variable(self) -> Run {
        let behind = self.expect(Lexeme::LemmeSee);
        let name = behind.text();
        let closed = behind.pass_text(Failure::MissingUseName).expect(Lexeme::Mkay);
        if closed.vars.contains_key(name) {
            closed.emit(closed.vars[name])
        } else {
            closed.fail(Failure::Undefined { name })
        }
    }

    /// One part of a list item: a bold or italic element from its
    /// `#GIMMEH`, or free text.
    pub open spec fn item_part(self) -> Run {
        if self.peek() == Some(Lexeme::Gimmeh) {
            let behind = self.advance();
            match behind.peek() {
                Some(Lexeme::Bold) => behind.bold(),
                Some(Lexeme::Italics) => behind.italics(),
                _ => behind.fail(Failure::UnexpectedElementInItem { found: behind.peek() }),
            }
        } else {
            self.inner_text()
        }
    }

    /// The parts of a list item, up to the first token that begins none.
    pub open spec fn item_parts(self) -> Run
        decreases self.left(),
    {
        if self.ok() && (self.peek() == Some(Lexeme::Gimmeh) || self.at_text()) {
            proof {
                lemma_item_part_moves(self);
            }
            self.item_part().item_parts()
        } else {
            self
        }
    }

    /// One list item, from its `#GIMMEH`: `ITEM`, the parts, `#MKAY`, and
    /// the comments behind it.
    pub open spec fn item(self) -> Run {
        self.advance().expect(Lexeme::Item).emit("<li>"@).item_parts().expect(Lexeme::Mkay).emit(
            "</li>\n"@,
        ).comments()
    }

    /// Any number of list items.
    pub open spec fn more_items(self) -> Run
        decreases self.left(),
    {
        if self.ok() && self.peek() == Some(Lexeme::Gimmeh) {
            proof {
                lemma_item_moves(self);
            }
            self.item().more_items()
        } else {
            self
        }
    }

    /// The items of a list: comments, then one item or more.
    pub open spec fn items(self) -> Run {
        let first = self.comments();
        if first.peek() == Some(Lexeme::Gimmeh) {
            first.more_items()
        } else {
            first.fail(Failure::EmptyList)
        }
    }

    /// A list, from behind its `#MAEK`: `LIST`, the items, `#OIC`.
    pub open spec fn list(self) -> Run {
        self.expect(Lexeme::List).emit("<ul>\n"@).items().expect(Lexeme::Oic).emit("</ul>\n"@)
    }

    /// One thing in a paragraph, after the comments before it: an inline
    /// element, a list, a variable use or free text.
    pub open spec fn paragraph_part(self) -> Run {
        match self.peek() {
            Some(Lexeme::Gimmeh) => {
                let behind = self.advance();
                behind.inline(Failure::UnexpectedElementInParagraph { found: behind.peek() })
            },
            Some(Lexeme::Maek) => {
                let behind = self.advance();
                if behind.peek() == Some(Lexeme::List) {
                    behind.list()
                } else {
                    behind.fail(Failure::ExpectedListInParagraph { found: behind.peek() })
                }
            },
            Some(Lexeme::IHaz) => self.fail(Failure::DefinitionInParagraph),
            Some(Lexeme::I) => self.fail(Failure::DefinitionInParagraph),
            Some(Lexeme::LemmeSee) => self.use_variable(),
            Some(Lexeme::Text(_)) => self.inner_text(),
            _ => self.fail(Failure::UnexpectedInParagraph { found: self.peek() }),
        }
    }

    /// Comments, then one thing in a paragraph.
    pub open spec fn inner_paragraph(self) -> Run {
        self.comments().paragraph_part()
    }

    /// The inside of a paragraph, up to its `#OIC`.
    pub open spec fn paragraph_parts(self) -> Run
        decreases self.left(),
    {
        if self.ok() && self.peek() != Some(Lexeme::Oic) {
            proof {
                lemma_inner_paragraph_moves(self);
            }
            self.inner_paragraph().paragraph_parts()
        } else {
            self
        }
    }

    /// A paragraph, from behind its `#MAEK`: `PARAGRAF`, the inside, `#OIC`.
    pub open spec fn paragraph(self) -> Run {
        self.expect(Lexeme::Paragraf).emit("<p>"@).paragraph_parts().expect(Lexeme::Oic).emit(
            "</p>\n"@,
        )
    }

    /// One thing in the body, after the comments before it.
    pub open spec fn body_part(self) -> Run {
        match self.peek() {
            Some(Lexeme::Maek) => {
                let behind = self.advance();
                match behind.peek() {
                    Some(Lexeme::Paragraf) => behind.paragraph(),
                    Some(Lexeme::List) => behind.list(),
                    _ => behind.fail(Failure::ExpectedBlock { found: behind.peek() }),
                }
            },
            Some(Lexeme::IHaz) => self.define(),
            Some(Lexeme::LemmeSee) => self.use_variable(),
            Some(Lexeme::Gimmeh) => self.body_element(),
            Some(Lexeme::Text(_)) => self.inner_text(),
            Some(Lexeme::Bold) => self.advance(),
            Some(Lexeme::Italics) => self.advance(),
            Some(Lexeme::Soundz(_)) => self.advance(),
            Some(Lexeme::Vidz(_)) => self.advance(),
            Some(Lexeme::Newline) => self.advance(),
            _ => self.fail(Failure::UnexpectedInBody { found: self.peek() }),
        }
    }

    /// The body, up to `#KTHXBYE`: comments and one thing, again and again.
    pub open spec fn body(self) -> Run
        decreases self.left(),
    {
        if self.ok() && self.peek() != Some(Lexeme::Kthxbye) {
            proof {
                lemma_comments_moves(self);
                lemma_body_part_moves(self.comments());
            }
            self.comments().body_part().body()
        } else {
            self
        }
    }

    /// Nothing may stand under the cursor.
    pub open spec fn end(self) -> Run {
        match self.peek() {
            Some(token) => self.fail(Failure::TrailingContent { token }),
            None => self,
        }
    }

    /// A whole document: `#HAI`, comments, the head if there is one, the
    /// body, `#KTHXBYE`, and then nothing.
    pub open spec fn document(self) -> Run {
        self.emit("<!DOCTYPE html>\n<html>\n"@).expect(Lexeme::Hai).comments().head().emit(
            "<body>\n"@,
        ).body().emit("</body>\n"@).expect(Lexeme::Kthxbye).emit("</html>\n"@).end()
    }

    /// The output of a finished run, or the failure that stopped it.
    pub open spec fn outcome(self) -> Result<Seq<char>, Failure> {
        match self.failure {
            Some(failure) => Err(failure),
            None => Ok(self.out),
        }
    }
}

/// The document that `tokens` describe, or the failure on which its
/// compilation stops.
pub open spec fn parse(tokens: Seq<Lexeme>) -> Result<Seq<char>, Failure> {
    Run::start(tokens).document().outcome()
}

/// Whether `after` is a run that rules can lead to from `before`:
/// it has the same tokens and no more left to do; a run that had failed is
/// as it was; a run that goes on has not moved its cursor back, has kept
/// every binding, and has kept everything written at the front of its
/// output; and a run that fails has discarded its output.
pub open spec fn moves(before: Run, after: Run) -> bool {
    &&& after.tokens == before.tokens
    &&& after.left() <= before.left()
    &&& before.failure is Some ==> after == before
    &&& after.ok() ==> {
        &&& before.pos <= after.pos
        &&& before.vars.submap_of(after.vars)
        &&& before.out.is_prefix_of(after.out)
    }
    &&& before.ok() && !after.ok() ==> after.out == Seq::<char>::empty()
}

/// Whether `after` has the tokens of `before` and, unless `before` had
/// failed, less left to do.
pub open spec fn moves_on(before: Run, after: Run) -> bool {
    &&& moves(before, after)
    &&& before.ok() ==> after.left() < before.left()
}

/// The first `#TLDR` at or after a place is not before it.
pub proof fn lemma_closing(tokens: Seq<Lexeme>, from: nat)
    ensures
        closing(tokens, from) matches Some(end) ==> from <= end < tokens.len() && tokens[end as int]
            == Lexeme::Tldr,
    decreases tokens.len() - from,
{
    if from < tokens.len() && tokens[from as int] != Lexeme::Tldr {
        lemma_closing(tokens, from + 1);
    }
}

/// What rules lead to, rules lead on from.
pub proof fn lemma_moves_chain(a: Run, b: Run, c: Run)
    requires
        moves(a, b),
        moves(b, c),
    ensures
        moves(a, c),
        moves_on(a, b) || moves_on(b, c) ==> moves_on(a, c),
{
    if c.ok() {
        assert forall|name: Seq<char>| #[trigger]
            a.vars.dom().contains(name) implies c.vars.dom().contains(name) && a.vars[name]
            == c.vars[name] by {
            assert(b.vars.dom().contains(name));
        }
        assert(a.out =~= c.out.subrange(0, a.out.len() as int));
    }
}

/// The steps that rules are made of lead from a run to a run.
pub proof fn lemma_steps_move(run: Run)
    ensures
        moves(run, run),
        moves(run, run.advance()),
        run.peek() is Some ==> moves_on(run, run.advance()),
        forall|html: Seq<char>| moves(run, #[trigger] run.emit(html)),
        forall|failure: Failure| moves(run, #[trigger] run.fail(failure)),
        forall|marker: Lexeme| moves_on(run, #[trigger] run.expect(marker)),
        forall|otherwise: Failure| moves_on(run, #[trigger] run.pass_text(otherwise)),
        forall|otherwise: Failure| moves_on(run, #[trigger] run.copy_text(otherwise)),
        moves_on(run, run.inner_text()),
{
    assert(run.out =~= run.out.subrange(0, run.out.len() as int));
    assert forall|html: Seq<char>| moves(run, #[trigger] run.emit(html)) by {
        assert(run.out =~= (run.out + html).subrange(0, run.out.len() as int));
    }
    assert forall|otherwise: Failure| moves_on(run, #[trigger] run.copy_text(otherwise)) by {
        assert(run.out =~= (run.out + run.text()).subrange(0, run.out.len() as int));
    }
}

/// One comment leads from a run to a run.
pub proof fn lemma_comment_moves(run: Run)
    ensures
        moves(run, run.comment()),
{
    lemma_closing(run.tokens, run.pos);
    lemma_steps_move(run);
}

/// Any number of comments leads from a run to a run.
pub proof fn lemma_comments_moves(run: Run)
    ensures
        moves(run, run.comments()),
    decreases run.left(),
{
    lemma_steps_move(run);
    if run.ok() && run.peek() == Some(Lexeme::Obtw) {
        let behind = run.advance();
        lemma_comment_moves(behind);
        lemma_comments_moves(behind.comment());
        lemma_moves_chain(run, behind, behind.comment());
        lemma_moves_chain(run, behind.comment(), run.comments());
    }
}

/// Comments write nothing and bind nothing.
pub proof fn lemma_comments_pass(run: Run)
    ensures
        run.comments().ok() ==> run.comments().out == run.out && run.comments().vars == run.vars,
    decreases run.left(),
{
    if run.ok() && run.peek() == Some(Lexeme::Obtw) {
        let behind = run.advance();
        lemma_comment_moves(behind);
        lemma_comments_pass(behind.comment());
    }
}

/// The title leads from a run to a run.
pub proof fn lemma_title_moves(run: Run)
    ensures
        moves(run, run.title()),
{
    let a = run.expect(Lexeme::Gimmeh);
    let b = a.expect(Lexeme::Title);
    let c = b.emit("<title>"@);
    let d = c.copy_text(Failure::TitleWithoutText);
    let e = d.expect(Lexeme::Mkay);
    lemma_steps_move(run);
    lemma_steps_move(a);
    lemma_steps_move(b);
    lemma_steps_move(c);
    lemma_steps_move(d);
    lemma_steps_move(e);
    lemma_moves_chain(run, a, b);
    lemma_moves_chain(run, b, c);
    lemma_moves_chain(run, c, d);
    lemma_moves_chain(run, d, e);
    lemma_moves_chain(run, e, run.title());
}

/// The head leads from a run to a run.
pub proof fn lemma_head_moves(run: Run)
    ensures
        moves(run, run.head()),
{
    lemma_steps_move(run);
    if run.peek() == Some(Lexeme::Maek) && run.peek_next() == Some(Lexeme::Head) {
        let a = run.advance();
        let b = a.expect(Lexeme::Head);
        let c = b.emit("<head>\n"@);
        let d = c.comments();
        let e = d.title();
        let f = e.comments();
        let g = f.expect(Lexeme::Oic);
        lemma_steps_move(a);
        lemma_steps_move(b);
        lemma_comments_moves(c);
        lemma_title_moves(d);
        lemma_comments_moves(e);
        lemma_steps_move(f);
        lemma_steps_move(g);
        lemma_moves_chain(run, a, b);
        lemma_moves_chain(run, b, c);
        lemma_moves_chain(run, c, d);
        lemma_moves_chain(run, d, e);
        lemma_moves_chain(run, e, f);
        lemma_moves_chain(run, f, g);
        lemma_moves_chain(run, g, run.head());
    }
}

/// A style element, of either kind: the opener, at most one text, `#MKAY`.
proof fn lemma_style_moves(run: Run, opener: Lexeme, open: Seq<char>, close: Seq<char>)
    ensures
        ({
            let a = run.expect(opener).emit(open);
            let b = if a.at_text() {
                a.inner_text()
            } else {
                a
            };
            moves_on(run, b.expect(Lexeme::Mkay).emit(close))
        }),
{
    let a = run.expect(opener);
    let b = a.emit(open);
    let c = if b.at_text() {
        b.inner_text()
    } else {
        b
    };
    let d = c.expect(Lexeme::Mkay);
    lemma_steps_move(run);
    lemma_steps_move(a);
    lemma_steps_move(b);
    lemma_steps_move(c);
    lemma_steps_move(d);
    lemma_moves_chain(run, a, b);
    lemma_moves_chain(run, b, c);
    lemma_moves_chain(run, c, d);
    lemma_moves_chain(run, d, d.emit(close));
}

/// Bold leads from a run to a run, and on.
pub proof fn lemma_bold_moves(run: Run)
    ensures
        moves_on(run, run.bold()),
{
    lemma_style_moves(run, Lexeme::Bold, "<b>"@, "</b>"@);
}

/// Italics leads from a run to a run, and on.
pub proof fn lemma_italics_moves(run: Run)
    ensures
        moves_on(run, run.italics()),
{
    lemma_style_moves(run, Lexeme::Italics, "<i>"@, "</i>"@);
}

/// A medium, of either kind: the token with the address, `#MKAY`.
proof fn lemma_medium_moves(run: Run, element: Seq<char>)
    requires
        run.peek() is Some,
    ensures
        moves_on(run, run.advance().expect(Lexeme::Mkay).emit(element)),
{
    let a = run.advance();
    let b = a.expect(Lexeme::Mkay);
    lemma_steps_move(run);
    lemma_steps_move(a);
    lemma_steps_move(b);
    lemma_moves_chain(run, a, b);
    lemma_moves_chain(run, b, b.emit(element));
}

/// Audio leads from a run to a run, and on.
pub proof fn lemma_audio_moves(run: Run)
    ensures
        moves_on(run, run.audio()),
{
    lemma_steps_move(run);
    if let Some(Lexeme::Soundz(address)) = run.peek() {
        lemma_medium_moves(run, audio_element(address));
    }
}

/// Video leads from a run to a run, and on.
pub proof fn lemma_video_moves(run: Run)
    ensures
        moves_on(run, run.video()),
{
    lemma_steps_move(run);
    if let Some(Lexeme::Vidz(address)) = run.peek() {
        lemma_medium_moves(run, video_element(address));
    }
}

/// A line break leads from a run to a run, and on.
pub proof fn lemma_newline_moves(run: Run)
    ensures
        moves_on(run, run.newline()),
{
    let a = run.expect(Lexeme::Newline);
    lemma_steps_move(run);
    lemma_steps_move(a);
    lemma_moves_chain(run, a, run.newline());
}

/// An inline element leads from a run to a run, and on.
pub proof fn lemma_inline_moves(run: Run, otherwise: Failure)
    ensures
        moves_on(run, run.inline(otherwise)),
{
    lemma_steps_move(run);
    lemma_bold_moves(run);
    lemma_italics_moves(run);
    lemma_audio_moves(run);
    lemma_video_moves(run);
    lemma_newline_moves(run);
}

/// What follows `#I HAZ` leads from a run to a run, and on.
pub proof fn lemma_define_core_moves(run: Run)
    ensures
        moves_on(run, run.define_core()),
{
    let name = run.text();
    let a = run.pass_text(Failure::MissingDefinitionName);
    let b = a.expect(Lexeme::ItIz);
    let c = b.pass_text(Failure::MissingDefinitionValue);
    let d = c.expect(Lexeme::Mkay);
    lemma_steps_move(run);
    lemma_steps_move(a);
    lemma_steps_move(b);
    lemma_steps_move(c);
    lemma_steps_move(d);
    lemma_moves_chain(run, a, b);
    lemma_moves_chain(run, b, c);
    lemma_moves_chain(run, c, d);
    assert(moves(d, run.define_core())) by {
        if d.ok() && !d.vars.contains_key(name) {
            assert(d.vars.submap_of(d.vars.insert(name, b.text())));
        }
    }
    lemma_moves_chain(run, d, run.define_core());
}

/// A definition leads from a run to a run, and on.
pub proof fn lemma_define_moves(run: Run)
    ensures
        moves_on(run, run.define()),
{
    let a = run.expect(Lexeme::IHaz);
    lemma_steps_move(run);
    lemma_define_core_moves(a);
    lemma_moves_chain(run, a, run.define());
}

/// A use leads from a run to a run, and on.
pub proof fn lemma_use_moves(run: Run)
    ensures
        moves_on(run, run.use_variable()),
{
    let a = run.expect(Lexeme::LemmeSee);
    let b = a.pass_text(Failure::MissingUseName);
    let c = b.expect(Lexeme::Mkay);
    lemma_steps_move(run);
    lemma_steps_move(a);
    lemma_steps_move(b);
    lemma_steps_move(c);
    lemma_moves_chain(run, a, b);
    lemma_moves_chain(run, b, c);
    lemma_moves_chain(run, c, run.use_variable());
}

/// One part of a list item leads from a run to a run, and on.
pub proof fn lemma_item_part_moves(run: Run)
    ensures
        moves_on(run, run.item_part()),
{
    let behind = run.advance();
    lemma_steps_move(run);
    lemma_steps_move(behind);
    lemma_bold_moves(behind);
    lemma_italics_moves(behind);
    lemma_moves_chain(run, behind, behind.bold());
    lemma_moves_chain(run, behind, behind.italics());
    lemma_moves_chain(
        run,
        behind,
        behind.fail(Failure::UnexpectedElementInItem { found: behind.peek() }),
    );
}

/// The parts of a list item leads from a run to a run.
pub proof fn lemma_item_parts_moves(run: Run)
    ensures
        moves(run, run.item_parts()),
    decreases run.left(),
{
    lemma_steps_move(run);
    if run.ok() && (run.peek() == Some(Lexeme::Gimmeh) || run.at_text()) {
        lemma_item_part_moves(run);
        lemma_item_parts_moves(run.item_part());
        lemma_moves_chain(run, run.item_part(), run.item_parts());
    }
}

/// One list item leads from a run to a run, and on.
pub proof fn lemma_item_moves(run: Run)
    requires
        run.peek() is Some,
    ensures
        moves_on(run, run.item()),
{
    let a = run.advance();
    let b = a.expect(Lexeme::Item);
    let c = b.emit("<li>"@);
    let d = c.item_parts();
    let e = d.expect(Lexeme::Mkay);
    let f = e.emit("</li>\n"@);
    lemma_steps_move(run);
    lemma_steps_move(a);
    lemma_steps_move(b);
    lemma_item_parts_moves(c);
    lemma_steps_move(d);
    lemma_steps_move(e);
    lemma_comments_moves(f);
    lemma_moves_chain(run, a, b);
    lemma_moves_chain(run, b, c);
    lemma_moves_chain(run, c, d);
    lemma_moves_chain(run, d, e);
    lemma_moves_chain(run, e, f);
    lemma_moves_chain(run, f, run.item());
}

/// Any number of list items leads from a run to a run.
pub proof fn lemma_more_items_moves(run: Run)
    ensures
        moves(run, run.more_items()),
    decreases run.left(),
{
    lemma_steps_move(run);
    if run.ok() && run.peek() == Some(Lexeme::Gimmeh) {
        lemma_item_moves(run);
        lemma_more_items_moves(run.item());
        lemma_moves_chain(run, run.item(), run.more_items());
    }
}

/// The items of a list leads from a run to a run.
pub proof fn lemma_items_moves(run: Run)
    ensures
        moves(run, run.items()),
{
    let first = run.comments();
    lemma_comments_moves(run);
    lemma_steps_move(first);
    lemma_more_items_moves(first);
    lemma_moves_chain(run, first, run.items());
}

/// A list leads from a run to a run, and on.
pub proof fn lemma_list_moves(run: Run)
    ensures
        moves_on(run, run.list()),
{
    let a = run.expect(Lexeme::List);
    let b = a.emit("<ul>\n"@);
    let c = b.items();
    let d = c.expect(Lexeme::Oic);
    lemma_steps_move(run);
    lemma_steps_move(a);
    lemma_items_moves(b);
    lemma_steps_move(c);
    lemma_steps_move(d);
    lemma_moves_chain(run, a, b);
    lemma_moves_chain(run, b, c);
    lemma_moves_chain(run, c, d);
    lemma_moves_chain(run, d, run.list());
}

/// One thing in a paragraph leads from a run to a run, and on.
pub proof fn lemma_paragraph_part_moves(run: Run)
    ensures
        moves_on(run, run.paragraph_part()),
{
    let behind = run.advance();
    lemma_steps_move(run);
    lemma_steps_move(behind);
    lemma_inline_moves(behind, Failure::UnexpectedElementInParagraph { found: behind.peek() });
    lemma_list_moves(behind);
    lemma_use_moves(run);
    lemma_moves_chain(
        run,
        behind,
        behind.inline(Failure::UnexpectedElementInParagraph { found: behind.peek() }),
    );
    lemma_moves_chain(run, behind, behind.list());
    lemma_moves_chain(
        run,
        behind,
        behind.fail(Failure::ExpectedListInParagraph { found: behind.peek() }),
    );
}

/// Comments and one thing in a paragraph leads from a run to a run, and on.
pub proof fn lemma_inner_paragraph_moves(run: Run)
    ensures
        moves_on(run, run.inner_paragraph()),
{
    lemma_comments_moves(run);
    lemma_paragraph_part_moves(run.comments());
    lemma_moves_chain(run, run.comments(), run.inner_paragraph());
}

/// The inside of a paragraph leads from a run to a run.
pub proof fn lemma_paragraph_parts_moves(run: Run)
    ensures
        moves(run, run.paragraph_parts()),
    decreases run.left(),
{
    lemma_steps_move(run);
    if run.ok() && run.peek() != Some(Lexeme::Oic) {
        lemma_inner_paragraph_moves(run);
        lemma_paragraph_parts_moves(run.inner_paragraph());
        lemma_moves_chain(run, run.inner_paragraph(), run.paragraph_parts());
    }
}

/// A paragraph leads from a run to a run, and on.
pub proof fn lemma_paragraph_moves(run: Run)
    ensures
        moves_on(run, run.paragraph()),
{
    let a = run.expect(Lexeme::Paragraf);
    let b = a.emit("<p>"@);
    let c = b.paragraph_parts();
    let d = c.expect(Lexeme::Oic);
    lemma_steps_move(run);
    lemma_steps_move(a);
    lemma_paragraph_parts_moves(b);
    lemma_steps_move(c);
    lemma_steps_move(d);
    lemma_moves_chain(run, a, b);
    lemma_moves_chain(run, b, c);
    lemma_moves_chain(run, c, d);
    lemma_moves_chain(run, d, run.paragraph());
}

/// An inline element in the body leads from a run to a run, and on.
pub proof fn lemma_body_element_moves(run: Run)
    ensures
        moves_on(run, run.body_element()),
{
    let behind = run.expect(Lexeme::Gimmeh);
    lemma_steps_move(run);
    lemma_inline_moves(behind, Failure::UnexpectedElementInBody { found: behind.peek() });
    lemma_moves_chain(run, behind, run.body_element());
}

/// One thing in the body leads from a run to a run, and on.
pub proof fn lemma_body_part_moves(run: Run)
    ensures
        moves_on(run, run.body_part()),
{
    let behind = run.advance();
    lemma_steps_move(run);
    lemma_steps_move(behind);
    lemma_paragraph_moves(behind);
    lemma_list_moves(behind);
    lemma_define_moves(run);
    lemma_use_moves(run);
    lemma_body_element_moves(run);
    lemma_moves_chain(run, behind, behind.paragraph());
    lemma_moves_chain(run, behind, behind.list());
    lemma_moves_chain(run, behind, behind.fail(Failure::ExpectedBlock { found: behind.peek() }));
}

/// The body leads from a run to a run.
pub proof fn lemma_body_moves(run: Run)
    ensures
        moves(run, run.body()),
    decreases run.left(),
{
    lemma_steps_move(run);
    if run.ok() && run.peek() != Some(Lexeme::Kthxbye) {
        let a = run.comments();
        let b = a.body_part();
        lemma_comments_moves(run);
        lemma_body_part_moves(a);
        lemma_body_moves(b);
        lemma_moves_chain(run, a, b);
        lemma_moves_chain(run, b, run.body());
    }
}

/// A document leads from a run to a run.
pub proof fn lemma_document_moves(run: Run)
    ensures
        moves(run, run.document()),
{
    let a = run.emit("<!DOCTYPE html>\n<html>\n"@);
    let b = a.expect(Lexeme::Hai);
    let c = b.comments();
    let d = c.head();
    let e = d.emit("<body>\n"@);
    let f = e.body();
    let g = f.emit("</body>\n"@);
    let h = g.expect(Lexeme::Kthxbye);
    let i = h.emit("</html>\n"@);
    lemma_steps_move(run);
    lemma_steps_move(a);
    lemma_comments_moves(b);
    lemma_head_moves(c);
    lemma_steps_move(d);
    lemma_body_moves(e);
    lemma_steps_move(f);
    lemma_steps_move(g);
    lemma_steps_move(h);
    lemma_steps_move(i);
    lemma_moves_chain(run, a, b);
    lemma_moves_chain(run, b, c);
    lemma_moves_chain(run, c, d);
    lemma_moves_chain(run, d, e);
    lemma_moves_chain(run, e, f);
    lemma_moves_chain(run, f, g);
    lemma_moves_chain(run, g, h);
    lemma_moves_chain(run, h, i);
    lemma_moves_chain(run, i, run.document());
}

} // verus!
