//! The tokenizer as mathematics: how a text is cut into lexical units and
//! which tokens each unit yields.

use vstd::prelude::*;
use crate::text::{is_white_space, uppercase};
use crate::token::Lexeme;

verus! {

/// The three kinds of character run that the tokenizer reads.
#[derive(Debug, Clone, Copy, PartialEq, Eq)]
pub enum Span {
    /// White space.
    Space,
    /// A word: anything but white space and `#`.
    Word,
    /// Free text: anything but `#`.
    Text,
}

/// Whether a run of the given kind goes on over `c`.
pub open spec fn keeps(kind: Span, c: char) -> bool {
    match kind {
        Span::Space => is_white_space(c),
        Span::Word => !is_white_space(c) && c != '#',
        Span::Text => c != '#',
    }
}

/// The length of the longest prefix of `s` that is a run of the given kind.
pub open spec fn span(s: Seq<char>, kind: Span) -> nat
    decreases s.len(),
{
    if s.len() > 0 && keeps(kind, s[0]) {
        1 + span(s.skip(1), kind)
    } else {
        0
    }
}

/// The number of newline characters in `s`.
pub open spec fn newlines(s: Seq<char>) -> nat
    decreases s.len(),
{
    if s.len() == 0 {
        0
    } else {
        newlines(s.drop_last()) + if s.last() == '\n' { 1nat } else { 0nat }
    }
}

/// What a `#` annotation can be, by its upper-case core.
#[derive(Debug, Clone, Copy, PartialEq, Eq)]
pub enum Annotation {
    Hai,
    Kthxbye,
    Obtw,
    Tldr,
    Maek,
    Oic,
    Mkay,
    Gimmeh,
    I,
    It,
    Lemme,
    Head,
    Paragraf,
    List,
    Unknown,
}

/// What may follow `#GIMMEH`, by the upper-case word.
#[derive(Debug, Clone, Copy, PartialEq, Eq)]
pub enum Element {
    Bold,
    Italics,
    Title,
    Soundz,
    Vidz,
    Item,
    Newline,
    Unknown,
}

/// A bare word that stands for a block keyword.
#[derive(Debug, Clone, Copy, PartialEq, Eq)]
pub enum Alias {
    Paragraf,
    List,
    Head,
    /// Any other word: the start of free text.
    Plain,
}

/// The annotation that an upper-case core names.
pub open spec fn annotation_of(upper: Seq<char>) -> Annotation {
    if upper =~= seq!['H', 'A', 'I'] {
        Annotation::Hai
    } else if upper =~= seq!['K', 'T', 'H', 'X', 'B', 'Y', 'E'] {
        Annotation::Kthxbye
    } else if upper =~= seq!['O', 'B', 'T', 'W'] {
        Annotation::Obtw
    } else if upper =~= seq!['T', 'L', 'D', 'R'] {
        Annotation::Tldr
    } else if upper =~= seq!['M', 'A', 'E', 'K'] {
        Annotation::Maek
    } else if upper =~= seq!['O', 'I', 'C'] {
        Annotation::Oic
    } else if upper =~= seq!['M', 'K', 'A', 'Y'] {
        Annotation::Mkay
    } else if upper =~= seq!['G', 'I', 'M', 'M', 'E', 'H'] {
        Annotation::Gimmeh
    } else if upper =~= seq!['I'] {
        Annotation::I
    } else if upper =~= seq!['I', 'T'] {
        Annotation::It
    } else if upper =~= seq!['L', 'E', 'M', 'M', 'E'] {
        Annotation::Lemme
    } else if upper =~= seq!['H', 'E', 'A', 'D'] {
        Annotation::Head
    } else if upper =~= seq!['P', 'A', 'R', 'A', 'G', 'R', 'A', 'F'] {
        Annotation::Paragraf
    } else if upper =~= seq!['L', 'I', 'S', 'T'] {
        Annotation::List
    } else {
        Annotation::Unknown
    }
}

/// The inline element that an upper-case word after `#GIMMEH` names.
pub open spec fn element_of(upper: Seq<char>) -> Element {
    if upper =~= seq!['B', 'O', 'L', 'D'] {
        Element::Bold
    } else if upper =~= seq!['I', 'T', 'A', 'L', 'I', 'C', 'S'] {
        Element::Italics
    } else if upper =~= seq!['T', 'I', 'T', 'L', 'E'] {
        Element::Title
    } else if upper =~= seq!['S', 'O', 'U', 'N', 'D', 'Z'] {
        Element::Soundz
    } else if upper =~= seq!['V', 'I', 'D', 'Z'] {
        Element::Vidz
    } else if upper =~= seq!['I', 'T', 'E', 'M'] {
        Element::Item
    } else if upper =~= seq!['N', 'E', 'W', 'L', 'I', 'N', 'E'] {
        Element::Newline
    } else {
        Element::Unknown
    }
}

/// The block keyword that an upper-case bare word stands for, if any.
pub open spec fn alias_of(upper: Seq<char>) -> Alias {
    if upper =~= seq!['P', 'A', 'R', 'A', 'G', 'R', 'A', 'F'] {
        Alias::Paragraf
    } else if upper =~= seq!['L', 'I', 'S', 'T'] {
        Alias::List
    } else if upper =~= seq!['H', 'E', 'A', 'D'] {
        Alias::Head
    } else {
        Alias::Plain
    }
}

/// Why tokenization stopped.
pub enum LexFailureKind {
    /// A `#` word outside the vocabulary; the word as written, without `#`.
    UnknownAnnotation(Seq<char>),
    /// `#I` without `HAZ` after it.
    ExpectedHaz,
    /// `#IT` without `IZ` after it.
    ExpectedIz,
    /// `#LEMME` without `SEE` after it.
    ExpectedSee,
    /// `#GIMMEH` before a word that names no element; the word in upper case.
    UnknownGimmeh(Seq<char>),
}

/// A failure of the tokenizer and the line on which it stopped.
pub struct LexFailure {
    pub kind: LexFailureKind,
    pub line: nat,
}

/// The text still to be read, and the number of the line reached.
pub struct Input {
    pub rest: Seq<char>,
    pub line: nat,
}

impl Input {
    /// Reading `n` characters: they leave the text, and each newline among
    /// them moves the line number on by one.
    pub open spec fn eat(self, n: nat) -> Input {
        Input { rest: self.rest.skip(n as int), line: self.line + newlines(self.rest.take(n as int)) }
    }

    /// The white space at the front.
    pub open spec fn spaces(self) -> nat {
        span(self.rest, Span::Space)
    }

    /// The input after the white space at the front.
    pub open spec fn skip_spaces(self) -> Input {
        self.eat(self.spaces())
    }

    /// The word at the front: everything up to white space, `#` or the end.
    pub open spec fn word(self) -> Seq<char> {
        self.rest.take(span(self.rest, Span::Word) as int)
    }

    /// The free text at the front: everything up to `#` or the end.
    pub open spec fn text(self) -> Seq<char> {
        self.rest.take(span(self.rest, Span::Text) as int)
    }
}

/// A state of the tokenizer: the input left, the tokens made so far, and the
/// failure that stopped it, if one did.
pub struct Scan {
    pub input: Input,
    pub tokens: Seq<Lexeme>,
    pub failure: Option<LexFailure>,
}

impl Scan {
    /// The state before anything of `source` is read, on line 1.
    pub open spec fn start(source: Seq<char>) -> Scan {
        Scan {
            input: Input { rest: source, line: 1 },
            tokens: Seq::empty(),
            failure: None,
        }
    }

    /// Reading `n` characters.
    pub open spec fn eat(self, n: nat) -> Scan {
        Scan { input: self.input.eat(n), ..self }
    }

    /// Reading the white space at the front.
    pub open spec fn skip_spaces(self) -> Scan {
        Scan { input: self.input.skip_spaces(), ..self }
    }

    /// Making `token`.
    pub open spec fn emit(self, token: Lexeme) -> Scan {
        Scan { tokens: self.tokens.push(token), ..self }
    }

    /// Stopping here: the failure carries the line reached.
    pub open spec fn fail(self, kind: LexFailureKind) -> Scan {
        Scan { failure: Some(LexFailure { kind, line: self.input.line }), ..self }
    }

    /// The second word of a two-word keyword: after white space the word
    /// `second`, in any case, completes the keyword to `token`.
    pub open spec fn pair(self, second: Seq<char>, token: Lexeme, otherwise: LexFailureKind) -> Scan {
        let at = self.skip_spaces();
        let word = at.input.word();
        let after = at.eat(word.len());
        if uppercase(word) == second {
            after.emit(token)
        } else {
            after.fail(otherwise)
        }
    }

    /// What follows `#GIMMEH`: after white space one word that names the
    /// element. A style is followed by white space and free text, which
    /// becomes a text token unless it is empty; a medium by white space and
    /// one word, its address.
    pub open spec fn element(self) -> Scan {
        let at = self.skip_spaces();
        let word = at.input.word();
        let upper = uppercase(word);
        let after = at.eat(word.len());
        match element_of(upper) {
            Element::Bold => after.styled(Lexeme::Bold),
            Element::Italics => after.styled(Lexeme::Italics),
            Element::Title => after.styled(Lexeme::Title),
            Element::Soundz => {
                let at = after.skip_spaces();
                let address = at.input.word();
                at.eat(address.len()).emit(Lexeme::Soundz(address))
            },
            Element::Vidz => {
                let at = after.skip_spaces();
                let address = at.input.word();
                at.eat(address.len()).emit(Lexeme::Vidz(address))
            },
            Element::Item => after.emit(Lexeme::Item),
            Element::Newline => after.emit(Lexeme::Newline),
            Element::Unknown => after.fail(LexFailureKind::UnknownGimmeh(upper)),
        }
    }

    /// A style opener and the free text after it.
    pub open spec fn styled(self, opener: Lexeme) -> Scan {
        let at = self.skip_spaces();
        let text = at.input.text();
        let after = at.eat(text.len()).emit(opener);
        if text.len() > 0 {
            after.emit(Lexeme::Text(text))
        } else {
            after
        }
    }

    /// An annotation, read from behind its `#`: the core runs up to white
    /// space, `#` or the end, and its upper-case form decides.
    pub open spec fn annotation(self) -> Scan {
        let core = self.input.word();
        let after = self.eat(core.len());
        match annotation_of(uppercase(core)) {
            Annotation::Hai => after.emit(Lexeme::Hai),
            Annotation::Kthxbye => after.emit(Lexeme::Kthxbye),
            Annotation::Obtw => after.emit(Lexeme::Obtw),
            Annotation::Tldr => after.emit(Lexeme::Tldr),
            Annotation::Maek => after.emit(Lexeme::Maek),
            Annotation::Oic => after.emit(Lexeme::Oic),
            Annotation::Mkay => after.emit(Lexeme::Mkay),
            Annotation::Gimmeh => after.emit(Lexeme::Gimmeh).element(),
            Annotation::I => after.pair(seq!['H', 'A', 'Z'], Lexeme::IHaz, LexFailureKind::ExpectedHaz),
            Annotation::It => after.pair(seq!['I', 'Z'], Lexeme::ItIz, LexFailureKind::ExpectedIz),
            Annotation::Lemme => after.pair(seq!['S', 'E', 'E'], Lexeme::LemmeSee, LexFailureKind::ExpectedSee),
            Annotation::Head => after.emit(Lexeme::Head),
            Annotation::Paragraf => after.emit(Lexeme::Paragraf),
            Annotation::List => after.emit(Lexeme::List),
            Annotation::Unknown => after.fail(LexFailureKind::UnknownAnnotation(core)),
        }
    }

    /// A bare word: a block keyword by itself, or else the start of free
    /// text that runs up to the next `#`.
    pub open spec fn bare(self) -> Scan {
        let word = self.input.word();
        match alias_of(uppercase(word)) {
            Alias::Paragraf => self.eat(word.len()).emit(Lexeme::Paragraf),
            Alias::List => self.eat(word.len()).emit(Lexeme::List),
            Alias::Head => self.eat(word.len()).emit(Lexeme::Head),
            Alias::Plain => {
                let text = self.input.text();
                self.eat(text.len()).emit(Lexeme::Text(text))
            },
        }
    }

    /// One lexical unit, read from a text that is not empty: a white space
    /// character, an annotation, or a bare word.
    pub open spec fn step(self) -> Scan {
        let c = self.input.rest[0];
        if is_white_space(c) {
            self.eat(1)
        } else if c == '#' {
            self.eat(1).annotation()
        } else {
            self.bare()
        }
    }

    /// Reading at most `n` units, and none after a failure or the end.
    pub open spec fn steps(self, n: nat) -> Scan
        decreases n,
    {
        if n == 0 || self.failure is Some || self.input.rest.len() == 0 {
            self
        } else {
            self.step().steps((n - 1) as nat)
        }
    }

    /// Reading unit after unit until the text is empty or a unit fails.
    pub open spec fn run(self) -> Scan
        decreases self.input.rest.len(),
    {
        if self.failure is Some || self.input.rest.len() == 0 {
            self
        } else {
            proof {
                lemma_step_shortens(self);
            }
            self.step().run()
        }
    }

    /// The tokens of a finished scan, or the reason of the failure that
    /// stopped it, without its line.
    pub open spec fn outline(self) -> Result<Seq<Lexeme>, LexFailureKind> {
        match self.failure {
            Some(failure) => Err(failure.kind),
            None => Ok(self.tokens),
        }
    }

    /// The tokens of a finished scan, or the failure that stopped it.
    pub open spec fn outcome(self) -> Result<Seq<Lexeme>, LexFailure> {
        match self.failure {
            Some(failure) => Err(failure),
            None => Ok(self.tokens),
        }
    }
}

/// The tokens of `source`, or the failure on which its tokenization stops.
pub open spec fn tokenize(source: Seq<char>) -> Result<Seq<Lexeme>, LexFailure> {
    Scan::start(source).run().outcome()
}

/// A run lies within the text.
pub proof fn lemma_span_bound(s: Seq<char>, kind: Span)
    ensures
        span(s, kind) <= s.len(),
    decreases s.len(),
{
    if s.len() > 0 && keeps(kind, s[0]) {
        lemma_span_bound(s.skip(1), kind);
    }
}

/// Free text begins with the word at its front.
pub proof fn lemma_word_then_text(s: Seq<char>)
    ensures
        span(s, Span::Word) <= s.len(),
        span(s, Span::Text) == span(s, Span::Word) + span(
            s.skip(span(s, Span::Word) as int),
            Span::Text,
        ),
    decreases s.len(),
{
    lemma_span_bound(s, Span::Word);
    if s.len() > 0 && keeps(Span::Word, s[0]) {
        let tail = s.skip(1);
        lemma_word_then_text(tail);
        assert(tail.skip(span(tail, Span::Word) as int) =~= s.skip(span(s, Span::Word) as int));
    } else {
        assert(s.skip(0) =~= s);
    }
}

/// Reading nothing changes nothing.
pub proof fn lemma_eat_nothing(input: Input)
    ensures
        input.eat(0) == input,
{
    assert(input.rest.skip(0) =~= input.rest);
    assert(input.rest.take(0) =~= Seq::<char>::empty());
}

/// The newlines of two texts add up.
pub proof fn lemma_newlines_add(a: Seq<char>, b: Seq<char>)
    ensures
        newlines(a + b) == newlines(a) + newlines(b),
    decreases b.len(),
{
    if b.len() == 0 {
        assert(a + b =~= a);
    } else {
        assert((a + b).drop_last() =~= a + b.drop_last());
        lemma_newlines_add(a, b.drop_last());
    }
}

/// A text has no more newlines than characters.
pub proof fn lemma_newlines_bound(s: Seq<char>)
    ensures
        newlines(s) <= s.len(),
    decreases s.len(),
{
    if s.len() > 0 {
        lemma_newlines_bound(s.drop_last());
    }
}

/// A single character is a newline or it is not.
pub proof fn lemma_newlines_one(c: char)
    ensures
        newlines(seq![c]) == if c == '\n' { 1nat } else { 0nat },
{
    assert(seq![c].drop_last() =~= Seq::<char>::empty());
    assert(newlines(seq![c].drop_last()) == 0);
}

/// Reading in two goes is reading in one.
pub proof fn lemma_eat_eat(input: Input, a: nat, b: nat)
    requires
        a + b <= input.rest.len(),
    ensures
        input.eat(a).eat(b) == input.eat(a + b),
{
    let rest = input.rest;
    assert(rest.skip(a as int).skip(b as int) =~= rest.skip((a + b) as int));
    assert(rest.take((a + b) as int) =~= rest.take(a as int) + rest.skip(a as int).take(b as int));
    lemma_newlines_add(rest.take(a as int), rest.skip(a as int).take(b as int));
}

/// The newlines read and the newlines left are the newlines of the whole.
pub proof fn lemma_eat_newlines(input: Input, n: nat)
    requires
        n <= input.rest.len(),
    ensures
        input.eat(n).line + newlines(input.eat(n).rest) == input.line + newlines(input.rest),
{
    let rest = input.rest;
    assert(rest =~= rest.take(n as int) + rest.skip(n as int));
    lemma_newlines_add(rest.take(n as int), rest.skip(n as int));
}

/// Whether `tail` is what is left of `text` when a part at its front is
/// taken away.
pub open spec fn is_tail(tail: Seq<char>, text: Seq<char>) -> bool {
    tail.len() <= text.len() && tail == text.skip(text.len() - tail.len())
}

/// What is left of what is left is left.
pub proof fn lemma_tail_chain(a: Seq<char>, b: Seq<char>, c: Seq<char>)
    requires
        is_tail(a, b),
        is_tail(b, c),
    ensures
        is_tail(a, c),
{
    assert(c.skip(c.len() - b.len()).skip(b.len() - a.len()) =~= c.skip(c.len() - a.len()));
}

/// Reading leaves the rest of the text.
pub proof fn lemma_eat_tail(scan: Scan, n: nat)
    requires
        n <= scan.input.rest.len(),
    ensures
        is_tail(scan.eat(n).input.rest, scan.input.rest),
        scan.eat(n).input.rest.len() == scan.input.rest.len() - n,
{
}

/// Every unit shortens the text, and leaves the rest of it.
pub proof fn lemma_step_shortens(scan: Scan)
    requires
        scan.input.rest.len() > 0,
    ensures
        scan.step().input.rest.len() < scan.input.rest.len(),
        is_tail(scan.step().input.rest, scan.input.rest),
{
    let rest = scan.input.rest;
    let c = rest[0];
    lemma_eat_tail(scan, 1);
    if is_white_space(c) {
    } else if c == '#' {
        let behind = scan.eat(1);
        lemma_annotation_bound(behind);
        lemma_tail_chain(scan.step().input.rest, behind.input.rest, rest);
    } else {
        lemma_span_bound(rest, Span::Word);
        lemma_span_bound(rest, Span::Text);
        assert(span(rest, Span::Word) >= 1);
        assert(span(rest, Span::Text) >= 1);
    }
}

/// Skipping white space leaves the rest of the text.
pub proof fn lemma_skip_spaces_bound(scan: Scan)
    ensures
        is_tail(scan.skip_spaces().input.rest, scan.input.rest),
{
    lemma_span_bound(scan.input.rest, Span::Space);
}

/// Reading a word leaves the rest of the text.
pub proof fn lemma_word_bound(scan: Scan)
    ensures
        scan.input.word().len() <= scan.input.rest.len(),
        is_tail(scan.eat(scan.input.word().len()).input.rest, scan.input.rest),
{
    lemma_span_bound(scan.input.rest, Span::Word);
}

/// Reading free text leaves the rest of the text.
pub proof fn lemma_text_bound(scan: Scan)
    ensures
        scan.input.text().len() <= scan.input.rest.len(),
        is_tail(scan.eat(scan.input.text().len()).input.rest, scan.input.rest),
{
    lemma_span_bound(scan.input.rest, Span::Text);
}

/// White space and a word behind it leave the rest of the text.
pub proof fn lemma_next_word_bound(scan: Scan)
    ensures
        is_tail(
            scan.skip_spaces().eat(scan.skip_spaces().input.word().len()).input.rest,
            scan.input.rest,
        ),
{
    let at = scan.skip_spaces();
    lemma_skip_spaces_bound(scan);
    lemma_word_bound(at);
    lemma_tail_chain(at.eat(at.input.word().len()).input.rest, at.input.rest, scan.input.rest);
}

/// The second word of a keyword leaves the rest of the text.
pub proof fn lemma_pair_bound(scan: Scan, second: Seq<char>, token: Lexeme, otherwise: LexFailureKind)
    ensures
        is_tail(scan.pair(second, token, otherwise).input.rest, scan.input.rest),
{
    lemma_next_word_bound(scan);
}

/// A style and its text leave the rest of the text.
pub proof fn lemma_styled_bound(scan: Scan, opener: Lexeme)
    ensures
        is_tail(scan.styled(opener).input.rest, scan.input.rest),
{
    let at = scan.skip_spaces();
    lemma_skip_spaces_bound(scan);
    lemma_text_bound(at);
    lemma_tail_chain(at.eat(at.input.text().len()).input.rest, at.input.rest, scan.input.rest);
}

/// An element leaves the rest of the text.
pub proof fn lemma_element_bound(scan: Scan)
    ensures
        is_tail(scan.element().input.rest, scan.input.rest),
{
    let at = scan.skip_spaces();
    let after = at.eat(at.input.word().len());
    lemma_next_word_bound(scan);
    lemma_styled_bound(after, Lexeme::Bold);
    lemma_styled_bound(after, Lexeme::Italics);
    lemma_styled_bound(after, Lexeme::Title);
    lemma_next_word_bound(after);
    assert(after.input.rest.skip(0) =~= after.input.rest);
    lemma_tail_chain(scan.element().input.rest, after.input.rest, scan.input.rest);
}

/// An annotation leaves the rest of the text.
pub proof fn lemma_annotation_bound(scan: Scan)
    ensures
        is_tail(scan.annotation().input.rest, scan.input.rest),
{
    lemma_word_bound(scan);
    let after = scan.eat(scan.input.word().len());
    lemma_element_bound(after.emit(Lexeme::Gimmeh));
    lemma_pair_bound(after, seq!['H', 'A', 'Z'], Lexeme::IHaz, LexFailureKind::ExpectedHaz);
    lemma_pair_bound(after, seq!['I', 'Z'], Lexeme::ItIz, LexFailureKind::ExpectedIz);
    lemma_pair_bound(after, seq!['S', 'E', 'E'], Lexeme::LemmeSee, LexFailureKind::ExpectedSee);
    assert(after.input.rest.skip(0) =~= after.input.rest);
    lemma_tail_chain(scan.annotation().input.rest, after.input.rest, scan.input.rest);
}

/// Units leave the rest of the text; a scan that has failed, and one that
/// has read all, stay as they are.
pub proof fn lemma_steps_bound(scan: Scan, n: nat)
    ensures
        is_tail(scan.steps(n).input.rest, scan.input.rest),
        scan.steps(n) == scan || scan.steps(n).input.rest.len() < scan.input.rest.len(),
        scan.failure is Some ==> scan.steps(n) == scan,
    decreases n,
{
    if n == 0 || scan.failure is Some || scan.input.rest.len() == 0 {
        assert(scan.input.rest.skip(0) =~= scan.input.rest);
    } else {
        lemma_step_shortens(scan);
        lemma_steps_bound(scan.step(), (n - 1) as nat);
        lemma_tail_chain(scan.steps(n).input.rest, scan.step().input.rest, scan.input.rest);
    }
}

} // verus!
