//! White space between lexical units does not count: the proof.

use vstd::prelude::*;
use crate::scan::{
    alias_of, annotation_of, element_of, keeps, lemma_annotation_bound, lemma_element_bound,
    lemma_next_word_bound, lemma_pair_bound, lemma_skip_spaces_bound, lemma_span_bound,
    lemma_step_shortens, lemma_steps_bound, lemma_styled_bound, lemma_text_bound,
    lemma_word_bound, lemma_word_then_text, span, tokenize, Alias, Annotation, Element, LexFailure,
    LexFailureKind, Scan, Span,
};
use crate::text::{is_white_space, uppercase};
use crate::token::Lexeme;

verus! {

/// Whether every character of `pad` is white space.
pub open spec fn all_space(pad: Seq<char>) -> bool {
    forall|i: int| 0 <= i < pad.len() ==> is_white_space(#[trigger] pad[i])
}

/// Whether the last token that `scan` has made is a text.
pub open spec fn ends_in_text(scan: Scan) -> bool {
    scan.tokens.len() > 0 && scan.tokens.last() is Text
}

/// A run that ends within `x` ends there whatever follows `x`.
proof fn lemma_span_within(x: Seq<char>, y: Seq<char>, z: Seq<char>, kind: Span)
    requires
        span(x + y, kind) < x.len(),
    ensures
        span(x + z, kind) == span(x + y, kind),
    decreases x.len(),
{
    if x.len() > 0 && keeps(kind, x[0]) {
        assert((x + y).skip(1) =~= x.skip(1) + y);
        assert((x + z).skip(1) =~= x.skip(1) + z);
        lemma_span_within(x.skip(1), y, z, kind);
    }
}

/// A run that goes over all of `x` goes on into what follows.
proof fn lemma_span_over(x: Seq<char>, y: Seq<char>, kind: Span)
    requires
        forall|i: int| 0 <= i < x.len() ==> keeps(kind, #[trigger] x[i]),
    ensures
        span(x + y, kind) == x.len() + span(y, kind),
    decreases x.len(),
{
    if x.len() > 0 {
        assert(keeps(kind, x[0]));
        assert((x + y).skip(1) =~= x.skip(1) + y);
        assert forall|i: int| 0 <= i < x.skip(1).len() implies keeps(
            kind,
            #[trigger] x.skip(1)[i],
        ) by {
            assert(x.skip(1)[i] == x[i + 1]);
        }
        lemma_span_over(x.skip(1), y, kind);
    } else {
        assert(x + y =~= y);
    }
}

/// A run that reaches the end of `x` holds all of `x`.
proof fn lemma_span_reach(x: Seq<char>, y: Seq<char>, kind: Span)
    requires
        span(x + y, kind) >= x.len(),
    ensures
        forall|i: int| 0 <= i < x.len() ==> keeps(kind, #[trigger] x[i]),
        span(x + y, kind) == x.len() + span(y, kind),
    decreases x.len(),
{
    if x.len() > 0 {
        assert(keeps(kind, x[0]));
        assert((x + y).skip(1) =~= x.skip(1) + y);
        lemma_span_reach(x.skip(1), y, kind);
        assert forall|i: int| 0 <= i < x.len() implies keeps(kind, #[trigger] x[i]) by {
            if i > 0 {
                assert(x.skip(1)[i - 1] == x[i]);
            }
        }
    } else {
        assert(x + y =~= y);
    }
}

/// White space in front of a text is a run of white space, and ends every
/// word.
proof fn lemma_span_pad(pad: Seq<char>, y: Seq<char>)
    requires
        all_space(pad),
    ensures
        span(pad + y, Span::Space) == pad.len() + span(y, Span::Space),
        pad.len() > 0 ==> span(pad + y, Span::Word) == 0,
        pad.len() == 0 ==> pad + y == y,
{
    lemma_span_over(pad, y, Span::Space);
    if pad.len() == 0 {
        assert(pad + y =~= y);
    }
}

/// A run that ends before the end of the text ends at a character that
/// does not belong to it.
proof fn lemma_span_stop(s: Seq<char>, kind: Span)
    requires
        span(s, kind) < s.len(),
    ensures
        !keeps(kind, s[span(s, kind) as int]),
    decreases s.len(),
{
    if s.len() > 0 && keeps(kind, s[0]) {
        lemma_span_stop(s.skip(1), kind);
    }
}

/// Cutting a text of two parts within its first part.
proof fn lemma_cut(x: Seq<char>, y: Seq<char>, k: nat)
    requires
        k <= x.len(),
    ensures
        (x + y).skip(k as int) == x.skip(k as int) + y,
        (x + y).take(k as int) == x.take(k as int),
        (x + y).take(x.len() as int) == x,
        (x + y).skip(x.len() as int) == y,
        (x + y).len() == x.len() + y.len(),
{
    assert((x + y).skip(k as int) =~= x.skip(k as int) + y);
    assert((x + y).take(k as int) =~= x.take(k as int));
    assert((x + y).take(x.len() as int) =~= x);
    assert((x + y).skip(x.len() as int) =~= y);
}

/// The part of the text of `a` that stands before its last part `y`.
pub open spec fn before(a: Scan, y: Seq<char>) -> Seq<char> {
    a.input.rest.take(a.input.rest.len() - y.len())
}

/// Whether `b` reads what `a` reads with `pad` put in where the last part
/// `y` begins, or, once `a` has come to `y`, `y` itself. Both scans go on
/// and have made the same tokens.
pub open spec fn padded(a: Scan, b: Scan, pad: Seq<char>, y: Seq<char>) -> bool {
    &&& a.failure is None
    &&& b.failure is None
    &&& a.tokens == b.tokens
    &&& a.input.rest.len() >= y.len()
    &&& a.input.rest == before(a, y) + y
    &&& (b.input.rest == before(a, y) + pad + y || (before(a, y).len() == 0 && b.input.rest == y))
}

/// Whether `b` is `a` with the padding still before both, and not at white
/// space, or with the padding behind both.
pub open spec fn settled(a: Scan, b: Scan, pad: Seq<char>, y: Seq<char>) -> bool {
    &&& padded(a, b, pad, y)
    &&& before(a, y).len() > 0 ==> b.input.rest == before(a, y) + pad + y && !is_white_space(
        before(a, y)[0],
    )
    &&& before(a, y).len() == 0 ==> b.input.rest == y
}

/// Reading within the part before the padding.
proof fn lemma_eat_padded(a: Scan, b: Scan, pad: Seq<char>, y: Seq<char>, k: nat)
    requires
        padded(a, b, pad, y),
        b.input.rest == before(a, y) + pad + y,
        k <= before(a, y).len(),
    ensures
        padded(a.eat(k), b.eat(k), pad, y),
        before(a.eat(k), y) == before(a, y).skip(k as int),
        b.eat(k).input.rest == before(a, y).skip(k as int) + pad + y,
        a.input.rest.take(k as int) == b.input.rest.take(k as int),
{
    let x = before(a, y);
    lemma_cut(x, y, k);
    lemma_cut(x, pad + y, k);
    assert(x + pad + y =~= x + (pad + y));
    assert(x.skip(k as int) + (pad + y) =~= x.skip(k as int) + pad + y);
    lemma_cut(x.skip(k as int), y, 0);
}

/// Skipping white space keeps the two scans together, and takes the second
/// over the padding when the first comes to it.
proof fn lemma_skip_spaces_padded(a: Scan, b: Scan, pad: Seq<char>, y: Seq<char>)
    requires
        padded(a, b, pad, y),
        all_space(pad),
        a.skip_spaces().input.rest.len() >= y.len(),
    ensures
        settled(a.skip_spaces(), b.skip_spaces(), pad, y),
{
    let x = before(a, y);
    let k = span(a.input.rest, Span::Space);
    lemma_span_bound(a.input.rest, Span::Space);
    lemma_cut(x, y, 0);
    if x.len() == 0 && b.input.rest == y {
        assert(x + y =~= y);
        assert(k == 0);
        assert(y.skip(0) =~= y);
        assert(y.take(0) =~= x);
    } else {
        assert(x + pad + y =~= x + (pad + y));
        if k < x.len() {
            lemma_span_within(x, y, pad + y, Span::Space);
            lemma_eat_padded(a, b, pad, y, k);
            lemma_span_stop(a.input.rest, Span::Space);
            lemma_cut(x, y, k);
        } else {
            lemma_span_reach(x, y, Span::Space);
            lemma_span_over(x, pad + y, Span::Space);
            lemma_span_pad(pad, y);
            lemma_cut(x, y, x.len());
            assert((x + (pad + y)).skip((x.len() + pad.len()) as int) =~= y);
            assert(y.take(0) =~= Seq::<char>::empty());
        }
    }
}

/// Reading a word keeps the two scans together: it is the same word.
proof fn lemma_word_padded(a: Scan, b: Scan, pad: Seq<char>, y: Seq<char>)
    requires
        padded(a, b, pad, y),
        all_space(pad),
        a.eat(a.input.word().len()).input.rest.len() >= y.len(),
    ensures
        a.input.word() == b.input.word(),
        padded(a.eat(a.input.word().len()), b.eat(a.input.word().len()), pad, y),
{
    let x = before(a, y);
    let k = span(a.input.rest, Span::Word);
    lemma_span_bound(a.input.rest, Span::Word);
    lemma_cut(x, y, 0);
    if x.len() == 0 && b.input.rest == y {
        assert(x + y =~= y);
        assert(k == 0);
        assert(y.skip(0) =~= y);
        assert(y.take(0) =~= x);
    } else {
        assert(x + pad + y =~= x + (pad + y));
        if k < x.len() {
            lemma_span_within(x, y, pad + y, Span::Word);
        } else {
            lemma_span_reach(x, y, Span::Word);
            lemma_span_over(x, pad + y, Span::Word);
            lemma_span_pad(pad, y);
        }
        lemma_eat_padded(a, b, pad, y, k);
    }
}

/// Reading free text that ends before the padding keeps the two scans
/// together: it is the same text.
proof fn lemma_text_padded(a: Scan, b: Scan, pad: Seq<char>, y: Seq<char>)
    requires
        padded(a, b, pad, y),
        a.eat(a.input.text().len()).input.rest.len() >= y.len(),
        b.input.rest == a.input.rest || span(a.input.rest, Span::Text) < before(a, y).len(),
    ensures
        a.input.text() == b.input.text(),
        padded(a.eat(a.input.text().len()), b.eat(a.input.text().len()), pad, y),
{
    let x = before(a, y);
    let k = span(a.input.rest, Span::Text);
    lemma_span_bound(a.input.rest, Span::Text);
    lemma_cut(x, y, 0);
    if b.input.rest == a.input.rest {
        let r = a.input.rest;
        lemma_cut(x, y, k);
        if k <= x.len() {
            assert(r.skip(k as int).take(r.skip(k as int).len() - y.len()) =~= x.skip(k as int));
            assert(r.skip(k as int) =~= x.skip(k as int) + y);
            if x.len() > 0 {
                assert(x + pad + y =~= x + (pad + y));
                if b.input.rest == x + pad + y {
                    assert(pad.len() == 0) by {
                        assert((x + pad + y).len() == (x + y).len());
                    }
                    assert(pad + y =~= y);
                    assert(x.skip(k as int) + pad + y =~= x.skip(k as int) + y);
                }
            } else {
                assert(x.skip(k as int) =~= x);
            }
        }
    } else {
        assert(x + pad + y =~= x + (pad + y));
        lemma_span_within(x, y, pad + y, Span::Text);
        lemma_eat_padded(a, b, pad, y, k);
    }
}

/// Whether `after` goes on, has not read into the last part `y`, and has
/// not come to `y` with a text.
pub open spec fn clear(after: Scan, y: Seq<char>) -> bool {
    &&& after.failure is None
    &&& after.input.rest.len() >= y.len()
    &&& after.input.rest.len() == y.len() ==> !ends_in_text(after)
}

/// A style opener and its text keep the two scans together.
proof fn lemma_styled_padded(a: Scan, b: Scan, pad: Seq<char>, y: Seq<char>, opener: Lexeme)
    requires
        padded(a, b, pad, y),
        all_space(pad),
        clear(a.styled(opener), y),
    ensures
        padded(a.styled(opener), b.styled(opener), pad, y),
{
    let a1 = a.skip_spaces();
    let b1 = b.skip_spaces();
    lemma_text_bound(a1);
    lemma_skip_spaces_padded(a, b, pad, y);
    let k = span(a1.input.rest, Span::Text);
    lemma_span_bound(a1.input.rest, Span::Text);
    if before(a1, y).len() > 0 && k >= before(a1, y).len() {
        assert(ends_in_text(a.styled(opener)));
    }
    lemma_text_padded(a1, b1, pad, y);
}

/// A medium and its address keep the two scans together.
proof fn lemma_address_padded(a: Scan, b: Scan, pad: Seq<char>, y: Seq<char>)
    requires
        padded(a, b, pad, y),
        all_space(pad),
        a.skip_spaces().eat(a.skip_spaces().input.word().len()).input.rest.len() >= y.len(),
    ensures
        a.skip_spaces().input.word() == b.skip_spaces().input.word(),
        padded(
            a.skip_spaces().eat(a.skip_spaces().input.word().len()),
            b.skip_spaces().eat(b.skip_spaces().input.word().len()),
            pad,
            y,
        ),
{
    let a1 = a.skip_spaces();
    let b1 = b.skip_spaces();
    lemma_word_bound(a1);
    lemma_skip_spaces_padded(a, b, pad, y);
    lemma_word_padded(a1, b1, pad, y);
}

/// The second word of a keyword keeps the two scans together.
proof fn lemma_pair_padded(
    a: Scan,
    b: Scan,
    pad: Seq<char>,
    y: Seq<char>,
    second: Seq<char>,
    token: Lexeme,
    otherwise: LexFailureKind,
)
    requires
        padded(a, b, pad, y),
        all_space(pad),
        clear(a.pair(second, token, otherwise), y),
    ensures
        padded(a.pair(second, token, otherwise), b.pair(second, token, otherwise), pad, y),
{
    lemma_address_padded(a, b, pad, y);
}

/// What follows `#GIMMEH` keeps the two scans together.
proof fn lemma_element_padded(a: Scan, b: Scan, pad: Seq<char>, y: Seq<char>)
    requires
        padded(a, b, pad, y),
        all_space(pad),
        clear(a.element(), y),
    ensures
        padded(a.element(), b.element(), pad, y),
{
    let a1 = a.skip_spaces();
    let a2 = a1.eat(a1.input.word().len());
    let b1 = b.skip_spaces();
    let b2 = b1.eat(b1.input.word().len());
    lemma_styled_bound(a2, Lexeme::Bold);
    lemma_styled_bound(a2, Lexeme::Italics);
    lemma_styled_bound(a2, Lexeme::Title);
    lemma_skip_spaces_bound(a2);
    lemma_word_bound(a2.skip_spaces());
    lemma_address_padded(a, b, pad, y);
    match element_of(uppercase(a1.input.word())) {
        Element::Bold => {
            lemma_styled_padded(a2, b2, pad, y, Lexeme::Bold);
        },
        Element::Italics => {
            lemma_styled_padded(a2, b2, pad, y, Lexeme::Italics);
        },
        Element::Title => {
            lemma_styled_padded(a2, b2, pad, y, Lexeme::Title);
        },
        Element::Soundz => {
            lemma_address_padded(a2, b2, pad, y);
        },
        Element::Vidz => {
            lemma_address_padded(a2, b2, pad, y);
        },
        _ => {},
    }
}

/// An annotation, read from behind its `#`, keeps the two scans together.
proof fn lemma_annotation_padded(a: Scan, b: Scan, pad: Seq<char>, y: Seq<char>)
    requires
        padded(a, b, pad, y),
        all_space(pad),
        clear(a.annotation(), y),
    ensures
        padded(a.annotation(), b.annotation(), pad, y),
{
    let core = a.input.word();
    let a1 = a.eat(core.len());
    let b1 = b.eat(core.len());
    lemma_element_bound(a1.emit(Lexeme::Gimmeh));
    lemma_pair_bound(a1, seq!['H', 'A', 'Z'], Lexeme::IHaz, LexFailureKind::ExpectedHaz);
    lemma_pair_bound(a1, seq!['I', 'Z'], Lexeme::ItIz, LexFailureKind::ExpectedIz);
    lemma_pair_bound(a1, seq!['S', 'E', 'E'], Lexeme::LemmeSee, LexFailureKind::ExpectedSee);
    lemma_word_padded(a, b, pad, y);
    match annotation_of(uppercase(core)) {
        Annotation::Gimmeh => {
            lemma_element_padded(a1.emit(Lexeme::Gimmeh), b1.emit(Lexeme::Gimmeh), pad, y);
        },
        Annotation::I => {
            lemma_pair_padded(
                a1,
                b1,
                pad,
                y,
                seq!['H', 'A', 'Z'],
                Lexeme::IHaz,
                LexFailureKind::ExpectedHaz,
            );
        },
        Annotation::It => {
            lemma_pair_padded(
                a1,
                b1,
                pad,
                y,
                seq!['I', 'Z'],
                Lexeme::ItIz,
                LexFailureKind::ExpectedIz,
            );
        },
        Annotation::Lemme => {
            lemma_pair_padded(
                a1,
                b1,
                pad,
                y,
                seq!['S', 'E', 'E'],
                Lexeme::LemmeSee,
                LexFailureKind::ExpectedSee,
            );
        },
        _ => {},
    }
}

/// A bare word, and the text that it may begin, keep the two scans
/// together.
proof fn lemma_bare_padded(a: Scan, b: Scan, pad: Seq<char>, y: Seq<char>)
    requires
        padded(a, b, pad, y),
        all_space(pad),
        before(a, y).len() > 0,
        b.input.rest == before(a, y) + pad + y,
        clear(a.bare(), y),
    ensures
        padded(a.bare(), b.bare(), pad, y),
{
    let word = a.input.word();
    lemma_word_bound(a);
    lemma_text_bound(a);
    lemma_span_bound(a.input.rest, Span::Text);
    let k = span(a.input.rest, Span::Text);
    match alias_of(uppercase(word)) {
        Alias::Plain => {
            lemma_word_then_text(a.input.rest);
            lemma_word_padded(a, b, pad, y);
            if k >= before(a, y).len() {
                assert(ends_in_text(a.bare()));
            }
            lemma_text_padded(a, b, pad, y);
        },
        _ => {
            lemma_word_padded(a, b, pad, y);
        },
    }
}

/// One unit keeps the two scans together.
proof fn lemma_step_padded(a: Scan, b: Scan, pad: Seq<char>, y: Seq<char>)
    requires
        padded(a, b, pad, y),
        all_space(pad),
        before(a, y).len() > 0,
        b.input.rest == before(a, y) + pad + y,
        clear(a.step(), y),
    ensures
        padded(a.step(), b.step(), pad, y),
{
    let x = before(a, y);
    let c = a.input.rest[0];
    assert(x + pad + y =~= x + (pad + y));
    assert(b.input.rest[0] == c);
    if is_white_space(c) {
        lemma_eat_padded(a, b, pad, y, 1);
    } else if c == '#' {
        lemma_annotation_bound(a.eat(1));
        lemma_eat_padded(a, b, pad, y, 1);
        lemma_annotation_padded(a.eat(1), b.eat(1), pad, y);
    } else {
        lemma_bare_padded(a, b, pad, y);
    }
}

/// The reason of a failure, without its line.
pub open spec fn reason(failure: Option<LexFailure>) -> Option<
    LexFailureKind,
> {
    match failure {
        Some(failure) => Some(failure.kind),
        None => None,
    }
}

/// Whether two scans differ in nothing but the line that they have reached.
pub open spec fn alike(a: Scan, b: Scan) -> bool {
    &&& a.input.rest == b.input.rest
    &&& a.tokens == b.tokens
    &&& reason(a.failure) == reason(b.failure)
}

/// The line decides nothing but the line of a failure.
proof fn lemma_run_alike(a: Scan, b: Scan)
    requires
        alike(a, b),
    ensures
        alike(a.run(), b.run()),
        a.run().outline() == b.run().outline(),
    decreases a.input.rest.len(),
{
    if a.failure is None && a.input.rest.len() > 0 {
        lemma_step_shortens(a);
        lemma_run_alike(a.step(), b.step());
    }
}

/// White space at the front is read away.
proof fn lemma_run_leading_pad(a: Scan, b: Scan, pad: Seq<char>)
    requires
        a.failure is None,
        b.failure is None,
        a.tokens == b.tokens,
        all_space(pad),
        b.input.rest == pad + a.input.rest,
    ensures
        a.run().outline() == b.run().outline(),
    decreases pad.len(),
{
    if pad.len() == 0 {
        assert(pad + a.input.rest =~= a.input.rest);
        lemma_run_alike(a, b);
    } else {
        assert(is_white_space(pad[0]));
        assert(b.input.rest[0] == pad[0]);
        assert(b.step() == b.eat(1));
        assert(b.eat(1).input.rest =~= pad.skip(1) + a.input.rest);
        assert forall|i: int| 0 <= i < pad.skip(1).len() implies is_white_space(
            #[trigger] pad.skip(1)[i],
        ) by {
            assert(pad.skip(1)[i] == pad[i + 1]);
        }
        lemma_run_leading_pad(a, b.eat(1), pad.skip(1));
    }
}

/// The characters of a run belong to it.
proof fn lemma_span_keeps(s: Seq<char>, kind: Span, i: int)
    requires
        0 <= i < span(s, kind),
    ensures
        i < s.len(),
        keeps(kind, s[i]),
    decreases s.len(),
{
    if i > 0 {
        lemma_span_keeps(s.skip(1), kind, i - 1);
    }
}

/// Where nothing but white space stands between the two scans and the
/// padding, they stand at the same place once they have skipped white
/// space.
proof fn lemma_skip_spaces_meet(a: Scan, b: Scan, pad: Seq<char>, y: Seq<char>)
    requires
        padded(a, b, pad, y),
        all_space(pad),
        before(a, y).len() <= a.input.spaces(),
    ensures
        alike(a.skip_spaces(), b.skip_spaces()),
{
    let x = before(a, y);
    let k = span(y, Span::Space);
    lemma_span_bound(y, Span::Space);
    assert forall|i: int| 0 <= i < x.len() implies keeps(Span::Space, #[trigger] x[i]) by {
        lemma_span_keeps(a.input.rest, Span::Space, i);
    }
    lemma_span_over(x, y, Span::Space);
    lemma_span_over(x, pad + y, Span::Space);
    lemma_span_pad(pad, y);
    assert(x + pad + y =~= x + (pad + y));
    assert((x + y).skip((x.len() + k) as int) =~= y.skip(k as int));
    assert((x + (pad + y)).skip((x.len() + pad.len() + k) as int) =~= y.skip(k as int));
    if x.len() == 0 {
        assert(x + y =~= y);
    }
}

/// The scan that stands behind the first word of a keyword of two words,
/// `#GIMMEH`, `#I`, `#IT` or `#LEMME`, when that is the unit that `at` is
/// about to read.
pub open spec fn behind_keyword(at: Scan) -> Option<Scan> {
    let rest = at.input.rest;
    if at.failure is None && rest.len() > 0 && !is_white_space(rest[0]) && rest[0] == '#' {
        let core = at.eat(1).input.word();
        let behind = at.eat(1).eat(core.len());
        match annotation_of(uppercase(core)) {
            Annotation::Gimmeh => Some(behind.emit(Lexeme::Gimmeh)),
            Annotation::I => Some(behind),
            Annotation::It => Some(behind),
            Annotation::Lemme => Some(behind),
            _ => None,
        }
    } else {
        None
    }
}

/// The scan that stands behind the word that names a style or a medium,
/// when the unit that `at` is about to read is `#GIMMEH` with such a word.
pub open spec fn behind_element(at: Scan) -> Option<Scan> {
    match behind_keyword(at) {
        Some(behind) => {
            let word = behind.skip_spaces().input.word();
            let named = behind.skip_spaces().eat(word.len());
            if annotation_of(uppercase(at.eat(1).input.word())) == Annotation::Gimmeh {
                match element_of(uppercase(word)) {
                    Element::Bold => Some(named),
                    Element::Italics => Some(named),
                    Element::Title => Some(named),
                    Element::Soundz => Some(named),
                    Element::Vidz => Some(named),
                    _ => None,
                }
            } else {
                None
            }
        },
        None => None,
    }
}

/// Whether the place where `left` characters are left lies in the white
/// space at the front of what `behind` has left to read, or at one of its
/// two ends.
pub open spec fn in_spaces(behind: Scan, left: nat) -> bool {
    behind.input.rest.len() - behind.input.spaces() <= left <= behind.input.rest.len()
}

/// Whether, with `left` characters left to read, the tokenizer that has
/// come to `at` stands where white space does not count: before the unit
/// that `at` is about to read, unless the last token is a text; or, within
/// that unit, in the white space behind the first word of a keyword of two
/// words, or behind the word that names a style or a medium.
pub open spec fn is_gap(at: Scan, left: nat) -> bool {
    ||| left == at.input.rest.len() && !ends_in_text(at)
    ||| behind_keyword(at) matches Some(behind) && in_spaces(behind, left)
    ||| behind_element(at) matches Some(behind) && in_spaces(behind, left)
}

/// The unit in which the padding stands behind the first word of a keyword
/// brings the two scans to the same place.
proof fn lemma_step_keyword(a: Scan, b: Scan, pad: Seq<char>, y: Seq<char>)
    requires
        padded(a, b, pad, y),
        all_space(pad),
        behind_keyword(a) matches Some(behind) && in_spaces(behind, y.len()),
    ensures
        alike(a.step(), b.step()),
{
    let x = before(a, y);
    let a1 = a.eat(1);
    let b1 = b.eat(1);
    let core = a1.input.word();
    lemma_word_bound(a1);
    lemma_cut(x, y, 0);
    assert(x + pad + y =~= x + (pad + y));
    assert(b.input.rest[0] == a.input.rest[0]);
    lemma_eat_padded(a, b, pad, y, 1);
    lemma_word_padded(a1, b1, pad, y);
    let a2 = a1.eat(core.len());
    let b2 = b1.eat(core.len());
    lemma_span_bound(a2.input.rest, Span::Space);
    match annotation_of(uppercase(core)) {
        Annotation::Gimmeh => {
            lemma_skip_spaces_meet(a2.emit(Lexeme::Gimmeh), b2.emit(Lexeme::Gimmeh), pad, y);
        },
        _ => {
            lemma_skip_spaces_meet(a2, b2, pad, y);
        },
    }
}

/// The unit in which the padding stands behind the word that names a style
/// or a medium brings the two scans to the same place.
proof fn lemma_step_element(a: Scan, b: Scan, pad: Seq<char>, y: Seq<char>)
    requires
        padded(a, b, pad, y),
        all_space(pad),
        behind_element(a) matches Some(behind) && in_spaces(behind, y.len()),
    ensures
        alike(a.step(), b.step()),
{
    let x = before(a, y);
    let a1 = a.eat(1);
    let b1 = b.eat(1);
    let core = a1.input.word();
    let a2 = a1.eat(core.len()).emit(Lexeme::Gimmeh);
    let b2 = b1.eat(core.len()).emit(Lexeme::Gimmeh);
    lemma_next_word_bound(a2);
    lemma_skip_spaces_bound(a2);
    lemma_word_bound(a2.skip_spaces());
    lemma_word_bound(a1);
    lemma_cut(x, y, 0);
    assert(x + pad + y =~= x + (pad + y));
    assert(b.input.rest[0] == a.input.rest[0]);
    lemma_eat_padded(a, b, pad, y, 1);
    lemma_word_padded(a1, b1, pad, y);
    lemma_address_padded(a2, b2, pad, y);
    let word = a2.skip_spaces().input.word();
    let a3 = a2.skip_spaces().eat(word.len());
    let b3 = b2.skip_spaces().eat(word.len());
    lemma_span_bound(a3.input.rest, Span::Space);
    lemma_skip_spaces_meet(a3, b3, pad, y);
}

/// Two scans that are together up to the padding come to the same end.
proof fn lemma_run_padded(a: Scan, b: Scan, pad: Seq<char>, y: Seq<char>, n: nat)
    requires
        padded(a, b, pad, y),
        all_space(pad),
        a.steps(n).failure is None,
        is_gap(a.steps(n), y.len()),
    ensures
        a.run().outline() == b.run().outline(),
    decreases n,
{
    let x = before(a, y);
    let at = a.steps(n);
    lemma_steps_bound(a, n);
    lemma_cut(x, y, 0);
    lemma_cut(x, pad + y, 0);
    assert(x + pad + y =~= x + (pad + y));
    if at == a {
        if y.len() == a.input.rest.len() && !ends_in_text(a) {
            assert(x + y =~= y);
            assert(x + pad + y =~= pad + y);
            if b.input.rest == y {
                lemma_run_alike(a, b);
            } else {
                lemma_run_leading_pad(a, b, pad);
            }
        } else {
            if behind_keyword(a) matches Some(behind) && in_spaces(behind, y.len()) {
                lemma_step_keyword(a, b, pad, y);
            } else {
                lemma_step_element(a, b, pad, y);
            }
            lemma_step_shortens(a);
            lemma_run_alike(a.step(), b.step());
        }
    } else {
        let a1 = a.step();
        lemma_step_shortens(a);
        lemma_steps_bound(a1, (n - 1) as nat);
        lemma_gap_bound(at, y.len());
        lemma_step_padded(a, b, pad, y);
        lemma_run_padded(a1, b.step(), pad, y, (n - 1) as nat);
    }
}

/// A gap lies within the text that is left.
proof fn lemma_gap_bound(at: Scan, left: nat)
    requires
        is_gap(at, left),
    ensures
        left <= at.input.rest.len(),
        left == at.input.rest.len() ==> !ends_in_text(at),
{
    if at.failure is None && at.input.rest.len() > 0 {
        let a1 = at.eat(1);
        let a2 = a1.eat(a1.input.word().len());
        lemma_word_bound(a1);
        lemma_next_word_bound(a2.emit(Lexeme::Gimmeh));
    }
}

/// Extra white space between tokens changes no token: let the tokenizer
/// have read `n` units of `source` without failing, and let the place where
/// `left` characters are left be a gap: the place that it has come to,
/// unless the last token is a text; or, within the next unit, a place in
/// the white space behind the first word of a keyword of two words, or
/// behind the word that names a style or a medium. Then `source` with any
/// white space `pad` put in at that place has the tokens of `source`, or
/// fails for the same reason.
pub proof fn law_space_between_tokens(source: Seq<char>, n: nat, left: nat, pad: Seq<char>)
    requires
        all_space(pad),
        Scan::start(source).steps(n).failure is None,
        is_gap(Scan::start(source).steps(n), left),
    ensures
        left <= source.len(),
        ({
            let cut = source.len() - left;
            let wide = source.take(cut) + pad + source.skip(cut);
            &&& Scan::start(wide).run().outline() == Scan::start(source).run().outline()
            &&& tokenize(source) is Ok ==> tokenize(wide) == tokenize(source)
            &&& tokenize(source) is Err ==> tokenize(wide) is Err
        }),
{
    let a = Scan::start(source);
    lemma_steps_bound(a, n);
    lemma_gap_bound(a.steps(n), left);
    let cut = source.len() - left;
    let y = source.skip(cut);
    let wide = source.take(cut) + pad + y;
    assert(source =~= source.take(cut) + y);
    assert(source.take(cut) =~= before(a, y));
    lemma_run_padded(a, Scan::start(wide), pad, y, n);
}

} // verus!
