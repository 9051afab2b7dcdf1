//! What holds of every compilation.

use vstd::prelude::*;
use crate::grammar::{
    closing, lemma_body_moves, lemma_comments_moves, lemma_comments_pass, lemma_document_moves,
    lemma_head_moves, lemma_moves_chain, lemma_steps_move, moves, parse, Failure, Run,
};
use crate::scan::{lemma_span_bound, lemma_step_shortens, span, tokenize, Scan, Span};
use crate::text::is_white_space;
use crate::token::Lexeme;
use crate::{compiled, html_view, CompileError};

verus! {

/// Compilation is deterministic: whatever two compilations of the same text
/// return, it is the same HTML, character for character, or the same
/// failure.
pub proof fn law_compile_deterministic(
    source: Seq<char>,
    first: Result<String, CompileError>,
    second: Result<String, CompileError>,
)
    requires
        html_view(first) == compiled(source),
        html_view(second) == compiled(source),
    ensures
        html_view(first) == html_view(second),
{
}

/// Whether `token` is one that the tokenizer makes: any token but the three
/// that belong to no text, and a text only with characters in it.
pub open spec fn lexical(token: Lexeme) -> bool {
    match token {
        Lexeme::I => false,
        Lexeme::VarDef(_) => false,
        Lexeme::VarVal(_) => false,
        Lexeme::Text(text) => text.len() > 0,
        _ => true,
    }
}

/// Whether every token that `scan` has made is one that the tokenizer
/// makes.
pub open spec fn all_lexical(scan: Scan) -> bool {
    forall|i: int| 0 <= i < scan.tokens.len() ==> lexical(#[trigger] scan.tokens[i])
}

/// One unit makes only tokens that the tokenizer makes.
proof fn lemma_step_lexical(scan: Scan)
    requires
        all_lexical(scan),
        scan.failure is None,
        scan.input.rest.len() > 0,
    ensures
        all_lexical(scan.step()),
{
    let rest = scan.input.rest;
    if !is_white_space(rest[0]) && rest[0] != '#' {
        lemma_span_bound(rest, Span::Text);
        assert(span(rest, Span::Text) >= 1);
    }
}

/// A scan makes only tokens that the tokenizer makes.
proof fn lemma_run_lexical(scan: Scan)
    requires
        all_lexical(scan),
    ensures
        all_lexical(scan.run()),
    decreases scan.input.rest.len(),
{
    if scan.failure is None && scan.input.rest.len() > 0 {
        lemma_step_shortens(scan);
        lemma_step_lexical(scan);
        lemma_run_lexical(scan.step());
    }
}

/// The tokens of a text are of the vocabulary of texts: none of them is
/// `I`, `VarDef` or `VarVal`, and no text among them is empty.
pub proof fn law_tokens_are_lexical(source: Seq<char>)
    ensures
        tokenize(source) matches Ok(tokens) ==> forall|i: int|
            0 <= i < tokens.len() ==> lexical(#[trigger] tokens[i]),
{
    lemma_run_lexical(Scan::start(source));
}

/// Whether a definition of `name` as `value` stands under the cursor:
/// `#I HAZ`, the name, `#IT IZ`, the value, `#MKAY`.
pub open spec fn at_definition(run: Run, name: Seq<char>, value: Seq<char>) -> bool {
    &&& run.pos + 5 <= run.tokens.len()
    &&& run.tokens[run.pos as int] == Lexeme::IHaz
    &&& run.tokens[run.pos + 1int] == Lexeme::Text(name)
    &&& run.tokens[run.pos + 2int] == Lexeme::ItIz
    &&& run.tokens[run.pos + 3int] == Lexeme::Text(value)
    &&& run.tokens[run.pos + 4int] == Lexeme::Mkay
}

/// Whether a use of `name` stands under the cursor: `#LEMME SEE`, the name,
/// `#MKAY`.
pub open spec fn at_use(run: Run, name: Seq<char>) -> bool {
    &&& run.pos + 3 <= run.tokens.len()
    &&& run.tokens[run.pos as int] == Lexeme::LemmeSee
    &&& run.tokens[run.pos + 1int] == Lexeme::Text(name)
    &&& run.tokens[run.pos + 2int] == Lexeme::Mkay
}

/// A definition of a new name binds it to its value, passes its five tokens
/// and writes nothing.
pub proof fn law_definition_binds(run: Run, name: Seq<char>, value: Seq<char>)
    requires
        run.ok(),
        at_definition(run, name, value),
        !run.vars.contains_key(name),
    ensures
        run.define() == (Run { pos: run.pos + 5, vars: run.vars.insert(name, value), ..run }),
{
}

/// A use of a bound name writes the value at the end of the output, as it
/// is, and passes its three tokens.
pub proof fn law_use_writes_value(run: Run, name: Seq<char>)
    requires
        run.ok(),
        at_use(run, name),
        run.vars.contains_key(name),
    ensures
        run.use_variable() == (Run { pos: run.pos + 3, out: run.out + run.vars[name], ..run }),
{
}

/// A run only grows: whatever the document rule leads to from a run that
/// goes on, the cursor has not moved back, every name bound before is bound
/// to the same value after, and what was written before is the beginning
/// of what is written after, unless the run fails, and then nothing is
/// written. The same holds of the body.
pub proof fn law_runs_only_grow(run: Run)
    ensures
        moves(run, run.document()),
        moves(run, run.body()),
{
    lemma_document_moves(run);
    lemma_body_moves(run);
}

/// A page is wrapped: the output of a document that compiles begins with
/// the opening of the page and the head, if there is one, then opens the
/// body, and ends with the closing of the body and of the page. Without
/// `#MAEK HEAD` behind `#HAI` and the comments, the page has no head.
pub proof fn law_page_is_wrapped(tokens: Seq<Lexeme>)
    ensures
        ({
            let top = Run::start(tokens).emit("<!DOCTYPE html>\n<html>\n"@).expect(
                Lexeme::Hai,
            ).comments();
            parse(tokens) matches Ok(html) ==> {
                &&& "<!DOCTYPE html>\n<html>\n"@.is_prefix_of(top.head().out)
                &&& (top.head().out + "<body>\n"@).is_prefix_of(html)
                &&& ("</body>\n"@ + "</html>\n"@).is_suffix_of(html)
                &&& !(top.peek() == Some(Lexeme::Maek) && top.peek_next() == Some(Lexeme::Head))
                    ==> top.head().out == "<!DOCTYPE html>\n<html>\n"@
            }
        }),
{
    let start = Run::start(tokens);
    let a = start.emit("<!DOCTYPE html>\n<html>\n"@);
    let b = a.expect(Lexeme::Hai);
    let top = b.comments();
    let c = top.head();
    let d = c.emit("<body>\n"@);
    let e = d.body();
    let f = e.emit("</body>\n"@);
    let g = f.expect(Lexeme::Kthxbye);
    let h = g.emit("</html>\n"@);
    let i = h.end();
    lemma_document_moves(start);
    if i.ok() {
        lemma_steps_move(a);
        lemma_comments_moves(b);
        lemma_head_moves(top);
        lemma_body_moves(d);
        lemma_moves_chain(a, b, top);
        lemma_moves_chain(a, top, c);
        assert(a.out =~= "<!DOCTYPE html>\n<html>\n"@);
        assert(b.ok() && top.ok() && c.ok() && d.ok() && e.ok() && f.ok() && g.ok() && h.ok());
        assert(i.out =~= e.out + ("</body>\n"@ + "</html>\n"@));
        let tail = "</body>\n"@ + "</html>\n"@;
        assert(i.out.subrange(i.out.len() - tail.len(), i.out.len() as int) =~= tail);
        assert(d.out =~= i.out.subrange(0, d.out.len() as int));
        if !(top.peek() == Some(Lexeme::Maek) && top.peek_next() == Some(Lexeme::Head)) {
            lemma_comments_pass(b);
        }
    }
}

/// A variable that is defined and used later comes out as defined: if a
/// definition of `name` as `value` stands under the cursor of `before`, and
/// `later` is a run that rules lead to from behind that definition, with a
/// use of `name` under its cursor, then the use writes exactly `value` at
/// the end of the output, and the definition wrote nothing.
pub proof fn law_round_trip(before: Run, later: Run, name: Seq<char>, value: Seq<char>)
    requires
        before.ok(),
        at_definition(before, name, value),
        !before.vars.contains_key(name),
        moves(before.define(), later),
        later.ok(),
        at_use(later, name),
    ensures
        before.define().out == before.out,
        later.use_variable().ok(),
        later.use_variable().out == later.out + value,
{
    law_definition_binds(before, name, value);
    assert(before.define().vars.dom().contains(name));
    law_use_writes_value(later, name);
}

/// A second definition of a name fails, whatever the value, and leaves no
/// output.
pub proof fn law_second_definition_fails(run: Run, name: Seq<char>, value: Seq<char>)
    requires
        run.ok(),
        at_definition(run, name, value),
        run.vars.contains_key(name),
    ensures
        run.define().failure == Some(Failure::AlreadyDefined { name }),
        run.define().out == Seq::<char>::empty(),
{
}

/// A use of a name that is not bound fails and leaves no output.
pub proof fn law_undefined_use_fails(run: Run, name: Seq<char>)
    requires
        run.ok(),
        at_use(run, name),
        !run.vars.contains_key(name),
    ensures
        run.use_variable().failure == Some(Failure::Undefined { name }),
        run.use_variable().out == Seq::<char>::empty(),
{
}

/// A list without an item fails: when, behind `LIST` and the comments that
/// follow it, no `#GIMMEH` stands, the list rule stops with the failure of
/// the empty list, and leaves no output.
pub proof fn law_empty_list_fails(run: Run)
    requires
        run.ok(),
        run.peek() == Some(Lexeme::List),
        run.advance().emit("<ul>\n"@).comments().ok(),
        run.advance().emit("<ul>\n"@).comments().peek() != Some(Lexeme::Gimmeh),
    ensures
        run.list().failure == Some(Failure::EmptyList),
        run.list().out == Seq::<char>::empty(),
{
}

/// The first failure is the last: a run that has failed is what the
/// document rule, and so every rule in it, leaves it as.
pub proof fn law_failure_is_final(run: Run)
    requires
        run.failure is Some,
    ensures
        run.document() == run,
        run.body() == run,
        run.comments() == run,
{
    lemma_document_moves(run);
    lemma_body_moves(run);
    lemma_comments_moves(run);
}

/// A compilation that fails leaves no output: from a run that goes on, the
/// document rule leads to a run that goes on or to one whose output is
/// empty.
pub proof fn law_failure_leaves_no_output(run: Run)
    requires
        run.ok(),
    ensures
        run.document().failure is Some ==> run.document().out == Seq::<char>::empty(),
{
    lemma_document_moves(run);
}

/// A document that defines a name twice fails with the second definition,
/// whatever the values and whatever follows.
pub proof fn law_document_with_second_definition(
    name: Seq<char>,
    first: Seq<char>,
    second: Seq<char>,
    rest: Seq<Lexeme>,
)
    ensures
        parse(
            seq![
                Lexeme::Hai,
                Lexeme::IHaz,
                Lexeme::Text(name),
                Lexeme::ItIz,
                Lexeme::Text(first),
                Lexeme::Mkay,
                Lexeme::IHaz,
                Lexeme::Text(name),
                Lexeme::ItIz,
                Lexeme::Text(second),
                Lexeme::Mkay,
            ] + rest,
        ) == Err::<Seq<char>, Failure>(Failure::AlreadyDefined { name }),
{
    let tokens = seq![
        Lexeme::Hai,
        Lexeme::IHaz,
        Lexeme::Text(name),
        Lexeme::ItIz,
        Lexeme::Text(first),
        Lexeme::Mkay,
        Lexeme::IHaz,
        Lexeme::Text(name),
        Lexeme::ItIz,
        Lexeme::Text(second),
        Lexeme::Mkay,
    ] + rest;
    let a = Run::start(tokens).emit("<!DOCTYPE html>\n<html>\n"@).expect(Lexeme::Hai);
    assert(a.ok() && a.pos == 1);
    assert(a.comments() == a);
    assert(a.head() == a);
    let b = a.emit("<body>\n"@);
    assert(b.comments() == b);
    law_definition_binds(b, name, first);
    let c = b.define();
    assert(b.body_part() == c);
    assert(c.comments() == c);
    law_second_definition_fails(c, name, second);
    let d = c.define();
    assert(c.body_part() == d);
    assert(b.body() == c.body());
    assert(c.body() == d.body());
    law_failure_is_final(d);
    assert(d.body() == d);
}

/// A document that uses a name before any definition fails with that use,
/// whatever follows.
pub proof fn law_document_with_undefined_use(name: Seq<char>, rest: Seq<Lexeme>)
    ensures
        parse(seq![Lexeme::Hai, Lexeme::LemmeSee, Lexeme::Text(name), Lexeme::Mkay] + rest)
            == Err::<Seq<char>, Failure>(Failure::Undefined { name }),
{
    let tokens = seq![Lexeme::Hai, Lexeme::LemmeSee, Lexeme::Text(name), Lexeme::Mkay] + rest;
    let a = Run::start(tokens).emit("<!DOCTYPE html>\n<html>\n"@).expect(Lexeme::Hai);
    assert(a.ok() && a.pos == 1);
    assert(a.comments() == a);
    assert(a.head() == a);
    let b = a.emit("<body>\n"@);
    assert(b.comments() == b);
    law_undefined_use_fails(b, name);
    let c = b.use_variable();
    assert(b.body_part() == c);
    assert(b.body() == c.body());
    law_failure_is_final(c);
}

/// A document whose first block is a list without an item fails with the
/// empty list, whatever follows.
pub proof fn law_document_with_empty_list(rest: Seq<Lexeme>)
    ensures
        parse(seq![Lexeme::Hai, Lexeme::Maek, Lexeme::List, Lexeme::Oic] + rest) == Err::<
            Seq<char>,
            Failure,
        >(Failure::EmptyList),
{
    let tokens = seq![Lexeme::Hai, Lexeme::Maek, Lexeme::List, Lexeme::Oic] + rest;
    let a = Run::start(tokens).emit("<!DOCTYPE html>\n<html>\n"@).expect(Lexeme::Hai);
    assert(a.ok() && a.pos == 1);
    assert(a.comments() == a);
    assert(a.head() == a);
    let b = a.emit("<body>\n"@);
    assert(b.comments() == b);
    let c = b.advance();
    assert(c.advance().emit("<ul>\n"@).comments() == c.advance().emit("<ul>\n"@));
    law_empty_list_fails(c);
    let d = c.list();
    assert(b.body_part() == d);
    assert(b.body() == d.body());
    law_failure_is_final(d);
}

/// A document that defines a name and then uses it is the value between
/// the wrappers of the page, and nothing else: the definition writes
/// nothing, and the use writes the value as it is.
pub proof fn law_document_round_trip(name: Seq<char>, value: Seq<char>)
    ensures
        parse(
            seq![
                Lexeme::Hai,
                Lexeme::IHaz,
                Lexeme::Text(name),
                Lexeme::ItIz,
                Lexeme::Text(value),
                Lexeme::Mkay,
                Lexeme::LemmeSee,
                Lexeme::Text(name),
                Lexeme::Mkay,
                Lexeme::Kthxbye,
            ],
        ) == Ok::<Seq<char>, Failure>(
            "<!DOCTYPE html>\n<html>\n"@ + "<body>\n"@ + value + "</body>\n"@ + "</html>\n"@,
        ),
{
    let tokens = seq![
        Lexeme::Hai,
        Lexeme::IHaz,
        Lexeme::Text(name),
        Lexeme::ItIz,
        Lexeme::Text(value),
        Lexeme::Mkay,
        Lexeme::LemmeSee,
        Lexeme::Text(name),
        Lexeme::Mkay,
        Lexeme::Kthxbye,
    ];
    let a = Run::start(tokens).emit("<!DOCTYPE html>\n<html>\n"@).expect(Lexeme::Hai);
    assert(a.ok() && a.pos == 1);
    assert(a.comments() == a);
    assert(a.head() == a);
    let b = a.emit("<body>\n"@);
    assert(b.comments() == b);
    law_definition_binds(b, name, value);
    let c = b.define();
    assert(b.body_part() == c);
    assert(c.comments() == c);
    law_use_writes_value(c, name);
    let d = c.use_variable();
    assert(c.body_part() == d);
    assert(b.body() == c.body());
    assert(c.body() == d.body());
    assert(d.body() == d);
    let e = d.emit("</body>\n"@).expect(Lexeme::Kthxbye).emit("</html>\n"@);
    assert(e.end() == e);
    assert(e.out =~= "<!DOCTYPE html>\n<html>\n"@ + "<body>\n"@ + value + "</body>\n"@
        + "</html>\n"@);
}

/// A comment that is not closed fails: when no `#TLDR` follows an `#OBTW`,
/// the comments stop the run, and leave no output.
pub proof fn law_unclosed_comment_fails(run: Run)
    requires
        run.ok(),
        run.peek() == Some(Lexeme::Obtw),
        closing(run.tokens, run.pos + 1) is None,
    ensures
        run.comments().failure == Some(Failure::UnclosedComment),
        run.comments().out == Seq::<char>::empty(),
{
    let stopped = run.advance().comment();
    assert(run.comments() == stopped.comments());
    lemma_comments_moves(stopped);
}

} // verus!
