//! The grammar of a document, as functions on token streams.
//!
//! A stream is the sequence of tokens that are still to be read; its first
//! element is the current token. Each production reads a prefix of the
//! stream and yields the symbols it contributes to the flattened parse
//! sequence together with the stream that is left, or the fault at which
//! it stops. A production dispatches on the current token alone.
//!
//! ```text
//! document   := #HAI comment head? body-item* #KTHXBYE
//! comment    := (#OBTW text #TLDR)*
//! head       := #MAEK HEAD title #OIC
//! title      := #GIMMEH TITLE text #MKAY
//! body-item  := text | bold | italics | newline | list | audio | video
//!             | define | use | paragraph | comment
//! paragraph  := #MAEK PARAGRAF define? inner-item* #OIC
//! inner-item := text | use | bold | italics | newline | audio | video | list
//! list       := #MAEK LIST (#GIMMEH ITEM (bold | italics | text | use) #MKAY)* #OIC
//! bold ...   := begin-tag text #MKAY
//! define     := #I HAZ name #IT IZ text #MKAY
//! use        := #LEMME SEE name #MKAY
//! ```

use vstd::prelude::*;
use crate::error::{ErrorKind, Fault};
use crate::keywords::{
    AUDIO_BEGIN, AUDIO_END, BLOCK_END, BOLD_BEGIN, BOLD_END, COMMENT_BEGIN, COMMENT_END,
    DOCUMENT_BEGIN, DOCUMENT_END, HEAD_BEGIN, HEAD_END, ITALICS_BEGIN, ITALICS_END, ITEM_BEGIN,
    ITEM_END, LIST_BEGIN, LIST_END, NEWLINE, PARAGRAPH_BEGIN, PARAGRAPH_END, SPAN_END, TITLE_BEGIN,
    TITLE_END, VARIABLE_BEGIN, VARIABLE_INIT_END, VARIABLE_MIDDLE, VARIABLE_USE, VARIABLE_USE_END,
    VIDEO_BEGIN, VIDEO_END,
};
use crate::text::{has_whitespace, is_tag, trimmed};

verus! {

/// What a production made of a stream.
pub struct Parse {
    /// The symbols it contributes, in order.
    pub tree: Seq<Seq<char>>,
    /// The stream from the token after the production on.
    pub rest: Seq<Seq<char>>,
}

/// A production's outcome: its parse, or the fault at which it stopped.
pub type Outcome = Result<Parse, Fault>;

/// The fault of finding `found` where `expected` should stand.
pub open spec fn unexpected(expected: Seq<char>, found: Seq<char>) -> Outcome {
    Err(Fault::Unexpected { expected, found })
}

/// `later`, with `tree` contributed before it.
pub open spec fn join(tree: Seq<Seq<char>>, later: Outcome) -> Outcome {
    match later {
        Ok(p) => Ok(Parse { tree: tree + p.tree, rest: p.rest }),
        Err(fault) => Err(fault),
    }
}

/// Moves to the next token, which must exist.
pub open spec fn advance(s: Seq<Seq<char>>) -> Outcome {
    if s.len() > 1 {
        Ok(Parse { tree: Seq::empty(), rest: s.drop_first() })
    } else {
        Err(Fault::UnexpectedEnd)
    }
}

/// Contributes `symbol` and moves to the next token, which must exist.
pub open spec fn shift(s: Seq<Seq<char>>, symbol: Seq<char>) -> Outcome {
    join(seq![symbol], advance(s))
}

/// One token, contributed as it is.
pub open spec fn text(s: Seq<Seq<char>>) -> Outcome {
    shift(s, s[0])
}

/// The current token, one text, `#MKAY`: contributes the token, the text and `close`.
pub open spec fn span(s: Seq<Seq<char>>, close: Seq<char>) -> Outcome {
    if s.len() < 2 {
        Err(Fault::UnexpectedEnd)
    } else if is_tag(s[1]) {
        unexpected("text"@, s[1])
    } else if s.len() < 3 {
        Err(Fault::UnexpectedEnd)
    } else if s[2] != SPAN_END@ {
        unexpected(SPAN_END@, s[2])
    } else if s.len() < 4 {
        Err(Fault::UnexpectedEnd)
    } else {
        Ok(Parse { tree: seq![s[0], s[1], close], rest: s.skip(3) })
    }
}

/// A title: `#GIMMEH TITLE`, one text, `#MKAY`.
pub open spec fn title(s: Seq<Seq<char>>) -> Outcome {
    if s[0] != TITLE_BEGIN@ {
        unexpected(TITLE_BEGIN@, s[0])
    } else {
        span(s, TITLE_END@)
    }
}

/// A head, or nothing where the current token does not begin one.
pub open spec fn head(s: Seq<Seq<char>>) -> Outcome {
    if s[0] != HEAD_BEGIN@ {
        Ok(Parse { tree: Seq::empty(), rest: s })
    } else if s.len() < 2 {
        Err(Fault::UnexpectedEnd)
    } else {
        match title(s.drop_first()) {
            Err(fault) => Err(fault),
            Ok(p) => if p.rest[0] != BLOCK_END@ {
                unexpected(BLOCK_END@, p.rest[0])
            } else {
                join(seq![s[0]] + p.tree, shift(p.rest, HEAD_END@))
            },
        }
    }
}

/// Any number of comments, one after the other.
pub open spec fn comment(s: Seq<Seq<char>>) -> Outcome
    decreases s.len(),
{
    if s.len() == 0 || s[0] != COMMENT_BEGIN@ {
        Ok(Parse { tree: Seq::empty(), rest: s })
    } else if s.len() < 2 {
        Err(Fault::UnexpectedEnd)
    } else if is_tag(s[1]) {
        unexpected("text"@, s[1])
    } else if s.len() < 3 {
        Err(Fault::UnexpectedEnd)
    } else if s[2] != COMMENT_END@ {
        unexpected(COMMENT_END@, s[2])
    } else if s.len() < 4 {
        Err(Fault::UnexpectedEnd)
    } else {
        join(seq![s[0], s[1], s[2]], comment(s.skip(3)))
    }
}

/// The name that a token stands for: the token without the whitespace around it.
pub open spec fn name_of(token: Seq<char>) -> Seq<char> {
    trimmed(token)
}

/// What stands in a name's place must be text, and the name has no whitespace inside.
pub open spec fn name_fault(token: Seq<char>) -> Option<Fault> {
    if is_tag(token) {
        Some(Fault::Unexpected { expected: "text"@, found: token })
    } else if has_whitespace(name_of(token)) {
        Some(Fault::InvalidVariableName { name: token })
    } else {
        None
    }
}

/// A name in the place of the current token.
pub open spec fn name(s: Seq<Seq<char>>) -> Outcome {
    match name_fault(s[0]) {
        Some(fault) => Err(fault),
        None => shift(s, name_of(s[0])),
    }
}

/// A variable definition, or nothing where the current token does not begin one.
pub open spec fn variable_define(s: Seq<Seq<char>>) -> Outcome {
    if s[0] != VARIABLE_BEGIN@ {
        Ok(Parse { tree: Seq::empty(), rest: s })
    } else if s.len() < 2 {
        Err(Fault::UnexpectedEnd)
    } else if name_fault(s[1]) is Some {
        Err(name_fault(s[1])->0)
    } else if s.len() < 3 {
        Err(Fault::UnexpectedEnd)
    } else if s[2] != VARIABLE_MIDDLE@ {
        unexpected(VARIABLE_MIDDLE@, s[2])
    } else if s.len() < 4 {
        Err(Fault::UnexpectedEnd)
    } else if is_tag(s[3]) {
        unexpected("text"@, s[3])
    } else if s.len() < 5 {
        Err(Fault::UnexpectedEnd)
    } else if s[4] != SPAN_END@ {
        unexpected(SPAN_END@, s[4])
    } else if s.len() < 6 {
        Err(Fault::UnexpectedEnd)
    } else {
        Ok(
            Parse {
                tree: seq![s[0], name_of(s[1]), s[2], s[3], VARIABLE_INIT_END@],
                rest: s.skip(5),
            },
        )
    }
}

/// The current token, a name, `#MKAY`.
pub open spec fn variable_use(s: Seq<Seq<char>>) -> Outcome {
    if s.len() < 2 {
        Err(Fault::UnexpectedEnd)
    } else if name_fault(s[1]) is Some {
        Err(name_fault(s[1])->0)
    } else if s.len() < 3 {
        Err(Fault::UnexpectedEnd)
    } else if s[2] != SPAN_END@ {
        unexpected(SPAN_END@, s[2])
    } else if s.len() < 4 {
        Err(Fault::UnexpectedEnd)
    } else {
        Ok(Parse { tree: seq![s[0], name_of(s[1]), VARIABLE_USE_END@], rest: s.skip(3) })
    }
}

/// What a list item holds: exactly one of a bold span, an italics span,
/// a text and a variable use. Anything else is refused.
pub open spec fn inner_list(s: Seq<Seq<char>>) -> Outcome {
    if s[0] == BOLD_BEGIN@ {
        span(s, BOLD_END@)
    } else if s[0] == ITALICS_BEGIN@ {
        span(s, ITALICS_END@)
    } else if !is_tag(s[0]) {
        text(s)
    } else if s[0] == VARIABLE_USE@ {
        variable_use(s)
    } else {
        unexpected("valid list item token"@, s[0])
    }
}

/// The items of a list, up to and with the `#OIC` that closes it.
pub open spec fn list_items(s: Seq<Seq<char>>) -> Outcome
    decreases s.len(),
    via list_items_terminates
{
    if s.len() == 0 {
        Err(Fault::UnexpectedEnd)
    } else if s[0] == BLOCK_END@ {
        shift(s, LIST_END@)
    } else if s[0] != ITEM_BEGIN@ {
        unexpected(ITEM_BEGIN@, s[0])
    } else if s.len() < 2 {
        Err(Fault::UnexpectedEnd)
    } else {
        match inner_list(s.drop_first()) {
            Err(fault) => Err(fault),
            Ok(p) => if p.rest[0] != SPAN_END@ {
                unexpected(SPAN_END@, p.rest[0])
            } else if p.rest.len() < 2 {
                Err(Fault::UnexpectedEnd)
            } else {
                join(seq![s[0]] + p.tree + seq![ITEM_END@], list_items(p.rest.drop_first()))
            },
        }
    }
}

#[via_fn]
proof fn list_items_terminates(s: Seq<Seq<char>>) {
    if s.len() >= 2 {
        lemma_simple_leaves(s.drop_first(), BOLD_END@);
        lemma_simple_leaves(s.drop_first(), ITALICS_END@);
    }
}

/// The current token, then the items of a list.
pub open spec fn list(s: Seq<Seq<char>>) -> Outcome {
    if s.len() < 2 {
        Err(Fault::UnexpectedEnd)
    } else {
        join(seq![s[0]], list_items(s.drop_first()))
    }
}

/// One construct inside a paragraph.
pub open spec fn inner_item(s: Seq<Seq<char>>) -> Outcome {
    if !is_tag(s[0]) {
        text(s)
    } else if s[0] == VARIABLE_USE@ {
        variable_use(s)
    } else if s[0] == BOLD_BEGIN@ {
        span(s, BOLD_END@)
    } else if s[0] == ITALICS_BEGIN@ {
        span(s, ITALICS_END@)
    } else if s[0] == NEWLINE@ {
        text(s)
    } else if s[0] == AUDIO_BEGIN@ {
        span(s, AUDIO_END@)
    } else if s[0] == VIDEO_BEGIN@ {
        span(s, VIDEO_END@)
    } else if s[0] == LIST_BEGIN@ {
        list(s)
    } else {
        unexpected("valid paragraph body token"@, s[0])
    }
}

/// The constructs of a paragraph, up to and with the `#OIC` that closes it.
pub open spec fn inner_paragraph(s: Seq<Seq<char>>) -> Outcome
    decreases s.len(),
    via inner_paragraph_terminates
{
    if s.len() == 0 {
        Err(Fault::UnexpectedEnd)
    } else if s[0] == BLOCK_END@ {
        shift(s, PARAGRAPH_END@)
    } else {
        match inner_item(s) {
            Err(fault) => Err(fault),
            Ok(p) => join(p.tree, inner_paragraph(p.rest)),
        }
    }
}

#[via_fn]
proof fn inner_paragraph_terminates(s: Seq<Seq<char>>) {
    if s.len() >= 1 {
        lemma_inner_item_leaves(s);
    }
}

/// One construct inside a paragraph, then the rest of the paragraph.
pub open spec fn inner_text(s: Seq<Seq<char>>) -> Outcome {
    match inner_item(s) {
        Err(fault) => Err(fault),
        Ok(p) => join(p.tree, inner_paragraph(p.rest)),
    }
}

/// The current token, an optional variable definition, then the paragraph's constructs.
pub open spec fn paragraph(s: Seq<Seq<char>>) -> Outcome {
    if s.len() < 2 {
        Err(Fault::UnexpectedEnd)
    } else {
        match variable_define(s.drop_first()) {
            Err(fault) => Err(fault),
            Ok(p) => join(seq![s[0]] + p.tree, inner_paragraph(p.rest)),
        }
    }
}

/// One construct of the body.
pub open spec fn body_item(s: Seq<Seq<char>>) -> Outcome {
    if !is_tag(s[0]) {
        text(s)
    } else if s[0] == BOLD_BEGIN@ {
        span(s, BOLD_END@)
    } else if s[0] == ITALICS_BEGIN@ {
        span(s, ITALICS_END@)
    } else if s[0] == NEWLINE@ {
        text(s)
    } else if s[0] == LIST_BEGIN@ {
        list(s)
    } else if s[0] == AUDIO_BEGIN@ {
        span(s, AUDIO_END@)
    } else if s[0] == VIDEO_BEGIN@ {
        span(s, VIDEO_END@)
    } else if s[0] == VARIABLE_BEGIN@ {
        variable_define(s)
    } else if s[0] == VARIABLE_USE@ {
        variable_use(s)
    } else if s[0] == PARAGRAPH_BEGIN@ {
        paragraph(s)
    } else if s[0] == COMMENT_BEGIN@ {
        comment(s)
    } else {
        unexpected("valid body token"@, s[0])
    }
}

/// The constructs of the body, up to the `#KTHXBYE` that ends the document,
/// which stays the current token.
pub open spec fn body(s: Seq<Seq<char>>) -> Outcome
    decreases s.len(),
    via body_terminates
{
    if s.len() == 0 {
        Err(Fault::UnexpectedEnd)
    } else if s[0] == DOCUMENT_END@ {
        Ok(Parse { tree: Seq::empty(), rest: s })
    } else {
        match body_item(s) {
            Err(fault) => Err(fault),
            Ok(p) => join(p.tree, body(p.rest)),
        }
    }
}

#[via_fn]
proof fn body_terminates(s: Seq<Seq<char>>) {
    if s.len() >= 1 {
        lemma_body_item_leaves(s);
    }
}

/// What stands between `#HAI` and `#KTHXBYE`: comments, an optional head, the body.
pub open spec fn content(s: Seq<Seq<char>>) -> Outcome {
    match comment(s) {
        Err(fault) => Err(fault),
        Ok(c) => match head(c.rest) {
            Err(fault) => Err(fault),
            Ok(h) => join(c.tree + h.tree, body(h.rest)),
        },
    }
}

/// The flattened parse sequence of a whole token sequence, or the first fault in it.
pub open spec fn document(tokens: Seq<Seq<char>>) -> Result<Seq<Seq<char>>, Fault> {
    if tokens.len() == 0 {
        Err(Fault::UnexpectedEnd)
    } else if tokens[0] != DOCUMENT_BEGIN@ {
        Err(Fault::Unexpected { expected: DOCUMENT_BEGIN@, found: tokens[0] })
    } else if tokens.len() < 2 {
        Err(Fault::UnexpectedEnd)
    } else {
        match content(tokens.drop_first()) {
            Err(fault) => Err(fault),
            Ok(p) => if p.rest.len() > 1 {
                Err(Fault::ExtraTokens)
            } else {
                Ok(seq![tokens[0]] + p.tree + seq![DOCUMENT_END@])
            },
        }
    }
}

/// `rest` is what is left of `s` once its first tokens are gone, at least
/// `least` of them, and is itself not empty.
pub open spec fn left_of(rest: Seq<Seq<char>>, s: Seq<Seq<char>>, least: int) -> bool {
    &&& 1 <= rest.len() <= s.len() - least
    &&& rest == s.skip(s.len() - rest.len())
}

/// A production that succeeds leaves a non-empty end of its stream.
pub open spec fn leaves(o: Outcome, s: Seq<Seq<char>>, least: int) -> bool {
    o is Ok ==> left_of(o->Ok_0.rest, s, least)
}

proof fn lemma_left_of_step(
    rest: Seq<Seq<char>>,
    middle: Seq<Seq<char>>,
    s: Seq<Seq<char>>,
    a: int,
    b: int,
)
    requires
        left_of(middle, s, a),
        left_of(rest, middle, b),
        0 <= a,
        0 <= b,
    ensures
        left_of(rest, s, a + b),
{
    assert(rest =~= s.skip(s.len() - rest.len()));
}

/// What the productions without repetition leave of their stream.
pub proof fn lemma_simple_leaves(s: Seq<Seq<char>>, close: Seq<char>)
    requires
        s.len() >= 1,
    ensures
        leaves(advance(s), s, 1),
        leaves(shift(s, close), s, 1),
        leaves(text(s), s, 1),
        leaves(name(s), s, 1),
        leaves(span(s, close), s, 3),
        leaves(title(s), s, 3),
        leaves(variable_use(s), s, 3),
        leaves(variable_define(s), s, 0),
        s[0] == VARIABLE_BEGIN@ ==> leaves(variable_define(s), s, 5),
        leaves(inner_list(s), s, 1),
        leaves(head(s), s, 0),
{
    assert(s =~= s.skip(0));
    if s.len() > 1 {
        assert(s.drop_first() =~= s.skip(1));
        if head(s) is Ok && s[0] == HEAD_BEGIN@ {
            let t = s.drop_first();
            let p = title(t)->Ok_0;
            assert(left_of(p.rest, t, 3));
            assert(left_of(t, s, 1));
            lemma_left_of_step(p.rest, t, s, 1, 3);
            assert(p.rest.drop_first() =~= p.rest.skip(1));
            assert(left_of(p.rest.drop_first(), p.rest, 1));
            lemma_left_of_step(p.rest.drop_first(), p.rest, s, 4, 1);
        }
    }
}

/// Comments leave an end of their stream; one comment takes three tokens.
pub proof fn lemma_comment_leaves(s: Seq<Seq<char>>)
    requires
        s.len() >= 1,
    ensures
        leaves(comment(s), s, 0),
        s[0] == COMMENT_BEGIN@ ==> leaves(comment(s), s, 3),
    decreases s.len(),
{
    assert(s =~= s.skip(0));
    if s[0] == COMMENT_BEGIN@ && comment(s) is Ok {
        let t = s.skip(3);
        lemma_comment_leaves(t);
        assert(left_of(t, s, 3));
        lemma_left_of_step(comment(t)->Ok_0.rest, t, s, 3, 0);
    }
}

/// The items of a list take at least the `#OIC` that closes it.
pub proof fn lemma_list_items_leaves(s: Seq<Seq<char>>)
    requires
        s.len() >= 1,
    ensures
        leaves(list_items(s), s, 1),
    decreases s.len(),
{
    if list_items(s) is Ok {
        lemma_simple_leaves(s, LIST_END@);
        if s[0] != BLOCK_END@ {
            let t = s.drop_first();
            assert(t =~= s.skip(1));
            lemma_simple_leaves(t, BOLD_END@);
            lemma_simple_leaves(t, ITALICS_END@);
            let p = inner_list(t)->Ok_0;
            let u = p.rest.drop_first();
            assert(u =~= p.rest.skip(1));
            lemma_left_of_step(p.rest, t, s, 1, 0);
            lemma_left_of_step(u, p.rest, s, 1, 1);
            lemma_list_items_leaves(u);
            lemma_left_of_step(list_items(u)->Ok_0.rest, u, s, 2, 1);
        }
    }
}

/// A list takes at least two tokens.
pub proof fn lemma_list_leaves(s: Seq<Seq<char>>)
    requires
        s.len() >= 1,
    ensures
        leaves(list(s), s, 2),
{
    if list(s) is Ok {
        let t = s.drop_first();
        assert(t =~= s.skip(1));
        lemma_list_items_leaves(t);
        lemma_left_of_step(list_items(t)->Ok_0.rest, t, s, 1, 1);
    }
}

/// A construct inside a paragraph takes at least one token.
pub proof fn lemma_inner_item_leaves(s: Seq<Seq<char>>)
    requires
        s.len() >= 1,
    ensures
        leaves(inner_item(s), s, 1),
{
    lemma_simple_leaves(s, BOLD_END@);
    lemma_simple_leaves(s, ITALICS_END@);
    lemma_simple_leaves(s, AUDIO_END@);
    lemma_simple_leaves(s, VIDEO_END@);
    lemma_list_leaves(s);
}

/// The inside of a paragraph takes at least the `#OIC` that closes it.
pub proof fn lemma_inner_paragraph_leaves(s: Seq<Seq<char>>)
    requires
        s.len() >= 1,
    ensures
        leaves(inner_paragraph(s), s, 1),
    decreases s.len(),
{
    if inner_paragraph(s) is Ok {
        lemma_simple_leaves(s, PARAGRAPH_END@);
        if s[0] != BLOCK_END@ {
            lemma_inner_item_leaves(s);
            let p = inner_item(s)->Ok_0;
            lemma_inner_paragraph_leaves(p.rest);
            lemma_left_of_step(inner_paragraph(p.rest)->Ok_0.rest, p.rest, s, 1, 1);
        }
    }
}

/// A paragraph takes at least two tokens.
pub proof fn lemma_paragraph_leaves(s: Seq<Seq<char>>)
    requires
        s.len() >= 1,
    ensures
        leaves(inner_text(s), s, 2),
        leaves(paragraph(s), s, 2),
{
    if inner_text(s) is Ok {
        lemma_inner_item_leaves(s);
        let p = inner_item(s)->Ok_0;
        lemma_inner_paragraph_leaves(p.rest);
        lemma_left_of_step(inner_paragraph(p.rest)->Ok_0.rest, p.rest, s, 1, 1);
    }
    if paragraph(s) is Ok {
        let t = s.drop_first();
        assert(t =~= s.skip(1));
        lemma_simple_leaves(t, SPAN_END@);
        let p = variable_define(t)->Ok_0;
        lemma_left_of_step(p.rest, t, s, 1, 0);
        lemma_inner_paragraph_leaves(p.rest);
        lemma_left_of_step(inner_paragraph(p.rest)->Ok_0.rest, p.rest, s, 1, 1);
    }
}

/// A construct of the body takes at least one token.
pub proof fn lemma_body_item_leaves(s: Seq<Seq<char>>)
    requires
        s.len() >= 1,
    ensures
        leaves(body_item(s), s, 1),
{
    lemma_simple_leaves(s, BOLD_END@);
    lemma_simple_leaves(s, ITALICS_END@);
    lemma_simple_leaves(s, AUDIO_END@);
    lemma_simple_leaves(s, VIDEO_END@);
    lemma_list_leaves(s);
    lemma_paragraph_leaves(s);
    lemma_comment_leaves(s);
}

/// The body leaves the `#KTHXBYE` that ends the document, and what follows it.
pub proof fn lemma_body_leaves(s: Seq<Seq<char>>)
    requires
        s.len() >= 1,
    ensures
        leaves(body(s), s, 0),
        body(s) is Ok ==> body(s)->Ok_0.rest[0] == DOCUMENT_END@,
    decreases s.len(),
{
    assert(s =~= s.skip(0));
    if body(s) is Ok && s[0] != DOCUMENT_END@ {
        lemma_body_item_leaves(s);
        let p = body_item(s)->Ok_0;
        lemma_body_leaves(p.rest);
        lemma_left_of_step(body(p.rest)->Ok_0.rest, p.rest, s, 1, 0);
    }
}

/// So does all that stands between `#HAI` and `#KTHXBYE`.
pub proof fn lemma_content_leaves(s: Seq<Seq<char>>)
    requires
        s.len() >= 1,
    ensures
        leaves(content(s), s, 0),
        content(s) is Ok ==> content(s)->Ok_0.rest[0] == DOCUMENT_END@,
{
    if content(s) is Ok {
        lemma_comment_leaves(s);
        let a = comment(s)->Ok_0.rest;
        lemma_simple_leaves(a, HEAD_END@);
        let b = head(a)->Ok_0.rest;
        lemma_left_of_step(b, a, s, 0, 0);
        lemma_body_leaves(b);
        lemma_left_of_step(body(b)->Ok_0.rest, b, s, 0, 0);
    }
}

/// A production that fails, fails with a syntax error.
pub open spec fn syntactic(o: Outcome) -> bool {
    o is Err ==> o->Err_0.kind() == ErrorKind::Syntax
}

proof fn lemma_simple_syntactic(s: Seq<Seq<char>>, close: Seq<char>)
    ensures
        syntactic(text(s)),
        syntactic(span(s, close)),
        syntactic(title(s)),
        syntactic(head(s)),
        syntactic(variable_define(s)),
        syntactic(variable_use(s)),
        syntactic(inner_list(s)),
{
}

proof fn lemma_comment_syntactic(s: Seq<Seq<char>>)
    ensures
        syntactic(comment(s)),
    decreases s.len(),
{
    if s.len() >= 4 {
        lemma_comment_syntactic(s.skip(3));
    }
}

proof fn lemma_list_items_syntactic(s: Seq<Seq<char>>)
    ensures
        syntactic(list_items(s)),
        syntactic(list(s)),
    decreases s.len(),
{
    if s.len() >= 2 {
        let t = s.drop_first();
        lemma_simple_syntactic(t, BOLD_END@);
        lemma_simple_syntactic(t, ITALICS_END@);
        lemma_list_items_syntactic(t);
        if inner_list(t) is Ok {
            lemma_simple_leaves(t, BOLD_END@);
            lemma_simple_leaves(t, ITALICS_END@);
            let p = inner_list(t)->Ok_0;
            if p.rest.len() >= 2 {
                lemma_list_items_syntactic(p.rest.drop_first());
            }
        }
    }
}

proof fn lemma_inner_item_syntactic(s: Seq<Seq<char>>)
    ensures
        syntactic(inner_item(s)),
{
    lemma_simple_syntactic(s, BOLD_END@);
    lemma_simple_syntactic(s, ITALICS_END@);
    lemma_simple_syntactic(s, AUDIO_END@);
    lemma_simple_syntactic(s, VIDEO_END@);
    lemma_list_items_syntactic(s);
}

proof fn lemma_inner_paragraph_syntactic(s: Seq<Seq<char>>)
    ensures
        syntactic(inner_paragraph(s)),
    decreases s.len(),
{
    if s.len() >= 1 && s[0] != BLOCK_END@ {
        lemma_inner_item_syntactic(s);
        if inner_item(s) is Ok {
            lemma_inner_item_leaves(s);
            lemma_inner_paragraph_syntactic(inner_item(s)->Ok_0.rest);
        }
    }
}

proof fn lemma_body_item_syntactic(s: Seq<Seq<char>>)
    ensures
        syntactic(body_item(s)),
{
    lemma_simple_syntactic(s, BOLD_END@);
    lemma_simple_syntactic(s, ITALICS_END@);
    lemma_simple_syntactic(s, AUDIO_END@);
    lemma_simple_syntactic(s, VIDEO_END@);
    lemma_list_items_syntactic(s);
    lemma_comment_syntactic(s);
    if s.len() >= 2 {
        let t = s.drop_first();
        lemma_simple_syntactic(t, SPAN_END@);
        if variable_define(t) is Ok {
            lemma_inner_paragraph_syntactic(variable_define(t)->Ok_0.rest);
        }
    }
}

proof fn lemma_body_syntactic(s: Seq<Seq<char>>)
    ensures
        syntactic(body(s)),
    decreases s.len(),
{
    if s.len() >= 1 && s[0] != DOCUMENT_END@ {
        lemma_body_item_syntactic(s);
        if body_item(s) is Ok {
            lemma_body_item_leaves(s);
            lemma_body_syntactic(body_item(s)->Ok_0.rest);
        }
    }
}

/// What syntax analysis refuses, it refuses with a syntax error.
pub proof fn lemma_document_syntactic(tokens: Seq<Seq<char>>)
    requires
        document(tokens) is Err,
    ensures
        document(tokens)->Err_0.kind() == ErrorKind::Syntax,
{
    if tokens.len() >= 2 {
        let s = tokens.drop_first();
        lemma_comment_syntactic(s);
        if comment(s) is Ok {
            let c = comment(s)->Ok_0;
            lemma_simple_syntactic(c.rest, HEAD_END@);
            if head(c.rest) is Ok {
                lemma_body_syntactic(head(c.rest)->Ok_0.rest);
            }
        }
    }
}

/// Contributing in two steps is contributing the whole at once.
pub proof fn lemma_join_join(first: Seq<Seq<char>>, second: Seq<Seq<char>>, later: Outcome)
    ensures
        join(first, join(second, later)) == join(first + second, later),
{
    if later is Ok {
        assert(first + (second + later->Ok_0.tree) =~= (first + second) + later->Ok_0.tree);
    }
}

} // verus!
