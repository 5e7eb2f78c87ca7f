//! The shape of a flattened parse sequence: what is opened is closed, in order.
//!
//! The sequence has no explicit tree. Its nesting shows when it is read
//! with a stack: a symbol that opens a construct puts the marker that
//! closes it on the stack, and a closing marker must be the one on top.

use vstd::prelude::*;
use crate::grammar::{
    body, body_item, comment, content, document, head, inner_item, inner_list, inner_paragraph,
    left_of, lemma_body_item_leaves, lemma_comment_leaves, lemma_inner_item_leaves,
    lemma_simple_leaves, list, list_items, name_of, paragraph, span, text, title, variable_define,
    variable_use,
};
use crate::keywords::{
    is_keyword, lemma_keywords_are_tags, lemma_vocabulary, AUDIO_BEGIN, AUDIO_END, BLOCK_END,
    BOLD_BEGIN, BOLD_END, COMMENT_BEGIN, COMMENT_END, DOCUMENT_BEGIN, DOCUMENT_END, HEAD_BEGIN,
    HEAD_END, ITALICS_BEGIN, ITALICS_END, ITEM_BEGIN, ITEM_END, LIST_BEGIN, LIST_END, NEWLINE,
    PARAGRAPH_BEGIN, PARAGRAPH_END, SPAN_END, TITLE_BEGIN, TITLE_END, VARIABLE_BEGIN,
    VARIABLE_INIT_END, VARIABLE_USE, VARIABLE_USE_END, VIDEO_BEGIN, VIDEO_END,
};
use crate::lexer::{all_clean, clean};
use crate::text::{is_tag, trim_end, trim_start, trimmed, whitespace};

verus! {

/// The marker that closes what `symbol` opens, if `symbol` opens anything.
pub open spec fn closer_of(symbol: Seq<char>) -> Option<Seq<char>> {
    if symbol == DOCUMENT_BEGIN@ {
        Some(DOCUMENT_END@)
    } else if symbol == COMMENT_BEGIN@ {
        Some(COMMENT_END@)
    } else if symbol == HEAD_BEGIN@ {
        Some(HEAD_END@)
    } else if symbol == TITLE_BEGIN@ {
        Some(TITLE_END@)
    } else if symbol == PARAGRAPH_BEGIN@ {
        Some(PARAGRAPH_END@)
    } else if symbol == BOLD_BEGIN@ {
        Some(BOLD_END@)
    } else if symbol == ITALICS_BEGIN@ {
        Some(ITALICS_END@)
    } else if symbol == LIST_BEGIN@ {
        Some(LIST_END@)
    } else if symbol == ITEM_BEGIN@ {
        Some(ITEM_END@)
    } else if symbol == AUDIO_BEGIN@ {
        Some(AUDIO_END@)
    } else if symbol == VIDEO_BEGIN@ {
        Some(VIDEO_END@)
    } else if symbol == VARIABLE_BEGIN@ {
        Some(VARIABLE_INIT_END@)
    } else if symbol == VARIABLE_USE@ {
        Some(VARIABLE_USE_END@)
    } else {
        None
    }
}

/// Whether `symbol` closes a construct.
pub open spec fn is_closer(symbol: Seq<char>) -> bool {
    ||| symbol == DOCUMENT_END@
    ||| symbol == COMMENT_END@
    ||| symbol == HEAD_END@
    ||| symbol == TITLE_END@
    ||| symbol == PARAGRAPH_END@
    ||| symbol == BOLD_END@
    ||| symbol == ITALICS_END@
    ||| symbol == LIST_END@
    ||| symbol == ITEM_END@
    ||| symbol == AUDIO_END@
    ||| symbol == VIDEO_END@
    ||| symbol == VARIABLE_INIT_END@
    ||| symbol == VARIABLE_USE_END@
}

/// Reads `tree` with the stack `open` of markers that are still owed, the
/// one owed next last. Yields the stack at the end, or nothing if a closing
/// marker comes that is not the one owed next.
pub open spec fn nest(tree: Seq<Seq<char>>, open: Seq<Seq<char>>) -> Option<Seq<Seq<char>>>
    decreases tree.len(),
{
    if tree.len() == 0 {
        Some(open)
    } else if closer_of(tree[0]) is Some {
        nest(tree.drop_first(), open.push(closer_of(tree[0])->0))
    } else if !is_closer(tree[0]) {
        nest(tree.drop_first(), open)
    } else if open.len() > 0 && open.last() == tree[0] {
        nest(tree.drop_first(), open.drop_last())
    } else {
        None
    }
}

/// Every construct that `tree` opens it also closes, in order, and it
/// closes none that it did not open.
pub open spec fn well_nested(tree: Seq<Seq<char>>) -> bool {
    nest(tree, Seq::empty()) == Some(Seq::<Seq<char>>::empty())
}

/// Reading `part` changes nothing: whatever follows it is read with the
/// stack that stood before it.
pub open spec fn settled(part: Seq<Seq<char>>) -> bool {
    forall|rest: Seq<Seq<char>>, open: Seq<Seq<char>>| #[trigger]
        nest(part + rest, open) == nest(rest, open)
}

/// `part` settles all but its last symbol, the marker `close`.
pub open spec fn closes_with(part: Seq<Seq<char>>, close: Seq<char>) -> bool {
    part.len() > 0 && part.last() == close && settled(part.drop_last())
}

/// A symbol that neither opens nor closes.
pub open spec fn inert(symbol: Seq<char>) -> bool {
    closer_of(symbol) is None && !is_closer(symbol)
}

proof fn lemma_settled_empty()
    ensures
        settled(Seq::empty()),
{
    assert forall|rest: Seq<Seq<char>>, open: Seq<Seq<char>>| #[trigger]
        nest(Seq::<Seq<char>>::empty() + rest, open) == nest(rest, open) by {
        assert(Seq::<Seq<char>>::empty() + rest =~= rest);
    }
}

proof fn lemma_settled_concat(a: Seq<Seq<char>>, b: Seq<Seq<char>>)
    requires
        settled(a),
        settled(b),
    ensures
        settled(a + b),
{
    assert forall|rest: Seq<Seq<char>>, open: Seq<Seq<char>>| #[trigger]
        nest((a + b) + rest, open) == nest(rest, open) by {
        assert((a + b) + rest =~= a + (b + rest));
        assert(nest(a + (b + rest), open) == nest(b + rest, open));
    }
}

proof fn lemma_settled_inert(symbol: Seq<char>)
    requires
        inert(symbol),
    ensures
        settled(seq![symbol]),
{
    assert forall|rest: Seq<Seq<char>>, open: Seq<Seq<char>>| #[trigger]
        nest(seq![symbol] + rest, open) == nest(rest, open) by {
        assert((seq![symbol] + rest).drop_first() =~= rest);
    }
}

proof fn lemma_settled_pair(begin: Seq<char>, inside: Seq<Seq<char>>, close: Seq<char>)
    requires
        closer_of(begin) == Some(close),
        closer_of(close) is None,
        is_closer(close),
        settled(inside),
    ensures
        settled(seq![begin] + inside + seq![close]),
{
    assert forall|rest: Seq<Seq<char>>, open: Seq<Seq<char>>| #[trigger]
        nest((seq![begin] + inside + seq![close]) + rest, open) == nest(rest, open) by {
        let whole = (seq![begin] + inside + seq![close]) + rest;
        assert(whole.drop_first() =~= inside + (seq![close] + rest));
        assert(nest(inside + (seq![close] + rest), open.push(close)) == nest(
            seq![close] + rest,
            open.push(close),
        ));
        assert((seq![close] + rest).drop_first() =~= rest);
        assert(open.push(close).drop_last() =~= open);
    }
}

/// A part that ends with its closing marker, behind the symbol that opens it.
proof fn lemma_settled_closed(begin: Seq<char>, part: Seq<Seq<char>>, close: Seq<char>)
    requires
        closer_of(begin) == Some(close),
        closer_of(close) is None,
        is_closer(close),
        closes_with(part, close),
    ensures
        settled(seq![begin] + part),
{
    lemma_settled_pair(begin, part.drop_last(), close);
    assert(seq![begin] + part =~= seq![begin] + part.drop_last() + seq![close]);
}

/// A settled part before a part that ends with a closing marker.
proof fn lemma_closes_after(first: Seq<Seq<char>>, part: Seq<Seq<char>>, close: Seq<char>)
    requires
        settled(first),
        closes_with(part, close),
    ensures
        closes_with(first + part, close),
{
    lemma_settled_concat(first, part.drop_last());
    assert((first + part).drop_last() =~= first + part.drop_last());
}

/// What is not a tag neither opens nor closes.
proof fn lemma_text_inert(symbol: Seq<char>)
    requires
        !is_tag(symbol),
    ensures
        inert(symbol),
{
    lemma_vocabulary();
}

proof fn lemma_trim_keeps(s: Seq<char>, c: char)
    ensures
        trim_start(s).contains(c) ==> s.contains(c),
        trim_end(s).contains(c) ==> s.contains(c),
    decreases s.len(),
{
    if s.len() > 0 {
        lemma_trim_keeps(s.drop_first(), c);
        lemma_trim_keeps(s.drop_last(), c);
        if trim_start(s).contains(c) && whitespace_first(s) {
            let i = choose|i: int| 0 <= i < s.drop_first().len() && s.drop_first()[i] == c;
            assert(s[i + 1] == c);
        }
        if trim_end(s).contains(c) && whitespace_last(s) {
            let i = choose|i: int| 0 <= i < s.drop_last().len() && s.drop_last()[i] == c;
            assert(s[i] == c);
        }
    }
}

spec fn whitespace_first(s: Seq<char>) -> bool {
    s.len() > 0 && whitespace(s[0])
}

spec fn whitespace_last(s: Seq<char>) -> bool {
    s.len() > 0 && whitespace(s.last())
}

/// The name taken from a run of text is no tag.
proof fn lemma_name_is_text(token: Seq<char>)
    requires
        clean(token),
        !is_tag(token),
    ensures
        !is_tag(name_of(token)),
{
    lemma_keywords_are_tags();
    assert(!is_keyword(token));
    let bare = trimmed(token);
    lemma_trim_keeps(token, '#');
    lemma_trim_keeps(trim_start(token), '#');
    if is_tag(bare) {
        assert(bare.contains(bare[0]));
    }
}

/// The name taken from a run of text neither opens nor closes.
proof fn lemma_name_inert(token: Seq<char>)
    requires
        clean(token),
        !is_tag(token),
    ensures
        inert(name_of(token)),
{
    lemma_name_is_text(token);
    lemma_text_inert(name_of(token));
}

/// What is left of a stream of clean tokens is a stream of clean tokens.
proof fn lemma_clean_rest(s: Seq<Seq<char>>, rest: Seq<Seq<char>>)
    requires
        all_clean(s),
        left_of(rest, s, 0),
    ensures
        all_clean(rest),
{
    assert forall|i: int| 0 <= i < rest.len() implies clean(#[trigger] rest[i]) by {
        assert(rest[i] == s[s.len() - rest.len() + i]);
    }
}

proof fn lemma_text_settled(s: Seq<Seq<char>>)
    requires
        s.len() >= 1,
        inert(s[0]),
        text(s) is Ok,
    ensures
        settled(text(s)->Ok_0.tree),
{
    lemma_settled_inert(s[0]);
    assert(text(s)->Ok_0.tree =~= seq![s[0]]);
}

proof fn lemma_span_settled(s: Seq<Seq<char>>, close: Seq<char>)
    requires
        s.len() >= 1,
        closer_of(s[0]) == Some(close),
        span(s, close) is Ok,
    ensures
        settled(span(s, close)->Ok_0.tree),
{
    lemma_vocabulary();
    lemma_text_inert(s[1]);
    lemma_settled_inert(s[1]);
    lemma_settled_pair(s[0], seq![s[1]], close);
    assert(span(s, close)->Ok_0.tree =~= seq![s[0]] + seq![s[1]] + seq![close]);
}

proof fn lemma_head_settled(s: Seq<Seq<char>>)
    requires
        s.len() >= 1,
        head(s) is Ok,
    ensures
        settled(head(s)->Ok_0.tree),
{
    lemma_vocabulary();
    if s[0] != HEAD_BEGIN@ {
        lemma_settled_empty();
    } else {
        let t = s.drop_first();
        lemma_span_settled(t, TITLE_END@);
        let p = title(t)->Ok_0;
        lemma_settled_pair(s[0], p.tree, HEAD_END@);
        assert(head(s)->Ok_0.tree =~= seq![s[0]] + p.tree + seq![HEAD_END@]);
    }
}

proof fn lemma_comment_settled(s: Seq<Seq<char>>)
    requires
        comment(s) is Ok,
    ensures
        settled(comment(s)->Ok_0.tree),
    decreases s.len(),
{
    lemma_vocabulary();
    if s.len() == 0 || s[0] != COMMENT_BEGIN@ {
        lemma_settled_empty();
    } else {
        lemma_text_inert(s[1]);
        lemma_settled_inert(s[1]);
        lemma_settled_pair(s[0], seq![s[1]], s[2]);
        lemma_comment_settled(s.skip(3));
        let more = comment(s.skip(3))->Ok_0.tree;
        lemma_settled_concat(seq![s[0]] + seq![s[1]] + seq![s[2]], more);
        assert(comment(s)->Ok_0.tree =~= (seq![s[0]] + seq![s[1]] + seq![s[2]]) + more);
    }
}

proof fn lemma_variable_define_settled(s: Seq<Seq<char>>)
    requires
        s.len() >= 1,
        all_clean(s),
        variable_define(s) is Ok,
    ensures
        settled(variable_define(s)->Ok_0.tree),
{
    lemma_vocabulary();
    if s[0] != VARIABLE_BEGIN@ {
        lemma_settled_empty();
    } else {
        lemma_name_inert(s[1]);
        lemma_text_inert(s[3]);
        lemma_settled_inert(name_of(s[1]));
        lemma_settled_inert(s[2]);
        lemma_settled_inert(s[3]);
        lemma_settled_concat(seq![name_of(s[1])], seq![s[2]]);
        lemma_settled_concat(seq![name_of(s[1])] + seq![s[2]], seq![s[3]]);
        let inside = seq![name_of(s[1])] + seq![s[2]] + seq![s[3]];
        lemma_settled_pair(s[0], inside, VARIABLE_INIT_END@);
        assert(variable_define(s)->Ok_0.tree =~= seq![s[0]] + inside + seq![VARIABLE_INIT_END@]);
    }
}

proof fn lemma_variable_use_settled(s: Seq<Seq<char>>)
    requires
        s.len() >= 1,
        all_clean(s),
        s[0] == VARIABLE_USE@,
        variable_use(s) is Ok,
    ensures
        settled(variable_use(s)->Ok_0.tree),
{
    lemma_vocabulary();
    lemma_name_inert(s[1]);
    lemma_settled_inert(name_of(s[1]));
    lemma_settled_pair(s[0], seq![name_of(s[1])], VARIABLE_USE_END@);
    assert(variable_use(s)->Ok_0.tree =~= seq![s[0]] + seq![name_of(s[1])] + seq![
        VARIABLE_USE_END@,
    ]);
}

proof fn lemma_inner_list_settled(s: Seq<Seq<char>>)
    requires
        s.len() >= 1,
        all_clean(s),
        inner_list(s) is Ok,
    ensures
        settled(inner_list(s)->Ok_0.tree),
{
    lemma_vocabulary();
    if s[0] == BOLD_BEGIN@ {
        lemma_span_settled(s, BOLD_END@);
    } else if s[0] == ITALICS_BEGIN@ {
        lemma_span_settled(s, ITALICS_END@);
    } else if !is_tag(s[0]) {
        lemma_text_inert(s[0]);
        lemma_text_settled(s);
    } else {
        lemma_variable_use_settled(s);
    }
}

proof fn lemma_list_items_closes(s: Seq<Seq<char>>)
    requires
        all_clean(s),
        list_items(s) is Ok,
    ensures
        closes_with(list_items(s)->Ok_0.tree, LIST_END@),
    decreases s.len(),
{
    lemma_vocabulary();
    if s[0] == BLOCK_END@ {
        lemma_settled_empty();
        let tree = list_items(s)->Ok_0.tree;
        assert(tree =~= seq![LIST_END@]);
        assert(tree.drop_last() =~= Seq::<Seq<char>>::empty());
    } else {
        let t = s.drop_first();
        assert(t =~= s.skip(1));
        lemma_clean_rest(s, t);
        lemma_inner_list_settled(t);
        lemma_simple_leaves(t, BOLD_END@);
        lemma_simple_leaves(t, ITALICS_END@);
        let p = inner_list(t)->Ok_0;
        lemma_clean_rest(t, p.rest);
        let u = p.rest.drop_first();
        assert(u =~= p.rest.skip(1));
        lemma_clean_rest(p.rest, u);
        lemma_settled_pair(s[0], p.tree, ITEM_END@);
        lemma_list_items_closes(u);
        let item = seq![s[0]] + p.tree + seq![ITEM_END@];
        lemma_closes_after(item, list_items(u)->Ok_0.tree, LIST_END@);
    }
}

proof fn lemma_list_settled(s: Seq<Seq<char>>)
    requires
        s.len() >= 1,
        all_clean(s),
        s[0] == LIST_BEGIN@,
        list(s) is Ok,
    ensures
        settled(list(s)->Ok_0.tree),
{
    lemma_vocabulary();
    let t = s.drop_first();
    assert(t =~= s.skip(1));
    lemma_clean_rest(s, t);
    lemma_list_items_closes(t);
    lemma_settled_closed(s[0], list_items(t)->Ok_0.tree, LIST_END@);
}

proof fn lemma_inner_item_settled(s: Seq<Seq<char>>)
    requires
        s.len() >= 1,
        all_clean(s),
        inner_item(s) is Ok,
    ensures
        settled(inner_item(s)->Ok_0.tree),
{
    lemma_vocabulary();
    if !is_tag(s[0]) {
        lemma_text_inert(s[0]);
        lemma_text_settled(s);
    } else if s[0] == VARIABLE_USE@ {
        lemma_variable_use_settled(s);
    } else if s[0] == BOLD_BEGIN@ {
        lemma_span_settled(s, BOLD_END@);
    } else if s[0] == ITALICS_BEGIN@ {
        lemma_span_settled(s, ITALICS_END@);
    } else if s[0] == NEWLINE@ {
        lemma_text_settled(s);
    } else if s[0] == AUDIO_BEGIN@ {
        lemma_span_settled(s, AUDIO_END@);
    } else if s[0] == VIDEO_BEGIN@ {
        lemma_span_settled(s, VIDEO_END@);
    } else {
        lemma_list_settled(s);
    }
}

proof fn lemma_inner_paragraph_closes(s: Seq<Seq<char>>)
    requires
        all_clean(s),
        inner_paragraph(s) is Ok,
    ensures
        closes_with(inner_paragraph(s)->Ok_0.tree, PARAGRAPH_END@),
    decreases s.len(),
{
    lemma_vocabulary();
    if s[0] == BLOCK_END@ {
        lemma_settled_empty();
        let tree = inner_paragraph(s)->Ok_0.tree;
        assert(tree =~= seq![PARAGRAPH_END@]);
        assert(tree.drop_last() =~= Seq::<Seq<char>>::empty());
    } else {
        lemma_inner_item_settled(s);
        lemma_inner_item_leaves(s);
        let p = inner_item(s)->Ok_0;
        lemma_clean_rest(s, p.rest);
        lemma_inner_paragraph_closes(p.rest);
        lemma_closes_after(p.tree, inner_paragraph(p.rest)->Ok_0.tree, PARAGRAPH_END@);
    }
}

proof fn lemma_paragraph_settled(s: Seq<Seq<char>>)
    requires
        s.len() >= 1,
        all_clean(s),
        s[0] == PARAGRAPH_BEGIN@,
        paragraph(s) is Ok,
    ensures
        settled(paragraph(s)->Ok_0.tree),
{
    lemma_vocabulary();
    let t = s.drop_first();
    assert(t =~= s.skip(1));
    lemma_clean_rest(s, t);
    lemma_variable_define_settled(t);
    lemma_simple_leaves(t, SPAN_END@);
    let p = variable_define(t)->Ok_0;
    lemma_clean_rest(t, p.rest);
    lemma_inner_paragraph_closes(p.rest);
    let q = inner_paragraph(p.rest)->Ok_0;
    lemma_closes_after(p.tree, q.tree, PARAGRAPH_END@);
    lemma_settled_closed(s[0], p.tree + q.tree, PARAGRAPH_END@);
    assert(paragraph(s)->Ok_0.tree =~= seq![s[0]] + (p.tree + q.tree));
}

proof fn lemma_body_item_settled(s: Seq<Seq<char>>)
    requires
        s.len() >= 1,
        all_clean(s),
        body_item(s) is Ok,
    ensures
        settled(body_item(s)->Ok_0.tree),
{
    lemma_vocabulary();
    if !is_tag(s[0]) {
        lemma_text_inert(s[0]);
        lemma_text_settled(s);
    } else if s[0] == BOLD_BEGIN@ {
        lemma_span_settled(s, BOLD_END@);
    } else if s[0] == ITALICS_BEGIN@ {
        lemma_span_settled(s, ITALICS_END@);
    } else if s[0] == NEWLINE@ {
        lemma_text_settled(s);
    } else if s[0] == LIST_BEGIN@ {
        lemma_list_settled(s);
    } else if s[0] == AUDIO_BEGIN@ {
        lemma_span_settled(s, AUDIO_END@);
    } else if s[0] == VIDEO_BEGIN@ {
        lemma_span_settled(s, VIDEO_END@);
    } else if s[0] == VARIABLE_BEGIN@ {
        lemma_variable_define_settled(s);
    } else if s[0] == VARIABLE_USE@ {
        lemma_variable_use_settled(s);
    } else if s[0] == PARAGRAPH_BEGIN@ {
        lemma_paragraph_settled(s);
    } else {
        lemma_comment_settled(s);
    }
}

proof fn lemma_body_settled(s: Seq<Seq<char>>)
    requires
        all_clean(s),
        body(s) is Ok,
    ensures
        settled(body(s)->Ok_0.tree),
    decreases s.len(),
{
    if s[0] == DOCUMENT_END@ {
        lemma_settled_empty();
    } else {
        lemma_body_item_settled(s);
        lemma_body_item_leaves(s);
        let p = body_item(s)->Ok_0;
        lemma_clean_rest(s, p.rest);
        lemma_body_settled(p.rest);
        lemma_settled_concat(p.tree, body(p.rest)->Ok_0.tree);
    }
}

proof fn lemma_content_settled(s: Seq<Seq<char>>)
    requires
        s.len() >= 1,
        all_clean(s),
        content(s) is Ok,
    ensures
        settled(content(s)->Ok_0.tree),
{
    lemma_comment_settled(s);
    lemma_comment_leaves(s);
    let c = comment(s)->Ok_0;
    lemma_clean_rest(s, c.rest);
    lemma_head_settled(c.rest);
    lemma_simple_leaves(c.rest, HEAD_END@);
    let h = head(c.rest)->Ok_0;
    lemma_clean_rest(c.rest, h.rest);
    lemma_body_settled(h.rest);
    lemma_settled_concat(c.tree, h.tree);
    lemma_settled_concat(c.tree + h.tree, body(h.rest)->Ok_0.tree);
}

/// The parse sequence of a document is well nested: each construct that
/// it opens has exactly one closing marker, which comes later, and the
/// constructs close in the reverse of the order in which they open.
///
/// This is stated of tokens as the lexical analyzer yields them: each a
/// keyword or a run of text without `#`.
pub proof fn lemma_document_well_nested(tokens: Seq<Seq<char>>)
    requires
        all_clean(tokens),
        document(tokens) is Ok,
    ensures
        well_nested(document(tokens)->Ok_0),
{
    lemma_vocabulary();
    let inner = tokens.drop_first();
    assert(inner =~= tokens.skip(1));
    lemma_clean_rest(tokens, inner);
    lemma_content_settled(inner);
    let p = content(inner)->Ok_0;
    lemma_settled_pair(tokens[0], p.tree, DOCUMENT_END@);
    let tree = document(tokens)->Ok_0;
    assert(tree + Seq::<Seq<char>>::empty() =~= tree);
    assert(nest(tree + Seq::<Seq<char>>::empty(), Seq::empty()) == nest(
        Seq::<Seq<char>>::empty(),
        Seq::empty(),
    ));
}

/// A symbol that is neither the beginning nor the end of a document.
pub open spec fn interior(symbol: Seq<char>) -> bool {
    symbol != DOCUMENT_BEGIN@ && symbol != DOCUMENT_END@
}

/// No symbol of `part` begins or ends a document.
pub open spec fn all_interior(part: Seq<Seq<char>>) -> bool {
    forall|i: int| 0 <= i < part.len() ==> interior(#[trigger] part[i])
}

proof fn lemma_simple_interior(s: Seq<Seq<char>>, close: Seq<char>)
    requires
        s.len() >= 1,
        all_clean(s),
        interior(close),
    ensures
        interior(s[0]) && text(s) is Ok ==> all_interior(text(s)->Ok_0.tree),
        interior(s[0]) && span(s, close) is Ok ==> all_interior(span(s, close)->Ok_0.tree),
        interior(s[0]) && variable_use(s) is Ok ==> all_interior(variable_use(s)->Ok_0.tree),
        variable_define(s) is Ok ==> all_interior(variable_define(s)->Ok_0.tree),
{
    lemma_vocabulary();
    if s.len() >= 2 && !is_tag(s[1]) {
        lemma_name_is_text(s[1]);
    }
}

proof fn lemma_head_interior(s: Seq<Seq<char>>)
    requires
        s.len() >= 1,
        all_clean(s),
        head(s) is Ok,
    ensures
        all_interior(head(s)->Ok_0.tree),
{
    lemma_vocabulary();
    if s[0] == HEAD_BEGIN@ {
        let t = s.drop_first();
        assert(t =~= s.skip(1));
        lemma_clean_rest(s, t);
        lemma_simple_interior(t, TITLE_END@);
    }
}

proof fn lemma_comment_interior(s: Seq<Seq<char>>)
    requires
        comment(s) is Ok,
    ensures
        all_interior(comment(s)->Ok_0.tree),
    decreases s.len(),
{
    lemma_vocabulary();
    if s.len() > 0 && s[0] == COMMENT_BEGIN@ {
        lemma_comment_interior(s.skip(3));
    }
}

proof fn lemma_inner_list_interior(s: Seq<Seq<char>>)
    requires
        s.len() >= 1,
        all_clean(s),
        inner_list(s) is Ok,
    ensures
        all_interior(inner_list(s)->Ok_0.tree),
{
    lemma_vocabulary();
    lemma_simple_interior(s, BOLD_END@);
    lemma_simple_interior(s, ITALICS_END@);
}

proof fn lemma_list_items_interior(s: Seq<Seq<char>>)
    requires
        all_clean(s),
        list_items(s) is Ok,
    ensures
        all_interior(list_items(s)->Ok_0.tree),
    decreases s.len(),
{
    lemma_vocabulary();
    if s[0] != BLOCK_END@ {
        let t = s.drop_first();
        assert(t =~= s.skip(1));
        lemma_clean_rest(s, t);
        lemma_inner_list_interior(t);
        lemma_simple_leaves(t, BOLD_END@);
        lemma_simple_leaves(t, ITALICS_END@);
        let p = inner_list(t)->Ok_0;
        lemma_clean_rest(t, p.rest);
        let u = p.rest.drop_first();
        assert(u =~= p.rest.skip(1));
        lemma_clean_rest(p.rest, u);
        lemma_list_items_interior(u);
    }
}

proof fn lemma_inner_item_interior(s: Seq<Seq<char>>)
    requires
        s.len() >= 1,
        all_clean(s),
        inner_item(s) is Ok,
    ensures
        all_interior(inner_item(s)->Ok_0.tree),
{
    lemma_vocabulary();
    if s[0] == LIST_BEGIN@ {
        let t = s.drop_first();
        assert(t =~= s.skip(1));
        lemma_clean_rest(s, t);
        lemma_list_items_interior(t);
    } else {
        lemma_simple_interior(s, BOLD_END@);
        lemma_simple_interior(s, ITALICS_END@);
        lemma_simple_interior(s, AUDIO_END@);
        lemma_simple_interior(s, VIDEO_END@);
    }
}

proof fn lemma_inner_paragraph_interior(s: Seq<Seq<char>>)
    requires
        all_clean(s),
        inner_paragraph(s) is Ok,
    ensures
        all_interior(inner_paragraph(s)->Ok_0.tree),
    decreases s.len(),
{
    lemma_vocabulary();
    if s[0] != BLOCK_END@ {
        lemma_inner_item_interior(s);
        lemma_inner_item_leaves(s);
        let p = inner_item(s)->Ok_0;
        lemma_clean_rest(s, p.rest);
        lemma_inner_paragraph_interior(p.rest);
    }
}

proof fn lemma_body_item_interior(s: Seq<Seq<char>>)
    requires
        s.len() >= 1,
        all_clean(s),
        body_item(s) is Ok,
    ensures
        all_interior(body_item(s)->Ok_0.tree),
{
    lemma_vocabulary();
    if !is_tag(s[0]) {
        lemma_simple_interior(s, BOLD_END@);
    } else if s[0] == LIST_BEGIN@ {
        lemma_inner_item_interior(s);
    } else if s[0] == PARAGRAPH_BEGIN@ {
        let t = s.drop_first();
        assert(t =~= s.skip(1));
        lemma_clean_rest(s, t);
        if t[0] == VARIABLE_BEGIN@ {
            lemma_simple_interior(t, SPAN_END@);
        }
        lemma_simple_leaves(t, SPAN_END@);
        let p = variable_define(t)->Ok_0;
        lemma_clean_rest(t, p.rest);
        lemma_inner_paragraph_interior(p.rest);
    } else if s[0] == COMMENT_BEGIN@ {
        lemma_comment_interior(s);
    } else {
        lemma_simple_interior(s, BOLD_END@);
        lemma_simple_interior(s, ITALICS_END@);
        lemma_simple_interior(s, AUDIO_END@);
        lemma_simple_interior(s, VIDEO_END@);
    }
}

proof fn lemma_body_interior(s: Seq<Seq<char>>)
    requires
        all_clean(s),
        body(s) is Ok,
    ensures
        all_interior(body(s)->Ok_0.tree),
    decreases s.len(),
{
    if s[0] != DOCUMENT_END@ {
        lemma_body_item_interior(s);
        lemma_body_item_leaves(s);
        let p = body_item(s)->Ok_0;
        lemma_clean_rest(s, p.rest);
        lemma_body_interior(p.rest);
    }
}

/// The parse sequence of a document begins with `#HAI` and ends with
/// `#KTHXBYE`, and neither stands anywhere else in it: the document is
/// opened once, first, and closed once, last.
pub proof fn lemma_document_frame(tokens: Seq<Seq<char>>)
    requires
        all_clean(tokens),
        document(tokens) is Ok,
    ensures
        document(tokens)->Ok_0.len() >= 2,
        document(tokens)->Ok_0.first() == DOCUMENT_BEGIN@,
        document(tokens)->Ok_0.last() == DOCUMENT_END@,
        all_interior(document(tokens)->Ok_0.subrange(1, document(tokens)->Ok_0.len() - 1)),
{
    let inner = tokens.drop_first();
    assert(inner =~= tokens.skip(1));
    lemma_clean_rest(tokens, inner);
    lemma_comment_interior(inner);
    lemma_comment_leaves(inner);
    let c = comment(inner)->Ok_0;
    lemma_clean_rest(inner, c.rest);
    lemma_head_interior(c.rest);
    lemma_simple_leaves(c.rest, HEAD_END@);
    let h = head(c.rest)->Ok_0;
    lemma_clean_rest(c.rest, h.rest);
    lemma_body_interior(h.rest);
    let b = body(h.rest)->Ok_0;
    let tree = document(tokens)->Ok_0;
    assert(tree.subrange(1, tree.len() - 1) =~= c.tree + h.tree + b.tree);
}

} // verus!
