//! The parse sequence of a document can be read to its end, and its
//! paragraphs start with an empty scope.
//!
//! The semantic analyzer reads a variable definition as five symbols, a
//! variable use as three, and any other symbol alone. A sequence as the
//! syntax analyzer builds it is made of such groups and closes with
//! `#KTHXBYE`, so that reading it neither runs out of symbols nor stops
//! early; the one fault left is a variable that is not defined. In such
//! a sequence no paragraph opens inside another, so that every paragraph
//! finds the paragraph's scope empty.

use vstd::prelude::*;
use crate::error::Fault;
use crate::grammar::{
    body, body_item, comment, content, document, head, inner_item, inner_list, inner_paragraph,
    lemma_body_item_leaves, lemma_comment_leaves, lemma_inner_item_leaves, lemma_simple_leaves,
    list, list_items, paragraph, span, text, title, variable_define, variable_use,
};
use crate::keywords::{
    lemma_vocabulary, AUDIO_END, BLOCK_END, BOLD_END, COMMENT_BEGIN, DOCUMENT_END, HEAD_BEGIN,
    HEAD_END, ITALICS_END, ITEM_END, LIST_BEGIN, LIST_END, PARAGRAPH_BEGIN, PARAGRAPH_END, SPAN_END,
    TITLE_END, VARIABLE_BEGIN, VARIABLE_USE, VIDEO_END,
};
use crate::scope::Bindings;
use crate::semantics::{markup_of, past, render};
use crate::text::is_tag;

verus! {

/// A symbol that is read alone and does not end the document; with
/// `inline`, one that neither opens nor closes a paragraph either.
pub open spec fn single(symbol: Seq<char>, inline: bool) -> bool {
    &&& symbol != DOCUMENT_END@
    &&& symbol != VARIABLE_BEGIN@
    &&& symbol != VARIABLE_USE@
    &&& inline ==> symbol != PARAGRAPH_BEGIN@ && symbol != PARAGRAPH_END@
}

/// Whether `part` is made of whole groups: five symbols from `#I HAZ`
/// on, three from `#LEMME SEE` on, and single symbols.
pub open spec fn in_groups(part: Seq<Seq<char>>, inline: bool) -> bool
    decreases part.len(),
{
    if part.len() == 0 {
        true
    } else if part[0] == VARIABLE_BEGIN@ {
        part.len() >= 5 && in_groups(part.skip(5), inline)
    } else if part[0] == VARIABLE_USE@ {
        part.len() >= 3 && in_groups(part.skip(3), inline)
    } else {
        single(part[0], inline) && in_groups(part.drop_first(), inline)
    }
}

/// A fault that reading a sequence in groups can meet.
pub open spec fn undefined_variable(fault: Fault) -> bool {
    fault is UndefinedVariable
}

/// The bindings in force behind `part`, read in groups with `bindings`
/// in force before it.
pub open spec fn reached(part: Seq<Seq<char>>, bindings: Bindings) -> Bindings
    decreases part.len(),
{
    if part.len() == 0 {
        bindings
    } else if part[0] == VARIABLE_BEGIN@ {
        if part.len() >= 5 {
            reached(part.skip(5), bindings.define(part[1], part[3]))
        } else {
            bindings
        }
    } else if part[0] == VARIABLE_USE@ {
        if part.len() >= 3 {
            reached(part.skip(3), bindings)
        } else {
            bindings
        }
    } else {
        reached(part.drop_first(), past(part[0], bindings))
    }
}

/// Whether every paragraph that opens in `part`, read in groups with
/// `bindings` in force before it, finds the paragraph's scope empty.
pub open spec fn fresh(part: Seq<Seq<char>>, bindings: Bindings) -> bool
    decreases part.len(),
{
    if part.len() == 0 {
        true
    } else if part[0] == VARIABLE_BEGIN@ {
        part.len() >= 5 ==> fresh(part.skip(5), bindings.define(part[1], part[3]))
    } else if part[0] == VARIABLE_USE@ {
        part.len() >= 3 ==> fresh(part.skip(3), bindings)
    } else {
        &&& part[0] == PARAGRAPH_BEGIN@ ==> bindings.paragraph == Map::<
            Seq<char>,
            Seq<char>,
        >::empty()
        &&& fresh(part.drop_first(), past(part[0], bindings))
    }
}

/// Whether no paragraph opens inside another in `part`, read in groups,
/// `inside` telling whether one is open before it.
pub open spec fn flat(part: Seq<Seq<char>>, inside: bool) -> bool
    decreases part.len(),
{
    if part.len() == 0 {
        true
    } else if part[0] == VARIABLE_BEGIN@ {
        part.len() >= 5 ==> flat(part.skip(5), inside)
    } else if part[0] == VARIABLE_USE@ {
        part.len() >= 3 ==> flat(part.skip(3), inside)
    } else if part[0] == PARAGRAPH_BEGIN@ {
        !inside && flat(part.drop_first(), true)
    } else if part[0] == PARAGRAPH_END@ {
        flat(part.drop_first(), false)
    } else {
        flat(part.drop_first(), inside)
    }
}

/// A part at the level of the body: it opens and closes its own
/// paragraphs, so that what follows it is again outside any paragraph.
pub open spec fn level(part: Seq<Seq<char>>) -> bool {
    forall|rest: Seq<Seq<char>>| #[trigger] flat(part + rest, false) == flat(rest, false)
}

proof fn lemma_groups_concat(a: Seq<Seq<char>>, b: Seq<Seq<char>>, inline: bool)
    requires
        in_groups(a, inline),
        in_groups(b, inline),
    ensures
        in_groups(a + b, inline),
    decreases a.len(),
{
    if a.len() == 0 {
        assert(a + b =~= b);
    } else if a[0] == VARIABLE_BEGIN@ {
        lemma_groups_concat(a.skip(5), b, inline);
        assert((a + b).skip(5) =~= a.skip(5) + b);
    } else if a[0] == VARIABLE_USE@ {
        lemma_groups_concat(a.skip(3), b, inline);
        assert((a + b).skip(3) =~= a.skip(3) + b);
    } else {
        lemma_groups_concat(a.drop_first(), b, inline);
        assert((a + b).drop_first() =~= a.drop_first() + b);
    }
}

/// Groups that stay clear of paragraphs are groups all the same.
proof fn lemma_groups_any(part: Seq<Seq<char>>)
    requires
        in_groups(part, true),
    ensures
        in_groups(part, false),
    decreases part.len(),
{
    if part.len() == 0 {
    } else if part[0] == VARIABLE_BEGIN@ {
        lemma_groups_any(part.skip(5));
    } else if part[0] == VARIABLE_USE@ {
        lemma_groups_any(part.skip(3));
    } else {
        lemma_groups_any(part.drop_first());
    }
}

proof fn lemma_groups_single(symbol: Seq<char>, inline: bool)
    requires
        single(symbol, inline),
    ensures
        in_groups(seq![symbol], inline),
{
    assert(in_groups(Seq::<Seq<char>>::empty(), inline));
    assert(seq![symbol].drop_first() =~= Seq::<Seq<char>>::empty());
}

/// Three single symbols in a row.
proof fn lemma_groups_three(a: Seq<char>, b: Seq<char>, c: Seq<char>, inline: bool)
    requires
        single(a, inline),
        single(b, inline),
        single(c, inline),
    ensures
        in_groups(seq![a, b, c], inline),
{
    lemma_groups_single(a, inline);
    lemma_groups_single(b, inline);
    lemma_groups_single(c, inline);
    lemma_groups_concat(seq![a], seq![b], inline);
    lemma_groups_concat(seq![a] + seq![b], seq![c], inline);
    assert(seq![a, b, c] =~= seq![a] + seq![b] + seq![c]);
}

/// What is not a tag is read alone.
proof fn lemma_text_single(symbol: Seq<char>)
    requires
        !is_tag(symbol),
    ensures
        single(symbol, true),
        single(symbol, false),
{
    lemma_vocabulary();
}

proof fn lemma_simple_groups(s: Seq<Seq<char>>, close: Seq<char>, inline: bool)
    requires
        s.len() >= 1,
        single(close, inline),
    ensures
        single(s[0], inline) && text(s) is Ok ==> in_groups(text(s)->Ok_0.tree, inline),
        single(s[0], inline) && span(s, close) is Ok ==> in_groups(
            span(s, close)->Ok_0.tree,
            inline,
        ),
        s[0] == VARIABLE_USE@ && variable_use(s) is Ok ==> in_groups(
            variable_use(s)->Ok_0.tree,
            inline,
        ),
        variable_define(s) is Ok ==> in_groups(variable_define(s)->Ok_0.tree, inline),
{
    lemma_vocabulary();
    assert(in_groups(Seq::<Seq<char>>::empty(), inline));
    if single(s[0], inline) && text(s) is Ok {
        lemma_groups_single(s[0], inline);
        assert(text(s)->Ok_0.tree =~= seq![s[0]]);
    }
    if single(s[0], inline) && span(s, close) is Ok {
        lemma_text_single(s[1]);
        lemma_groups_three(s[0], s[1], close, inline);
    }
    if s[0] == VARIABLE_USE@ && variable_use(s) is Ok {
        let tree = variable_use(s)->Ok_0.tree;
        assert(tree.skip(3) =~= Seq::<Seq<char>>::empty());
    }
    if variable_define(s) is Ok && s[0] == VARIABLE_BEGIN@ {
        let tree = variable_define(s)->Ok_0.tree;
        assert(tree.skip(5) =~= Seq::<Seq<char>>::empty());
    }
}

proof fn lemma_head_groups(s: Seq<Seq<char>>, inline: bool)
    requires
        s.len() >= 1,
        head(s) is Ok,
    ensures
        in_groups(head(s)->Ok_0.tree, inline),
{
    lemma_vocabulary();
    if s[0] == HEAD_BEGIN@ {
        let t = s.drop_first();
        lemma_simple_groups(t, TITLE_END@, inline);
        let p = title(t)->Ok_0;
        lemma_groups_single(s[0], inline);
        lemma_groups_single(HEAD_END@, inline);
        lemma_groups_concat(seq![s[0]], p.tree, inline);
        lemma_groups_concat(seq![s[0]] + p.tree, seq![HEAD_END@], inline);
        assert(head(s)->Ok_0.tree =~= seq![s[0]] + p.tree + seq![HEAD_END@]);
    }
}

proof fn lemma_comment_groups(s: Seq<Seq<char>>, inline: bool)
    requires
        comment(s) is Ok,
    ensures
        in_groups(comment(s)->Ok_0.tree, inline),
    decreases s.len(),
{
    lemma_vocabulary();
    if s.len() > 0 && s[0] == COMMENT_BEGIN@ {
        lemma_text_single(s[1]);
        lemma_groups_three(s[0], s[1], s[2], inline);
        lemma_comment_groups(s.skip(3), inline);
        lemma_groups_concat(seq![s[0], s[1], s[2]], comment(s.skip(3))->Ok_0.tree, inline);
    }
}

proof fn lemma_inner_list_groups(s: Seq<Seq<char>>, inline: bool)
    requires
        s.len() >= 1,
        inner_list(s) is Ok,
    ensures
        in_groups(inner_list(s)->Ok_0.tree, inline),
{
    lemma_vocabulary();
    if !is_tag(s[0]) {
        lemma_text_single(s[0]);
    }
    lemma_simple_groups(s, BOLD_END@, inline);
    lemma_simple_groups(s, ITALICS_END@, inline);
}

proof fn lemma_list_items_groups(s: Seq<Seq<char>>, inline: bool)
    requires
        list_items(s) is Ok,
    ensures
        in_groups(list_items(s)->Ok_0.tree, inline),
    decreases s.len(),
{
    lemma_vocabulary();
    if s[0] == BLOCK_END@ {
        lemma_groups_single(LIST_END@, inline);
        assert(list_items(s)->Ok_0.tree =~= seq![LIST_END@]);
    } else {
        let t = s.drop_first();
        lemma_inner_list_groups(t, inline);
        lemma_simple_leaves(t, BOLD_END@);
        lemma_simple_leaves(t, ITALICS_END@);
        let p = inner_list(t)->Ok_0;
        let u = p.rest.drop_first();
        lemma_list_items_groups(u, inline);
        lemma_groups_single(s[0], inline);
        lemma_groups_single(ITEM_END@, inline);
        lemma_groups_concat(seq![s[0]], p.tree, inline);
        lemma_groups_concat(seq![s[0]] + p.tree, seq![ITEM_END@], inline);
        lemma_groups_concat(
            seq![s[0]] + p.tree + seq![ITEM_END@],
            list_items(u)->Ok_0.tree,
            inline,
        );
    }
}

proof fn lemma_list_groups(s: Seq<Seq<char>>, inline: bool)
    requires
        s.len() >= 1,
        s[0] == LIST_BEGIN@,
        list(s) is Ok,
    ensures
        in_groups(list(s)->Ok_0.tree, inline),
{
    lemma_vocabulary();
    lemma_groups_single(s[0], inline);
    lemma_list_items_groups(s.drop_first(), inline);
    lemma_groups_concat(seq![s[0]], list_items(s.drop_first())->Ok_0.tree, inline);
}

proof fn lemma_inner_item_groups(s: Seq<Seq<char>>, inline: bool)
    requires
        s.len() >= 1,
        inner_item(s) is Ok,
    ensures
        in_groups(inner_item(s)->Ok_0.tree, inline),
{
    lemma_vocabulary();
    if !is_tag(s[0]) {
        lemma_text_single(s[0]);
        lemma_simple_groups(s, BOLD_END@, inline);
    } else if s[0] == LIST_BEGIN@ {
        lemma_list_groups(s, inline);
    } else {
        lemma_simple_groups(s, BOLD_END@, inline);
        lemma_simple_groups(s, ITALICS_END@, inline);
        lemma_simple_groups(s, AUDIO_END@, inline);
        lemma_simple_groups(s, VIDEO_END@, inline);
    }
}

/// The inside of a paragraph stays clear of paragraphs up to the marker
/// that closes it.
proof fn lemma_inner_paragraph_groups(s: Seq<Seq<char>>)
    requires
        inner_paragraph(s) is Ok,
    ensures
        inner_paragraph(s)->Ok_0.tree.len() > 0,
        inner_paragraph(s)->Ok_0.tree.last() == PARAGRAPH_END@,
        in_groups(inner_paragraph(s)->Ok_0.tree.drop_last(), true),
    decreases s.len(),
{
    lemma_vocabulary();
    let tree = inner_paragraph(s)->Ok_0.tree;
    if s[0] == BLOCK_END@ {
        assert(tree =~= seq![PARAGRAPH_END@]);
        assert(tree.drop_last() =~= Seq::<Seq<char>>::empty());
    } else {
        lemma_inner_item_groups(s, true);
        lemma_inner_item_leaves(s);
        let p = inner_item(s)->Ok_0;
        lemma_inner_paragraph_groups(p.rest);
        let more = inner_paragraph(p.rest)->Ok_0.tree;
        lemma_groups_concat(p.tree, more.drop_last(), true);
        assert(tree.drop_last() =~= p.tree + more.drop_last());
    }
}

/// A paragraph: the marker that opens it, groups that stay clear of
/// paragraphs, the marker that closes it.
proof fn lemma_paragraph_groups(s: Seq<Seq<char>>)
    requires
        s.len() >= 1,
        s[0] == PARAGRAPH_BEGIN@,
        paragraph(s) is Ok,
    ensures
        paragraph(s)->Ok_0.tree.len() >= 2,
        paragraph(s)->Ok_0.tree[0] == PARAGRAPH_BEGIN@,
        paragraph(s)->Ok_0.tree.last() == PARAGRAPH_END@,
        in_groups(paragraph(s)->Ok_0.tree.subrange(1, paragraph(s)->Ok_0.tree.len() - 1), true),
{
    lemma_vocabulary();
    let t = s.drop_first();
    lemma_simple_groups(t, SPAN_END@, true);
    let p = variable_define(t)->Ok_0;
    lemma_inner_paragraph_groups(p.rest);
    let q = inner_paragraph(p.rest)->Ok_0;
    lemma_groups_concat(p.tree, q.tree.drop_last(), true);
    let tree = paragraph(s)->Ok_0.tree;
    assert(tree.subrange(1, tree.len() - 1) =~= p.tree + q.tree.drop_last());
}

/// A sequence between the markers of a paragraph, with the markers, is
/// made of groups.
proof fn lemma_groups_paragraph(inner: Seq<Seq<char>>)
    requires
        in_groups(inner, true),
    ensures
        in_groups(seq![PARAGRAPH_BEGIN@] + inner + seq![PARAGRAPH_END@], false),
{
    lemma_vocabulary();
    lemma_groups_any(inner);
    lemma_groups_single(PARAGRAPH_BEGIN@, false);
    lemma_groups_single(PARAGRAPH_END@, false);
    lemma_groups_concat(seq![PARAGRAPH_BEGIN@], inner, false);
    lemma_groups_concat(seq![PARAGRAPH_BEGIN@] + inner, seq![PARAGRAPH_END@], false);
}

/// Groups that stay clear of paragraphs neither open nor close one.
proof fn lemma_inline_flat(part: Seq<Seq<char>>, rest: Seq<Seq<char>>, inside: bool)
    requires
        in_groups(part, true),
    ensures
        flat(part + rest, inside) == flat(rest, inside),
    decreases part.len(),
{
    if part.len() == 0 {
        assert(part + rest =~= rest);
    } else if part[0] == VARIABLE_BEGIN@ {
        lemma_inline_flat(part.skip(5), rest, inside);
        assert((part + rest).skip(5) =~= part.skip(5) + rest);
    } else if part[0] == VARIABLE_USE@ {
        lemma_inline_flat(part.skip(3), rest, inside);
        assert((part + rest).skip(3) =~= part.skip(3) + rest);
    } else {
        lemma_inline_flat(part.drop_first(), rest, inside);
        assert((part + rest).drop_first() =~= part.drop_first() + rest);
    }
}

proof fn lemma_inline_level(part: Seq<Seq<char>>)
    requires
        in_groups(part, true),
    ensures
        level(part),
{
    assert forall|rest: Seq<Seq<char>>| #[trigger]
        flat(part + rest, false) == flat(rest, false) by {
        lemma_inline_flat(part, rest, false);
    }
}

/// A whole paragraph is at the level of the body.
proof fn lemma_paragraph_level(inner: Seq<Seq<char>>)
    requires
        in_groups(inner, true),
    ensures
        level(seq![PARAGRAPH_BEGIN@] + inner + seq![PARAGRAPH_END@]),
{
    lemma_vocabulary();
    let whole = seq![PARAGRAPH_BEGIN@] + inner + seq![PARAGRAPH_END@];
    assert forall|rest: Seq<Seq<char>>| #[trigger]
        flat(whole + rest, false) == flat(rest, false) by {
        assert((whole + rest).drop_first() =~= inner + (seq![PARAGRAPH_END@] + rest));
        lemma_inline_flat(inner, seq![PARAGRAPH_END@] + rest, true);
        assert((seq![PARAGRAPH_END@] + rest).drop_first() =~= rest);
    }
}

proof fn lemma_level_concat(a: Seq<Seq<char>>, b: Seq<Seq<char>>)
    requires
        level(a),
        level(b),
    ensures
        level(a + b),
{
    assert forall|rest: Seq<Seq<char>>| #[trigger]
        flat((a + b) + rest, false) == flat(rest, false) by {
        assert((a + b) + rest =~= a + (b + rest));
        assert(flat(a + (b + rest), false) == flat(b + rest, false));
    }
}

/// A construct of the body is made of groups and is at the level of the body.
proof fn lemma_body_item_groups(s: Seq<Seq<char>>)
    requires
        s.len() >= 1,
        body_item(s) is Ok,
    ensures
        in_groups(body_item(s)->Ok_0.tree, false),
        level(body_item(s)->Ok_0.tree),
{
    lemma_vocabulary();
    let tree = body_item(s)->Ok_0.tree;
    if s[0] == PARAGRAPH_BEGIN@ && is_tag(s[0]) {
        lemma_paragraph_groups(s);
        let inner = tree.subrange(1, tree.len() - 1);
        assert(tree =~= seq![PARAGRAPH_BEGIN@] + inner + seq![PARAGRAPH_END@]);
        lemma_groups_paragraph(inner);
        lemma_paragraph_level(inner);
    } else {
        if !is_tag(s[0]) {
            lemma_text_single(s[0]);
            lemma_simple_groups(s, BOLD_END@, true);
        } else if s[0] == LIST_BEGIN@ {
            lemma_list_groups(s, true);
        } else if s[0] == COMMENT_BEGIN@ {
            lemma_comment_groups(s, true);
        } else {
            lemma_simple_groups(s, BOLD_END@, true);
            lemma_simple_groups(s, ITALICS_END@, true);
            lemma_simple_groups(s, AUDIO_END@, true);
            lemma_simple_groups(s, VIDEO_END@, true);
        }
        lemma_groups_any(tree);
        lemma_inline_level(tree);
    }
}

proof fn lemma_body_groups(s: Seq<Seq<char>>)
    requires
        body(s) is Ok,
    ensures
        in_groups(body(s)->Ok_0.tree, false),
        level(body(s)->Ok_0.tree),
    decreases s.len(),
{
    if s[0] != DOCUMENT_END@ {
        lemma_body_item_groups(s);
        lemma_body_item_leaves(s);
        let p = body_item(s)->Ok_0;
        lemma_body_groups(p.rest);
        lemma_groups_concat(p.tree, body(p.rest)->Ok_0.tree, false);
        lemma_level_concat(p.tree, body(p.rest)->Ok_0.tree);
    } else {
        lemma_inline_level(Seq::<Seq<char>>::empty());
    }
}

proof fn lemma_content_groups(s: Seq<Seq<char>>)
    requires
        s.len() >= 1,
        content(s) is Ok,
    ensures
        in_groups(content(s)->Ok_0.tree, false),
        level(content(s)->Ok_0.tree),
{
    lemma_comment_groups(s, true);
    lemma_comment_leaves(s);
    let c = comment(s)->Ok_0;
    lemma_head_groups(c.rest, true);
    lemma_simple_leaves(c.rest, HEAD_END@);
    let h = head(c.rest)->Ok_0;
    lemma_body_groups(h.rest);
    lemma_groups_any(c.tree);
    lemma_groups_any(h.tree);
    lemma_inline_level(c.tree);
    lemma_inline_level(h.tree);
    lemma_groups_concat(c.tree, h.tree, false);
    lemma_groups_concat(c.tree + h.tree, body(h.rest)->Ok_0.tree, false);
    lemma_level_concat(c.tree, h.tree);
    lemma_level_concat(c.tree + h.tree, body(h.rest)->Ok_0.tree);
}

/// A sequence in groups, closed by `#KTHXBYE`, is read to its end unless
/// a variable is not defined.
pub proof fn lemma_groups_render(part: Seq<Seq<char>>, bindings: Bindings)
    requires
        in_groups(part, false),
    ensures
        render(part + seq![DOCUMENT_END@], bindings) is Err ==> undefined_variable(
            render(part + seq![DOCUMENT_END@], bindings)->Err_0,
        ),
    decreases part.len(),
{
    lemma_vocabulary();
    let t = part + seq![DOCUMENT_END@];
    if part.len() == 0 {
    } else if part[0] == VARIABLE_BEGIN@ {
        assert(t.skip(5) =~= part.skip(5) + seq![DOCUMENT_END@]);
        lemma_groups_render(part.skip(5), bindings.define(t[1], t[3]));
    } else if part[0] == VARIABLE_USE@ {
        assert(t.skip(3) =~= part.skip(3) + seq![DOCUMENT_END@]);
        lemma_groups_render(part.skip(3), bindings);
    } else {
        assert(t.drop_first() =~= part.drop_first() + seq![DOCUMENT_END@]);
        lemma_groups_render(part.drop_first(), past(t[0], bindings));
    }
}

/// The parse sequence of a document has its markup, unless it uses a
/// variable that is not defined: the semantic analyzer finds no other
/// fault in what the syntax analyzer has accepted.
pub proof fn lemma_document_renders(tokens: Seq<Seq<char>>)
    requires
        document(tokens) is Ok,
    ensures
        markup_of(document(tokens)->Ok_0) is Err ==> undefined_variable(
            markup_of(document(tokens)->Ok_0)->Err_0,
        ),
{
    lemma_vocabulary();
    let inner = tokens.drop_first();
    lemma_content_groups(inner);
    let p = content(inner)->Ok_0;
    lemma_groups_single(tokens[0], false);
    lemma_groups_concat(seq![tokens[0]], p.tree, false);
    lemma_groups_render(seq![tokens[0]] + p.tree, Bindings::start());
}

/// What follows a part in groups is read with the bindings reached
/// behind the part, and its markup ends the markup of the whole.
pub proof fn lemma_render_reaches(part: Seq<Seq<char>>, rest: Seq<Seq<char>>, bindings: Bindings)
    requires
        in_groups(part, false),
        rest.len() > 0,
        render(part + rest, bindings) is Ok,
    ensures
        render(rest, reached(part, bindings)) is Ok,
        render(rest, reached(part, bindings))->Ok_0.is_suffix_of(
            render(part + rest, bindings)->Ok_0,
        ),
    decreases part.len(),
{
    lemma_vocabulary();
    let t = part + rest;
    let whole = render(t, bindings)->Ok_0;
    if part.len() == 0 {
        assert(t =~= rest);
        assert(whole.subrange(0, whole.len() as int) =~= whole);
    } else if part[0] == VARIABLE_BEGIN@ {
        assert(t.skip(5) =~= part.skip(5) + rest);
        lemma_render_reaches(part.skip(5), rest, bindings.define(part[1], part[3]));
    } else if part[0] == VARIABLE_USE@ {
        assert(t.skip(3) =~= part.skip(3) + rest);
        lemma_render_reaches(part.skip(3), rest, bindings);
        let later = render(t.skip(3), bindings)->Ok_0;
        let last = render(rest, reached(part, bindings))->Ok_0;
        assert(last =~= whole.subrange(whole.len() - last.len(), whole.len() as int)) by {
            assert(last =~= later.subrange(later.len() - last.len(), later.len() as int));
            assert(later =~= whole.subrange(whole.len() - later.len(), whole.len() as int));
        }
    } else {
        assert(t.drop_first() =~= part.drop_first() + rest);
        lemma_render_reaches(part.drop_first(), rest, past(part[0], bindings));
        let later = render(t.drop_first(), past(part[0], bindings))->Ok_0;
        let last = render(rest, reached(part, bindings))->Ok_0;
        assert(last =~= whole.subrange(whole.len() - last.len(), whole.len() as int)) by {
            assert(last =~= later.subrange(later.len() - last.len(), later.len() as int));
            assert(later =~= whole.subrange(whole.len() - later.len(), whole.len() as int));
        }
    }
}

/// Outside a paragraph no paragraph binding is kept, whatever was read.
pub proof fn lemma_reached_tidy(part: Seq<Seq<char>>, bindings: Bindings)
    requires
        bindings.tidy(),
    ensures
        reached(part, bindings).tidy(),
    decreases part.len(),
{
    if part.len() == 0 {
    } else if part[0] == VARIABLE_BEGIN@ {
        if part.len() >= 5 {
            lemma_reached_tidy(part.skip(5), bindings.define(part[1], part[3]));
        }
    } else if part[0] == VARIABLE_USE@ {
        if part.len() >= 3 {
            lemma_reached_tidy(part.skip(3), bindings);
        }
    } else {
        lemma_reached_tidy(part.drop_first(), past(part[0], bindings));
    }
}

/// The body's scope never shrinks: a name bound in it stays bound in it,
/// whatever is read and however many paragraphs open and close.
pub proof fn lemma_body_scope_grows(part: Seq<Seq<char>>, bindings: Bindings, name: Seq<char>)
    requires
        bindings.body.contains_key(name),
    ensures
        reached(part, bindings).body.contains_key(name),
    decreases part.len(),
{
    if part.len() == 0 {
    } else if part[0] == VARIABLE_BEGIN@ {
        if part.len() >= 5 {
            lemma_body_scope_grows(part.skip(5), bindings.define(part[1], part[3]), name);
        }
    } else if part[0] == VARIABLE_USE@ {
        if part.len() >= 3 {
            lemma_body_scope_grows(part.skip(3), bindings, name);
        }
    } else {
        lemma_body_scope_grows(part.drop_first(), past(part[0], bindings), name);
    }
}

/// Closing a paragraph puts nothing into the body's scope: with no
/// definition outside a paragraph in `part`, which stays clear of
/// paragraph markers, the body's scope behind it is the one before it.
pub proof fn lemma_paragraph_merges_nothing(part: Seq<Seq<char>>, bindings: Bindings)
    requires
        bindings.in_paragraph,
        in_groups(part, true),
    ensures
        reached(part, bindings).in_paragraph,
        reached(part, bindings).body == bindings.body,
        reached(part + seq![PARAGRAPH_END@], bindings).body == bindings.body,
        reached(part + seq![PARAGRAPH_END@], bindings).paragraph == Map::<
            Seq<char>,
            Seq<char>,
        >::empty(),
        !reached(part + seq![PARAGRAPH_END@], bindings).in_paragraph,
    decreases part.len(),
{
    lemma_vocabulary();
    let closed = part + seq![PARAGRAPH_END@];
    if part.len() == 0 {
        assert(closed.drop_first() =~= Seq::<Seq<char>>::empty());
        assert(reached(closed.drop_first(), bindings.leave_paragraph())
            == bindings.leave_paragraph());
    } else if part[0] == VARIABLE_BEGIN@ {
        lemma_paragraph_merges_nothing(part.skip(5), bindings.define(part[1], part[3]));
        assert(closed.skip(5) =~= part.skip(5) + seq![PARAGRAPH_END@]);
    } else if part[0] == VARIABLE_USE@ {
        lemma_paragraph_merges_nothing(part.skip(3), bindings);
        assert(closed.skip(3) =~= part.skip(3) + seq![PARAGRAPH_END@]);
    } else {
        lemma_paragraph_merges_nothing(part.drop_first(), past(part[0], bindings));
        assert(closed.drop_first() =~= part.drop_first() + seq![PARAGRAPH_END@]);
    }
}

/// Where no paragraph opens inside another, every paragraph finds the
/// paragraph's scope empty.
pub proof fn lemma_flat_fresh(part: Seq<Seq<char>>, bindings: Bindings)
    requires
        bindings.tidy(),
        flat(part, bindings.in_paragraph),
    ensures
        fresh(part, bindings),
    decreases part.len(),
{
    if part.len() == 0 {
    } else if part[0] == VARIABLE_BEGIN@ {
        if part.len() >= 5 {
            lemma_flat_fresh(part.skip(5), bindings.define(part[1], part[3]));
        }
    } else if part[0] == VARIABLE_USE@ {
        if part.len() >= 3 {
            lemma_flat_fresh(part.skip(3), bindings);
        }
    } else {
        lemma_flat_fresh(part.drop_first(), past(part[0], bindings));
    }
}

/// In the parse sequence of a document every paragraph, however many
/// came before it, starts with an empty scope of its own: what earlier
/// paragraphs defined is gone.
pub proof fn lemma_document_paragraphs_fresh(tokens: Seq<Seq<char>>)
    requires
        document(tokens) is Ok,
    ensures
        flat(document(tokens)->Ok_0, false),
        fresh(document(tokens)->Ok_0, Bindings::start()),
{
    lemma_vocabulary();
    let inner = tokens.drop_first();
    lemma_content_groups(inner);
    let p = content(inner)->Ok_0;
    let tree = document(tokens)->Ok_0;
    let end = seq![DOCUMENT_END@];
    assert(tree.drop_first() =~= p.tree + end);
    assert(flat(p.tree + end, false) == flat(end, false));
    assert(end.drop_first() =~= Seq::<Seq<char>>::empty());
    assert(flat(Seq::<Seq<char>>::empty(), false));
    assert(flat(end, false));
    lemma_flat_fresh(tree, Bindings::start());
}

} // verus!
