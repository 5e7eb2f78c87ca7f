//! The keyword table and the markers that the syntax analyzer synthesizes.

use vstd::prelude::*;
use vstd::string::*;
use crate::text::{is_tag, reads};

verus! {

pub const DOCUMENT_BEGIN: &'static str = "#HAI";

pub const DOCUMENT_END: &'static str = "#KTHXBYE";

pub const COMMENT_BEGIN: &'static str = "#OBTW";

pub const COMMENT_END: &'static str = "#TLDR";

pub const HEAD_BEGIN: &'static str = "#MAEK HEAD";

/// Closes a head, a paragraph or a list.
pub const BLOCK_END: &'static str = "#OIC";

pub const TITLE_BEGIN: &'static str = "#GIMMEH TITLE";

/// Closes a title, a span, a list item, a media source or a variable construct.
pub const SPAN_END: &'static str = "#MKAY";

pub const PARAGRAPH_BEGIN: &'static str = "#MAEK PARAGRAF";

pub const BOLD_BEGIN: &'static str = "#GIMMEH BOLD";

pub const ITALICS_BEGIN: &'static str = "#GIMMEH ITALICS";

pub const LIST_BEGIN: &'static str = "#MAEK LIST";

pub const ITEM_BEGIN: &'static str = "#GIMMEH ITEM";

pub const NEWLINE: &'static str = "#GIMMEH NEWLINE";

pub const AUDIO_BEGIN: &'static str = "#GIMMEH SOUNDZ";

pub const VIDEO_BEGIN: &'static str = "#GIMMEH VIDZ";

pub const VARIABLE_BEGIN: &'static str = "#I HAZ";

pub const VARIABLE_MIDDLE: &'static str = "#IT IZ";

pub const VARIABLE_USE: &'static str = "#LEMME SEE";

pub const HEAD_END: &'static str = "#HEAD END";

pub const TITLE_END: &'static str = "#TITLE END";

pub const PARAGRAPH_END: &'static str = "#PARAGRAPH END";

pub const BOLD_END: &'static str = "#BOLD END";

pub const ITALICS_END: &'static str = "#ITALICS END";

pub const LIST_END: &'static str = "#LIST END";

pub const ITEM_END: &'static str = "#LIST ITEM END";

pub const AUDIO_END: &'static str = "#AUDIO END";

pub const VIDEO_END: &'static str = "#VIDEO END";

pub const VARIABLE_INIT_END: &'static str = "#VARIABLE INIT END";

pub const VARIABLE_USE_END: &'static str = "#VARIABLE USE END";

/// Membership in the keyword table: the tags that may appear in a source.
pub open spec fn is_keyword(s: Seq<char>) -> bool {
    ||| s == DOCUMENT_BEGIN@
    ||| s == DOCUMENT_END@
    ||| s == COMMENT_BEGIN@
    ||| s == COMMENT_END@
    ||| s == HEAD_BEGIN@
    ||| s == BLOCK_END@
    ||| s == TITLE_BEGIN@
    ||| s == SPAN_END@
    ||| s == PARAGRAPH_BEGIN@
    ||| s == BOLD_BEGIN@
    ||| s == ITALICS_BEGIN@
    ||| s == LIST_BEGIN@
    ||| s == ITEM_BEGIN@
    ||| s == NEWLINE@
    ||| s == AUDIO_BEGIN@
    ||| s == VIDEO_BEGIN@
    ||| s == VARIABLE_BEGIN@
    ||| s == VARIABLE_MIDDLE@
    ||| s == VARIABLE_USE@
}

/// Every keyword is a tag: it begins with `#`.
pub proof fn lemma_keywords_are_tags()
    ensures
        forall|s: Seq<char>| is_keyword(s) ==> #[trigger] is_tag(s),
{
    reveal_strlit("#HAI");
    reveal_strlit("#KTHXBYE");
    reveal_strlit("#OBTW");
    reveal_strlit("#TLDR");
    reveal_strlit("#MAEK HEAD");
    reveal_strlit("#OIC");
    reveal_strlit("#GIMMEH TITLE");
    reveal_strlit("#MKAY");
    reveal_strlit("#MAEK PARAGRAF");
    reveal_strlit("#GIMMEH BOLD");
    reveal_strlit("#GIMMEH ITALICS");
    reveal_strlit("#MAEK LIST");
    reveal_strlit("#GIMMEH ITEM");
    reveal_strlit("#GIMMEH NEWLINE");
    reveal_strlit("#GIMMEH SOUNDZ");
    reveal_strlit("#GIMMEH VIDZ");
    reveal_strlit("#I HAZ");
    reveal_strlit("#IT IZ");
    reveal_strlit("#LEMME SEE");
}

/// The place of `s` in the vocabulary, counted from one: the keywords
/// first, the synthesized markers after them. Zero for any other text.
pub open spec fn ordinal(s: Seq<char>) -> nat {
    if s == DOCUMENT_BEGIN@ {
        1
    } else if s == DOCUMENT_END@ {
        2
    } else if s == COMMENT_BEGIN@ {
        3
    } else if s == COMMENT_END@ {
        4
    } else if s == HEAD_BEGIN@ {
        5
    } else if s == BLOCK_END@ {
        6
    } else if s == TITLE_BEGIN@ {
        7
    } else if s == SPAN_END@ {
        8
    } else if s == PARAGRAPH_BEGIN@ {
        9
    } else if s == BOLD_BEGIN@ {
        10
    } else if s == ITALICS_BEGIN@ {
        11
    } else if s == LIST_BEGIN@ {
        12
    } else if s == ITEM_BEGIN@ {
        13
    } else if s == NEWLINE@ {
        14
    } else if s == AUDIO_BEGIN@ {
        15
    } else if s == VIDEO_BEGIN@ {
        16
    } else if s == VARIABLE_BEGIN@ {
        17
    } else if s == VARIABLE_MIDDLE@ {
        18
    } else if s == VARIABLE_USE@ {
        19
    } else if s == HEAD_END@ {
        20
    } else if s == TITLE_END@ {
        21
    } else if s == PARAGRAPH_END@ {
        22
    } else if s == BOLD_END@ {
        23
    } else if s == ITALICS_END@ {
        24
    } else if s == LIST_END@ {
        25
    } else if s == ITEM_END@ {
        26
    } else if s == AUDIO_END@ {
        27
    } else if s == VIDEO_END@ {
        28
    } else if s == VARIABLE_INIT_END@ {
        29
    } else if s == VARIABLE_USE_END@ {
        30
    } else {
        0
    }
}

/// The words of the vocabulary are all different, and every one is a tag.
pub proof fn lemma_vocabulary()
    ensures
        ordinal(DOCUMENT_BEGIN@) == 1,
        is_tag(DOCUMENT_BEGIN@),
        ordinal(DOCUMENT_END@) == 2,
        is_tag(DOCUMENT_END@),
        ordinal(COMMENT_BEGIN@) == 3,
        is_tag(COMMENT_BEGIN@),
        ordinal(COMMENT_END@) == 4,
        is_tag(COMMENT_END@),
        ordinal(HEAD_BEGIN@) == 5,
        is_tag(HEAD_BEGIN@),
        ordinal(BLOCK_END@) == 6,
        is_tag(BLOCK_END@),
        ordinal(TITLE_BEGIN@) == 7,
        is_tag(TITLE_BEGIN@),
        ordinal(SPAN_END@) == 8,
        is_tag(SPAN_END@),
        ordinal(PARAGRAPH_BEGIN@) == 9,
        is_tag(PARAGRAPH_BEGIN@),
        ordinal(BOLD_BEGIN@) == 10,
        is_tag(BOLD_BEGIN@),
        ordinal(ITALICS_BEGIN@) == 11,
        is_tag(ITALICS_BEGIN@),
        ordinal(LIST_BEGIN@) == 12,
        is_tag(LIST_BEGIN@),
        ordinal(ITEM_BEGIN@) == 13,
        is_tag(ITEM_BEGIN@),
        ordinal(NEWLINE@) == 14,
        is_tag(NEWLINE@),
        ordinal(AUDIO_BEGIN@) == 15,
        is_tag(AUDIO_BEGIN@),
        ordinal(VIDEO_BEGIN@) == 16,
        is_tag(VIDEO_BEGIN@),
        ordinal(VARIABLE_BEGIN@) == 17,
        is_tag(VARIABLE_BEGIN@),
        ordinal(VARIABLE_MIDDLE@) == 18,
        is_tag(VARIABLE_MIDDLE@),
        ordinal(VARIABLE_USE@) == 19,
        is_tag(VARIABLE_USE@),
        ordinal(HEAD_END@) == 20,
        is_tag(HEAD_END@),
        ordinal(TITLE_END@) == 21,
        is_tag(TITLE_END@),
        ordinal(PARAGRAPH_END@) == 22,
        is_tag(PARAGRAPH_END@),
        ordinal(BOLD_END@) == 23,
        is_tag(BOLD_END@),
        ordinal(ITALICS_END@) == 24,
        is_tag(ITALICS_END@),
        ordinal(LIST_END@) == 25,
        is_tag(LIST_END@),
        ordinal(ITEM_END@) == 26,
        is_tag(ITEM_END@),
        ordinal(AUDIO_END@) == 27,
        is_tag(AUDIO_END@),
        ordinal(VIDEO_END@) == 28,
        is_tag(VIDEO_END@),
        ordinal(VARIABLE_INIT_END@) == 29,
        is_tag(VARIABLE_INIT_END@),
        ordinal(VARIABLE_USE_END@) == 30,
        is_tag(VARIABLE_USE_END@),
{
    reveal_strlit("#HAI");
    reveal_strlit("#KTHXBYE");
    reveal_strlit("#OBTW");
    reveal_strlit("#TLDR");
    reveal_strlit("#MAEK HEAD");
    reveal_strlit("#OIC");
    reveal_strlit("#GIMMEH TITLE");
    reveal_strlit("#MKAY");
    reveal_strlit("#MAEK PARAGRAF");
    reveal_strlit("#GIMMEH BOLD");
    reveal_strlit("#GIMMEH ITALICS");
    reveal_strlit("#MAEK LIST");
    reveal_strlit("#GIMMEH ITEM");
    reveal_strlit("#GIMMEH NEWLINE");
    reveal_strlit("#GIMMEH SOUNDZ");
    reveal_strlit("#GIMMEH VIDZ");
    reveal_strlit("#I HAZ");
    reveal_strlit("#IT IZ");
    reveal_strlit("#LEMME SEE");
    reveal_strlit("#HEAD END");
    reveal_strlit("#TITLE END");
    reveal_strlit("#PARAGRAPH END");
    reveal_strlit("#BOLD END");
    reveal_strlit("#ITALICS END");
    reveal_strlit("#LIST END");
    reveal_strlit("#LIST ITEM END");
    reveal_strlit("#AUDIO END");
    reveal_strlit("#VIDEO END");
    reveal_strlit("#VARIABLE INIT END");
    reveal_strlit("#VARIABLE USE END");
    assert(DOCUMENT_BEGIN@.len() == 4);
    assert(DOCUMENT_END@.len() == 8);
    assert(COMMENT_BEGIN@.len() == 5);
    assert(COMMENT_END@.len() == 5);
    assert(HEAD_BEGIN@.len() == 10);
    assert(BLOCK_END@.len() == 4);
    assert(TITLE_BEGIN@.len() == 13);
    assert(SPAN_END@.len() == 5);
    assert(PARAGRAPH_BEGIN@.len() == 14);
    assert(BOLD_BEGIN@.len() == 12);
    assert(ITALICS_BEGIN@.len() == 15);
    assert(LIST_BEGIN@.len() == 10);
    assert(ITEM_BEGIN@.len() == 12);
    assert(NEWLINE@.len() == 15);
    assert(AUDIO_BEGIN@.len() == 14);
    assert(VIDEO_BEGIN@.len() == 12);
    assert(VARIABLE_BEGIN@.len() == 6);
    assert(VARIABLE_MIDDLE@.len() == 6);
    assert(VARIABLE_USE@.len() == 10);
    assert(HEAD_END@.len() == 9);
    assert(TITLE_END@.len() == 10);
    assert(PARAGRAPH_END@.len() == 14);
    assert(BOLD_END@.len() == 9);
    assert(ITALICS_END@.len() == 12);
    assert(LIST_END@.len() == 9);
    assert(ITEM_END@.len() == 14);
    assert(AUDIO_END@.len() == 10);
    assert(VIDEO_END@.len() == 10);
    assert(VARIABLE_INIT_END@.len() == 18);
    assert(VARIABLE_USE_END@.len() == 17);
    assert(DOCUMENT_BEGIN@[1] != BLOCK_END@[1]);
    assert(COMMENT_BEGIN@[1] != COMMENT_END@[1]);
    assert(COMMENT_BEGIN@[1] != SPAN_END@[1]);
    assert(COMMENT_END@[1] != SPAN_END@[1]);
    assert(HEAD_BEGIN@[6] != LIST_BEGIN@[6]);
    assert(HEAD_BEGIN@[1] != VARIABLE_USE@[1]);
    assert(HEAD_BEGIN@[1] != TITLE_END@[1]);
    assert(HEAD_BEGIN@[1] != AUDIO_END@[1]);
    assert(HEAD_BEGIN@[1] != VIDEO_END@[1]);
    assert(PARAGRAPH_BEGIN@[1] != AUDIO_BEGIN@[1]);
    assert(PARAGRAPH_BEGIN@[1] != PARAGRAPH_END@[1]);
    assert(PARAGRAPH_BEGIN@[1] != ITEM_END@[1]);
    assert(BOLD_BEGIN@[8] != ITEM_BEGIN@[8]);
    assert(BOLD_BEGIN@[8] != VIDEO_BEGIN@[8]);
    assert(BOLD_BEGIN@[1] != ITALICS_END@[1]);
    assert(ITALICS_BEGIN@[8] != NEWLINE@[8]);
    assert(LIST_BEGIN@[1] != VARIABLE_USE@[1]);
    assert(LIST_BEGIN@[1] != TITLE_END@[1]);
    assert(LIST_BEGIN@[1] != AUDIO_END@[1]);
    assert(LIST_BEGIN@[1] != VIDEO_END@[1]);
    assert(ITEM_BEGIN@[8] != VIDEO_BEGIN@[8]);
    assert(ITEM_BEGIN@[1] != ITALICS_END@[1]);
    assert(AUDIO_BEGIN@[1] != PARAGRAPH_END@[1]);
    assert(AUDIO_BEGIN@[1] != ITEM_END@[1]);
    assert(VIDEO_BEGIN@[1] != ITALICS_END@[1]);
    assert(VARIABLE_BEGIN@[2] != VARIABLE_MIDDLE@[2]);
    assert(VARIABLE_USE@[1] != TITLE_END@[1]);
    assert(VARIABLE_USE@[1] != AUDIO_END@[1]);
    assert(VARIABLE_USE@[1] != VIDEO_END@[1]);
    assert(HEAD_END@[1] != BOLD_END@[1]);
    assert(HEAD_END@[1] != LIST_END@[1]);
    assert(TITLE_END@[1] != AUDIO_END@[1]);
    assert(TITLE_END@[1] != VIDEO_END@[1]);
    assert(PARAGRAPH_END@[1] != ITEM_END@[1]);
    assert(BOLD_END@[1] != LIST_END@[1]);
    assert(AUDIO_END@[1] != VIDEO_END@[1]);
}

/// Looks `s` up in the keyword table.
pub fn in_keyword_table(s: &str) -> (r: bool)
    ensures
        r == is_keyword(s@),
{
    reads(s, DOCUMENT_BEGIN) || reads(s, DOCUMENT_END) || reads(s, COMMENT_BEGIN) || reads(
        s,
        COMMENT_END,
    ) || reads(s, HEAD_BEGIN) || reads(s, BLOCK_END) || reads(s, TITLE_BEGIN) || reads(s, SPAN_END)
        || reads(s, PARAGRAPH_BEGIN) || reads(s, BOLD_BEGIN) || reads(s, ITALICS_BEGIN) || reads(
        s,
        LIST_BEGIN,
    ) || reads(s, ITEM_BEGIN) || reads(s, NEWLINE) || reads(s, AUDIO_BEGIN) || reads(s, VIDEO_BEGIN)
        || reads(s, VARIABLE_BEGIN) || reads(s, VARIABLE_MIDDLE) || reads(s, VARIABLE_USE)
}

} // verus!
