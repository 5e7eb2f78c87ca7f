//! Syntax analysis: from tokens to the flattened parse sequence.
//!
//! The analyzer reads its tokens from the back of `token_vector`, one at a
//! time into `current_token`, and appends symbols to `parse_tree`. Each
//! method carries out one production of [`crate::grammar`] on the stream
//! that is left. A production that fails leaves the parse sequence and
//! the output as they were; the tokens it has read are gone.

use vstd::prelude::*;
use vstd::string::*;
use crate::error::{unexpected, CompileError, Fault};
use crate::grammar::{
    advance, body, body_item, comment, content, document, head, inner_item, inner_list,
    inner_paragraph, inner_text, join, lemma_body_item_leaves, lemma_content_leaves,
    lemma_inner_item_leaves, lemma_join_join, lemma_simple_leaves, list, list_items, name, name_of,
    paragraph, span, text, title, variable_define, variable_use, Outcome,
};
use crate::keywords::{
    AUDIO_BEGIN, AUDIO_END, BLOCK_END, BOLD_BEGIN, BOLD_END, COMMENT_BEGIN, COMMENT_END,
    DOCUMENT_BEGIN, DOCUMENT_END, HEAD_BEGIN, HEAD_END, ITALICS_BEGIN, ITALICS_END, ITEM_BEGIN,
    ITEM_END, LIST_BEGIN, LIST_END, NEWLINE, PARAGRAPH_BEGIN, PARAGRAPH_END, SPAN_END, TITLE_BEGIN,
    TITLE_END, VARIABLE_BEGIN, VARIABLE_INIT_END, VARIABLE_MIDDLE, VARIABLE_USE, VARIABLE_USE_END,
    VIDEO_BEGIN, VIDEO_END,
};
use crate::lexer::all_clean;
use crate::nesting::{lemma_document_well_nested, well_nested};
use crate::semantics::{markup_of, LolcodeSemanticAnalyzer, SemanticAnalyzer};
use crate::text::{
    contains_whitespace, duplicate, is_tag, lemma_texts_push, reads, reverse, starts_with_hash,
    texts, trim,
};

verus! {

/// The productions of the grammar, and the moves they are made of.
///
/// Each production reads from the current token on and leaves the token
/// after its construct current.
pub trait SyntaxAnalyzer {
    /// Takes one more token in; the token taken in last is read first.
    fn grab_token(&mut self, token: String);

    /// Parses a whole document and generates its markup.
    fn parse_lolcode(&mut self) -> Result<(), CompileError>;

    fn parse_head(&mut self) -> Result<(), CompileError>;

    fn parse_title(&mut self) -> Result<(), CompileError>;

    fn parse_comment(&mut self) -> Result<(), CompileError>;

    fn parse_body(&mut self) -> Result<(), CompileError>;

    fn parse_paragraph(&mut self) -> Result<(), CompileError>;

    fn parse_inner_paragraph(&mut self) -> Result<(), CompileError>;

    fn parse_inner_text(&mut self) -> Result<(), CompileError>;

    fn parse_variable_define(&mut self) -> Result<(), CompileError>;

    fn parse_variable_use(&mut self) -> Result<(), CompileError>;

    fn parse_bold(&mut self) -> Result<(), CompileError>;

    fn parse_italics(&mut self) -> Result<(), CompileError>;

    fn parse_list(&mut self) -> Result<(), CompileError>;

    fn parse_list_items(&mut self) -> Result<(), CompileError>;

    fn parse_inner_list(&mut self) -> Result<(), CompileError>;

    fn parse_audio(&mut self) -> Result<(), CompileError>;

    fn parse_video(&mut self) -> Result<(), CompileError>;

    fn parse_newline(&mut self) -> Result<(), CompileError>;

    fn parse_text(&mut self) -> Result<(), CompileError>;

    /// Appends the current token to the parse sequence.
    fn parse_tree_push(&mut self);

    /// Makes the next token the current one.
    fn next_token(&mut self) -> Result<(), CompileError>;
}

/// A syntax analyzer with its tokens and the parse sequence built from them.
pub struct LolcodeSyntaxAnalyzer {
    /// The tokens still to be read, the next one last.
    pub token_vector: Vec<String>,
    /// The flattened parse sequence built so far.
    pub parse_tree: Vec<String>,
    /// The token that the next production dispatches on.
    pub current_token: String,
    /// The markup generated from the last document parsed.
    pub output: String,
}

impl LolcodeSyntaxAnalyzer {
    /// The tokens after the current one, in the order in which they are read.
    pub open spec fn upcoming(&self) -> Seq<Seq<char>> {
        texts(self.token_vector@).reverse()
    }

    /// The tokens from the current one on.
    pub open spec fn stream(&self) -> Seq<Seq<char>> {
        seq![self.current_token@] + self.upcoming()
    }

    /// The symbols of the parse sequence built so far.
    pub open spec fn tree(&self) -> Seq<Seq<char>> {
        texts(self.parse_tree@)
    }

    /// The analyzer went from `self` to `next`, with result `r`, through
    /// the steps of the outcome `o`: on success the symbols of `o` were
    /// appended and the stream of `o` is what is left; on failure `r`
    /// carries the fault of `o`, and the parse sequence may hold more than
    /// before. The output is not touched.
    pub open spec fn tried(
        &self,
        next: &LolcodeSyntaxAnalyzer,
        o: Outcome,
        r: Result<(), CompileError>,
    ) -> bool {
        &&& next.output == self.output
        &&& self.parse_tree@.is_prefix_of(next.parse_tree@)
        &&& match o {
            Ok(p) => {
                &&& r is Ok
                &&& next.stream() == p.rest
                &&& next.tree() == self.tree() + p.tree
            },
            Err(fault) => r is Err && r->Err_0@ == fault,
        }
    }

    /// The analyzer went from `self` to `next`, with result `r`, as the
    /// outcome `o` prescribes: on success the symbols of `o` were appended
    /// and the stream of `o` is what is left; on failure `r` carries the
    /// fault of `o` and the parse sequence is as it was before: no part of
    /// a construct that failed stays in it. The output is not touched.
    pub open spec fn moved(
        &self,
        next: &LolcodeSyntaxAnalyzer,
        o: Outcome,
        r: Result<(), CompileError>,
    ) -> bool {
        &&& self.tried(next, o, r)
        &&& r is Err ==> next.parse_tree@ == self.parse_tree@
    }

    /// The analyzer went from `self` to `next`, with result `r`, by parsing
    /// the tokens it had taken in as one document and generating its
    /// markup: the first fault of the grammar, else the fault of an
    /// undefined variable, else the markup as the new output, with the
    /// parse sequence grown by the document's and `#KTHXBYE` the last
    /// token read.
    pub open spec fn compiled(
        &self,
        next: &LolcodeSyntaxAnalyzer,
        r: Result<(), CompileError>,
    ) -> bool {
        match document(texts(self.token_vector@)) {
            Err(fault) => r is Err && r->Err_0@ == fault,
            Ok(tree) => {
                &&& all_clean(texts(self.token_vector@)) ==> well_nested(tree)
                &&& match markup_of(self.tree() + tree) {
                    Ok(html) => r is Ok && next.output@ == html,
                    Err(fault) => r is Err && r->Err_0@ == fault,
                }
                &&& r is Ok ==> {
                    &&& next.tree() == self.tree() + tree
                    &&& next.stream() == seq![DOCUMENT_END@]
                }
            },
        }
    }

    /// An analyzer without tokens.
    pub fn new() -> (analyzer: Self)
        ensures
            analyzer.token_vector@ == Seq::<String>::empty(),
            analyzer.parse_tree@ == Seq::<String>::empty(),
            analyzer.current_token@ == Seq::<char>::empty(),
            analyzer.output@ == Seq::<char>::empty(),
    {
        LolcodeSyntaxAnalyzer {
            token_vector: Vec::new(),
            parse_tree: Vec::new(),
            current_token: String::new(),
            output: String::new(),
        }
    }

    /// Takes back what was appended since the parse sequence had `mark`
    /// symbols, if `r` is a failure; hands `r` on.
    fn settle(&mut self, mark: usize, r: Result<(), CompileError>) -> (out: Result<
        (),
        CompileError,
    >)
        requires
            mark <= old(self).parse_tree@.len(),
        ensures
            out == r,
            final(self).token_vector == old(self).token_vector,
            final(self).current_token == old(self).current_token,
            final(self).output == old(self).output,
            r is Ok ==> final(self).parse_tree == old(self).parse_tree,
            r is Err ==> final(self).parse_tree@ == old(self).parse_tree@.take(mark as int),
    {
        let failed = match &r {
            Ok(_) => false,
            Err(_) => true,
        };
        if failed {
            self.parse_tree.truncate(mark);
        }
        r
    }

    /// Appends `symbol` to the parse sequence.
    fn emit(&mut self, symbol: &str)
        ensures
            final(self).tree() == old(self).tree().push(symbol@),
            old(self).parse_tree@.is_prefix_of(final(self).parse_tree@),
            final(self).token_vector == old(self).token_vector,
            final(self).current_token == old(self).current_token,
            final(self).output == old(self).output,
    {
        let s = String::from_str(symbol);
        proof {
            lemma_texts_push(self.parse_tree@, s);
        }
        self.parse_tree.push(s);
    }

    /// Whether the current token reads `word`.
    fn at(&self, word: &str) -> (b: bool)
        ensures
            b == (self.stream()[0] == word@),
    {
        reads(self.current_token.as_str(), word)
    }

    /// Whether the current token is a tag.
    fn at_tag(&self) -> (b: bool)
        ensures
            b == is_tag(self.stream()[0]),
    {
        starts_with_hash(self.current_token.as_str())
    }

    /// The error of finding the current token where `expected` should stand.
    fn found_instead_of(&self, expected: &str) -> (e: CompileError)
        ensures
            e@ == (Fault::Unexpected { expected: expected@, found: self.stream()[0] }),
    {
        unexpected(expected, &self.current_token)
    }

    /// Fails unless the current token reads `word`.
    fn expect(&self, word: &str) -> (r: Result<(), CompileError>)
        ensures
            self.stream()[0] == word@ ==> r is Ok,
            self.stream()[0] != word@ ==> r is Err && r->Err_0@ == (Fault::Unexpected {
                expected: word@,
                found: self.stream()[0],
            }),
    {
        if self.at(word) {
            Ok(())
        } else {
            Err(self.found_instead_of(word))
        }
    }

    /// Fails unless the current token is text.
    fn expect_text(&self) -> (r: Result<(), CompileError>)
        ensures
            !is_tag(self.stream()[0]) ==> r is Ok,
            is_tag(self.stream()[0]) ==> r is Err && r->Err_0@ == (Fault::Unexpected {
                expected: "text"@,
                found: self.stream()[0],
            }),
    {
        if self.at_tag() {
            Err(self.found_instead_of("text"))
        } else {
            Ok(())
        }
    }

    /// The current token, one text, `#MKAY`; closes with the marker `close`.
    fn parse_span(&mut self, close: &str) -> (r: Result<(), CompileError>)
        ensures
            old(self).tried(final(self), span(old(self).stream(), close@), r),
    {
        let ghost s = self.stream();
        self.parse_tree_push();
        self.next_token()?;
        self.expect_text()?;
        self.parse_text()?;
        self.expect(SPAN_END)?;
        self.emit(close);
        self.next_token()?;
        proof {
            assert(self.stream() =~= s.skip(3));
            assert(self.tree() =~= old(self).tree() + seq![s[0], s[1], close@]);
        }
        Ok(())
    }

    /// A name in the place of the current token.
    fn parse_name(&mut self) -> (r: Result<(), CompileError>)
        ensures
            old(self).tried(final(self), name(old(self).stream()), r),
    {
        self.expect_text()?;
        assert(self.stream()[0] == self.current_token@);
        let bare = trim(self.current_token.as_str());
        if contains_whitespace(bare.as_str()) {
            return Err(CompileError::InvalidVariableName { name: self.current_token.clone() });
        }
        proof {
            lemma_texts_push(self.parse_tree@, bare);
        }
        self.parse_tree.push(bare);
        self.next_token()?;
        proof {
            assert(self.tree() =~= old(self).tree() + seq![bare@]);
        }
        Ok(())
    }
}

impl SyntaxAnalyzer for LolcodeSyntaxAnalyzer {
    fn grab_token(&mut self, token: String)
        ensures
            final(self).token_vector@ == old(self).token_vector@.push(token),
            final(self).parse_tree == old(self).parse_tree,
            final(self).current_token == old(self).current_token,
            final(self).output == old(self).output,
    {
        self.token_vector.push(token);
    }

    fn parse_tree_push(&mut self)
        ensures
            final(self).tree() == old(self).tree().push(old(self).current_token@),
            old(self).parse_tree@.is_prefix_of(final(self).parse_tree@),
            final(self).token_vector == old(self).token_vector,
            final(self).current_token == old(self).current_token,
            final(self).output == old(self).output,
    {
        let s = self.current_token.clone();
        proof {
            lemma_texts_push(self.parse_tree@, s);
        }
        self.parse_tree.push(s);
    }

    fn next_token(&mut self) -> (r: Result<(), CompileError>)
        ensures
            old(self).moved(final(self), advance(old(self).stream()), r),
            final(self).parse_tree == old(self).parse_tree,
            r is Err ==> final(self).current_token == old(self).current_token,
    {
        match self.token_vector.pop() {
            Some(token) => {
                self.current_token = token;
                proof {
                    assert(self.stream() =~= old(self).stream().drop_first());
                    assert(self.tree() =~= old(self).tree() + Seq::<Seq<char>>::empty());
                }
                Ok(())
            },
            None => Err(CompileError::UnexpectedEnd),
        }
    }

    fn parse_text(&mut self) -> (r: Result<(), CompileError>)
        ensures
            old(self).moved(final(self), text(old(self).stream()), r),
    {
        let mark: usize = self.parse_tree.len();
        let r = self.text_steps();
        self.settle(mark, r)
    }

    fn parse_newline(&mut self) -> (r: Result<(), CompileError>)
        ensures
            old(self).moved(final(self), text(old(self).stream()), r),
    {
        self.parse_text()
    }

    fn parse_bold(&mut self) -> (r: Result<(), CompileError>)
        ensures
            old(self).moved(final(self), span(old(self).stream(), BOLD_END@), r),
    {
        let mark: usize = self.parse_tree.len();
        let r = self.parse_span(BOLD_END);
        self.settle(mark, r)
    }

    fn parse_italics(&mut self) -> (r: Result<(), CompileError>)
        ensures
            old(self).moved(final(self), span(old(self).stream(), ITALICS_END@), r),
    {
        let mark: usize = self.parse_tree.len();
        let r = self.parse_span(ITALICS_END);
        self.settle(mark, r)
    }

    fn parse_audio(&mut self) -> (r: Result<(), CompileError>)
        ensures
            old(self).moved(final(self), span(old(self).stream(), AUDIO_END@), r),
    {
        let mark: usize = self.parse_tree.len();
        let r = self.parse_span(AUDIO_END);
        self.settle(mark, r)
    }

    fn parse_video(&mut self) -> (r: Result<(), CompileError>)
        ensures
            old(self).moved(final(self), span(old(self).stream(), VIDEO_END@), r),
    {
        let mark: usize = self.parse_tree.len();
        let r = self.parse_span(VIDEO_END);
        self.settle(mark, r)
    }

    fn parse_title(&mut self) -> (r: Result<(), CompileError>)
        ensures
            old(self).moved(final(self), title(old(self).stream()), r),
    {
        self.expect(TITLE_BEGIN)?;
        let mark: usize = self.parse_tree.len();
        let r = self.parse_span(TITLE_END);
        self.settle(mark, r)
    }

    fn parse_head(&mut self) -> (r: Result<(), CompileError>)
        ensures
            old(self).moved(final(self), head(old(self).stream()), r),
    {
        let mark: usize = self.parse_tree.len();
        let r = self.head_steps();
        self.settle(mark, r)
    }

    fn parse_comment(&mut self) -> (r: Result<(), CompileError>)
        ensures
            old(self).moved(final(self), comment(old(self).stream()), r),
    {
        let mark: usize = self.parse_tree.len();
        let r = self.comment_steps();
        self.settle(mark, r)
    }

    fn parse_variable_define(&mut self) -> (r: Result<(), CompileError>)
        ensures
            old(self).moved(final(self), variable_define(old(self).stream()), r),
    {
        let mark: usize = self.parse_tree.len();
        let r = self.variable_define_steps();
        self.settle(mark, r)
    }

    fn parse_variable_use(&mut self) -> (r: Result<(), CompileError>)
        ensures
            old(self).moved(final(self), variable_use(old(self).stream()), r),
    {
        let mark: usize = self.parse_tree.len();
        let r = self.variable_use_steps();
        self.settle(mark, r)
    }

    fn parse_inner_list(&mut self) -> (r: Result<(), CompileError>)
        ensures
            old(self).moved(final(self), inner_list(old(self).stream()), r),
    {
        if self.at(BOLD_BEGIN) {
            self.parse_bold()
        } else if self.at(ITALICS_BEGIN) {
            self.parse_italics()
        } else if !self.at_tag() {
            self.parse_text()
        } else if self.at(VARIABLE_USE) {
            self.parse_variable_use()
        } else {
            Err(self.found_instead_of("valid list item token"))
        }
    }

    fn parse_list_items(&mut self) -> (r: Result<(), CompileError>)
        ensures
            old(self).moved(final(self), list_items(old(self).stream()), r),
    {
        let mark: usize = self.parse_tree.len();
        let r = self.list_items_steps();
        self.settle(mark, r)
    }

    fn parse_list(&mut self) -> (r: Result<(), CompileError>)
        ensures
            old(self).moved(final(self), list(old(self).stream()), r),
    {
        let mark: usize = self.parse_tree.len();
        let r = self.list_steps();
        self.settle(mark, r)
    }

    fn parse_inner_paragraph(&mut self) -> (r: Result<(), CompileError>)
        ensures
            old(self).moved(final(self), inner_paragraph(old(self).stream()), r),
    {
        let mark: usize = self.parse_tree.len();
        let r = self.inner_paragraph_steps();
        self.settle(mark, r)
    }

    fn parse_inner_text(&mut self) -> (r: Result<(), CompileError>)
        ensures
            old(self).moved(final(self), inner_text(old(self).stream()), r),
    {
        let mark: usize = self.parse_tree.len();
        let r = self.inner_text_steps();
        self.settle(mark, r)
    }

    fn parse_paragraph(&mut self) -> (r: Result<(), CompileError>)
        ensures
            old(self).moved(final(self), paragraph(old(self).stream()), r),
    {
        let mark: usize = self.parse_tree.len();
        let r = self.paragraph_steps();
        self.settle(mark, r)
    }

    fn parse_body(&mut self) -> (r: Result<(), CompileError>)
        ensures
            old(self).moved(final(self), body(old(self).stream()), r),
    {
        let mark: usize = self.parse_tree.len();
        let r = self.body_steps();
        self.settle(mark, r)
    }

    fn parse_lolcode(&mut self) -> (r: Result<(), CompileError>)
        ensures
            old(self).compiled(final(self), r),
            r is Err ==> {
                &&& final(self).output == old(self).output
                &&& final(self).parse_tree@ == old(self).parse_tree@
            },
    {
        let mark: usize = self.parse_tree.len();
        let r = self.lolcode_steps();
        self.settle(mark, r)
    }
}

impl LolcodeSyntaxAnalyzer {
    /// One token, contributed as it is.
    fn text_steps(&mut self) -> (r: Result<(), CompileError>)
        ensures
            old(self).tried(final(self), text(old(self).stream()), r),
    {
        self.parse_tree_push();
        self.next_token()?;
        proof {
            assert(self.tree() =~= old(self).tree() + (seq![old(self).stream()[0]]
                + Seq::<Seq<char>>::empty()));
        }
        Ok(())
    }

    /// A head, if the current token begins one.
    fn head_steps(&mut self) -> (r: Result<(), CompileError>)
        ensures
            old(self).tried(final(self), head(old(self).stream()), r),
    {
        if !self.at(HEAD_BEGIN) {
            proof {
                assert(self.tree() =~= old(self).tree() + Seq::<Seq<char>>::empty());
            }
            return Ok(());
        }
        let ghost s = self.stream();
        self.parse_tree_push();
        self.next_token()?;
        self.parse_title()?;
        let ghost p = title(s.drop_first())->Ok_0;
        self.expect(BLOCK_END)?;
        self.emit(HEAD_END);
        self.next_token()?;
        proof {
            assert(self.tree() =~= old(self).tree() + ((seq![s[0]] + p.tree) + (seq![HEAD_END@]
                + Seq::<Seq<char>>::empty())));
        }
        Ok(())
    }

    /// Any number of comments.
    fn comment_steps(&mut self) -> (r: Result<(), CompileError>)
        ensures
            old(self).tried(final(self), comment(old(self).stream()), r),
    {
        let ghost mut done: Seq<Seq<char>> = Seq::empty();
        proof {
            lemma_join_join(Seq::empty(), Seq::empty(), comment(self.stream()));
            assert(self.tree() =~= old(self).tree() + done);
            assert(comment(self.stream()) == join(done, comment(self.stream()))) by {
                if comment(self.stream()) is Ok {
                    assert(done + comment(self.stream())->Ok_0.tree =~= comment(
                        self.stream(),
                    )->Ok_0.tree);
                }
            }
        }
        loop
            invariant
                self.tree() == old(self).tree() + done,
                self.output == old(self).output,
                old(self).parse_tree@.is_prefix_of(self.parse_tree@),
                comment(old(self).stream()) == join(done, comment(self.stream())),
            decreases self.token_vector@.len(),
        {
            let ghost s = self.stream();
            if !self.at(COMMENT_BEGIN) {
                proof {
                    assert(done + Seq::<Seq<char>>::empty() =~= done);
                }
                return Ok(());
            }
            self.parse_tree_push();
            self.next_token()?;
            self.expect_text()?;
            self.parse_text()?;
            self.expect(COMMENT_END)?;
            self.parse_tree_push();
            self.next_token()?;
            proof {
                let step = seq![s[0], s[1], s[2]];
                assert(self.stream() =~= s.skip(3));
                lemma_join_join(done, step, comment(s.skip(3)));
                assert(self.tree() =~= old(self).tree() + (done + step));
                done = done + step;
            }
        }
    }

    /// A variable definition, if the current token begins one.
    fn variable_define_steps(&mut self) -> (r: Result<(), CompileError>)
        ensures
            old(self).tried(final(self), variable_define(old(self).stream()), r),
    {
        if !self.at(VARIABLE_BEGIN) {
            proof {
                assert(self.tree() =~= old(self).tree() + Seq::<Seq<char>>::empty());
            }
            return Ok(());
        }
        let ghost s = self.stream();
        self.parse_tree_push();
        self.next_token()?;
        self.parse_name()?;
        self.expect(VARIABLE_MIDDLE)?;
        self.parse_tree_push();
        self.next_token()?;
        self.expect_text()?;
        self.parse_text()?;
        self.expect(SPAN_END)?;
        self.emit(VARIABLE_INIT_END);
        self.next_token()?;
        proof {
            assert(self.stream() =~= s.skip(5));
            assert(self.tree() =~= old(self).tree() + seq![
                s[0],
                name_of(s[1]),
                s[2],
                s[3],
                VARIABLE_INIT_END@,
            ]);
        }
        Ok(())
    }

    /// A variable use.
    fn variable_use_steps(&mut self) -> (r: Result<(), CompileError>)
        ensures
            old(self).tried(final(self), variable_use(old(self).stream()), r),
    {
        let ghost s = self.stream();
        self.parse_tree_push();
        self.next_token()?;
        self.parse_name()?;
        self.expect(SPAN_END)?;
        self.emit(VARIABLE_USE_END);
        self.next_token()?;
        proof {
            assert(self.stream() =~= s.skip(3));
            assert(self.tree() =~= old(self).tree() + seq![
                s[0],
                name_of(s[1]),
                VARIABLE_USE_END@,
            ]);
        }
        Ok(())
    }

    /// The items of a list and the marker that closes it.
    fn list_items_steps(&mut self) -> (r: Result<(), CompileError>)
        ensures
            old(self).tried(final(self), list_items(old(self).stream()), r),
    {
        let ghost mut done: Seq<Seq<char>> = Seq::empty();
        proof {
            lemma_join_join(Seq::empty(), Seq::empty(), list_items(self.stream()));
            assert(self.tree() =~= old(self).tree() + done);
            assert(list_items(self.stream()) == join(done, list_items(self.stream()))) by {
                if list_items(self.stream()) is Ok {
                    assert(done + list_items(self.stream())->Ok_0.tree =~= list_items(
                        self.stream(),
                    )->Ok_0.tree);
                }
            }
        }
        loop
            invariant
                self.tree() == old(self).tree() + done,
                self.output == old(self).output,
                old(self).parse_tree@.is_prefix_of(self.parse_tree@),
                list_items(old(self).stream()) == join(done, list_items(self.stream())),
            decreases self.token_vector@.len(),
        {
            let ghost s = self.stream();
            if self.at(BLOCK_END) {
                self.emit(LIST_END);
                self.next_token()?;
                proof {
                    assert(self.tree() =~= old(self).tree() + (done + (seq![LIST_END@]
                        + Seq::<Seq<char>>::empty())));
                }
                return Ok(());
            }
            self.expect(ITEM_BEGIN)?;
            self.parse_tree_push();
            self.next_token()?;
            let ghost t = self.stream();
            self.parse_inner_list()?;
            let ghost p = inner_list(t)->Ok_0;
            self.expect(SPAN_END)?;
            self.emit(ITEM_END);
            self.next_token()?;
            proof {
                lemma_simple_leaves(t, BOLD_END@);
                lemma_simple_leaves(t, ITALICS_END@);
                let step = seq![s[0]] + p.tree + seq![ITEM_END@];
                lemma_join_join(done, step, list_items(p.rest.drop_first()));
                assert(self.tree() =~= old(self).tree() + (done + step));
                done = done + step;
            }
        }
    }

    /// A list.
    fn list_steps(&mut self) -> (r: Result<(), CompileError>)
        ensures
            old(self).tried(final(self), list(old(self).stream()), r),
    {
        let ghost s = self.stream();
        self.parse_tree_push();
        self.next_token()?;
        self.parse_list_items()?;
        proof {
            let p = list_items(s.drop_first())->Ok_0;
            assert(self.tree() =~= old(self).tree() + (seq![s[0]] + p.tree));
        }
        Ok(())
    }

    /// The constructs of a paragraph and the marker that closes it.
    fn inner_paragraph_steps(&mut self) -> (r: Result<(), CompileError>)
        ensures
            old(self).tried(final(self), inner_paragraph(old(self).stream()), r),
    {
        let ghost mut done: Seq<Seq<char>> = Seq::empty();
        proof {
            assert(self.tree() =~= old(self).tree() + done);
            assert(inner_paragraph(self.stream()) == join(done, inner_paragraph(self.stream())))
                by {
                if inner_paragraph(self.stream()) is Ok {
                    assert(done + inner_paragraph(self.stream())->Ok_0.tree =~= inner_paragraph(
                        self.stream(),
                    )->Ok_0.tree);
                }
            }
        }
        loop
            invariant
                self.tree() == old(self).tree() + done,
                self.output == old(self).output,
                old(self).parse_tree@.is_prefix_of(self.parse_tree@),
                inner_paragraph(old(self).stream()) == join(done, inner_paragraph(self.stream())),
            decreases self.token_vector@.len(),
        {
            let ghost s = self.stream();
            if self.at(BLOCK_END) {
                self.emit(PARAGRAPH_END);
                self.next_token()?;
                proof {
                    assert(self.tree() =~= old(self).tree() + (done + (seq![PARAGRAPH_END@]
                        + Seq::<Seq<char>>::empty())));
                }
                return Ok(());
            }
            self.parse_inner_item()?;
            proof {
                lemma_inner_item_leaves(s);
                let p = inner_item(s)->Ok_0;
                lemma_join_join(done, p.tree, inner_paragraph(p.rest));
                assert(self.tree() =~= old(self).tree() + (done + p.tree));
                done = done + p.tree;
            }
        }
    }

    /// One construct inside a paragraph, then the rest of the paragraph.
    fn inner_text_steps(&mut self) -> (r: Result<(), CompileError>)
        ensures
            old(self).tried(final(self), inner_text(old(self).stream()), r),
    {
        let ghost s = self.stream();
        self.parse_inner_item()?;
        self.parse_inner_paragraph()?;
        proof {
            let p = inner_item(s)->Ok_0;
            let q = inner_paragraph(p.rest)->Ok_0;
            assert(self.tree() =~= old(self).tree() + (p.tree + q.tree));
        }
        Ok(())
    }

    /// A paragraph.
    fn paragraph_steps(&mut self) -> (r: Result<(), CompileError>)
        ensures
            old(self).tried(final(self), paragraph(old(self).stream()), r),
    {
        let ghost s = self.stream();
        self.parse_tree_push();
        self.next_token()?;
        self.parse_variable_define()?;
        self.parse_inner_paragraph()?;
        proof {
            let p = variable_define(s.drop_first())->Ok_0;
            let q = inner_paragraph(p.rest)->Ok_0;
            assert(self.tree() =~= old(self).tree() + ((seq![s[0]] + p.tree) + q.tree));
        }
        Ok(())
    }

    /// The constructs of the body.
    fn body_steps(&mut self) -> (r: Result<(), CompileError>)
        ensures
            old(self).tried(final(self), body(old(self).stream()), r),
    {
        let ghost mut done: Seq<Seq<char>> = Seq::empty();
        proof {
            assert(self.tree() =~= old(self).tree() + done);
            assert(body(self.stream()) == join(done, body(self.stream()))) by {
                if body(self.stream()) is Ok {
                    assert(done + body(self.stream())->Ok_0.tree =~= body(
                        self.stream(),
                    )->Ok_0.tree);
                }
            }
        }
        loop
            invariant
                self.tree() == old(self).tree() + done,
                self.output == old(self).output,
                old(self).parse_tree@.is_prefix_of(self.parse_tree@),
                body(old(self).stream()) == join(done, body(self.stream())),
            decreases self.token_vector@.len(),
        {
            let ghost s = self.stream();
            if self.at(DOCUMENT_END) {
                proof {
                    assert(done + Seq::<Seq<char>>::empty() =~= done);
                }
                return Ok(());
            }
            self.parse_body_item()?;
            proof {
                lemma_body_item_leaves(s);
                let p = body_item(s)->Ok_0;
                lemma_join_join(done, p.tree, body(p.rest));
                assert(self.tree() =~= old(self).tree() + (done + p.tree));
                done = done + p.tree;
            }
        }
    }

    /// A whole document, and its markup.
    fn lolcode_steps(&mut self) -> (r: Result<(), CompileError>)
        ensures
            old(self).compiled(final(self), r),
            old(self).parse_tree@.is_prefix_of(final(self).parse_tree@),
            r is Err ==> final(self).output == old(self).output,
    {
        let ghost tokens = texts(self.token_vector@);
        proof {
            if all_clean(tokens) && document(tokens) is Ok {
                lemma_document_well_nested(tokens);
            }
        }
        reverse(&mut self.token_vector);
        proof {
            assert(texts(self.token_vector@) =~= tokens.reverse());
            assert(tokens.reverse().reverse() =~= tokens);
        }
        self.next_token()?;
        assert(self.stream() =~= tokens);
        self.expect(DOCUMENT_BEGIN)?;
        self.parse_tree_push();
        self.next_token()?;
        let ghost inner = self.stream();
        assert(inner =~= tokens.drop_first());
        self.parse_content()?;
        let ghost parsed = content(inner)->Ok_0;
        proof {
            lemma_content_leaves(inner);
        }
        self.expect(DOCUMENT_END)?;
        self.parse_tree_push();
        if self.token_vector.len() > 0 {
            return Err(CompileError::ExtraTokens);
        }
        proof {
            assert(self.tree() =~= old(self).tree() + (seq![tokens[0]] + parsed.tree
                + seq![DOCUMENT_END@]));
        }
        let mut semantics = LolcodeSemanticAnalyzer::new();
        semantics.parse_tree = duplicate(&self.parse_tree);
        semantics.semantic_analysis()?;
        self.output = semantics.output.clone();
        proof {
            assert(self.output@ =~= Seq::<char>::empty() + self.output@);
        }
        Ok(())
    }

    /// What stands between the tags that open and close the document.
    fn parse_content(&mut self) -> (r: Result<(), CompileError>)
        ensures
            old(self).tried(final(self), content(old(self).stream()), r),
    {
        let ghost s = self.stream();
        self.parse_comment()?;
        self.parse_head()?;
        self.parse_body()?;
        proof {
            let c = comment(s)->Ok_0;
            let h = head(c.rest)->Ok_0;
            let b = body(h.rest)->Ok_0;
            assert(self.tree() =~= old(self).tree() + ((c.tree + h.tree) + b.tree));
        }
        Ok(())
    }

    /// One construct inside a paragraph, chosen by the current token.
    fn parse_inner_item(&mut self) -> (r: Result<(), CompileError>)
        ensures
            old(self).moved(final(self), inner_item(old(self).stream()), r),
    {
        if !self.at_tag() {
            self.parse_text()
        } else if self.at(VARIABLE_USE) {
            self.parse_variable_use()
        } else if self.at(BOLD_BEGIN) {
            self.parse_bold()
        } else if self.at(ITALICS_BEGIN) {
            self.parse_italics()
        } else if self.at(NEWLINE) {
            self.parse_newline()
        } else if self.at(AUDIO_BEGIN) {
            self.parse_audio()
        } else if self.at(VIDEO_BEGIN) {
            self.parse_video()
        } else if self.at(LIST_BEGIN) {
            self.parse_list()
        } else {
            Err(self.found_instead_of("valid paragraph body token"))
        }
    }

    /// One construct of the body, chosen by the current token.
    fn parse_body_item(&mut self) -> (r: Result<(), CompileError>)
        ensures
            old(self).moved(final(self), body_item(old(self).stream()), r),
    {
        if !self.at_tag() {
            self.parse_text()
        } else if self.at(BOLD_BEGIN) {
            self.parse_bold()
        } else if self.at(ITALICS_BEGIN) {
            self.parse_italics()
        } else if self.at(NEWLINE) {
            self.parse_newline()
        } else if self.at(LIST_BEGIN) {
            self.parse_list()
        } else if self.at(AUDIO_BEGIN) {
            self.parse_audio()
        } else if self.at(VIDEO_BEGIN) {
            self.parse_video()
        } else if self.at(VARIABLE_BEGIN) {
            self.parse_variable_define()
        } else if self.at(VARIABLE_USE) {
            self.parse_variable_use()
        } else if self.at(PARAGRAPH_BEGIN) {
            self.parse_paragraph()
        } else if self.at(COMMENT_BEGIN) {
            self.parse_comment()
        } else {
            Err(self.found_instead_of("valid body token"))
        }
    }
}

} // verus!
