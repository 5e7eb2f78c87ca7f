//! Semantic analysis: from the flattened parse sequence to markup.
//!
//! One pass over the symbols, in order. Each symbol contributes its
//! markup; a variable definition binds a name, a variable use contributes
//! the value that its name is bound to.

use vstd::prelude::*;
use vstd::string::*;
use crate::error::{CompileError, Fault};
use crate::keywords::{
    lemma_vocabulary, AUDIO_BEGIN, AUDIO_END, BOLD_BEGIN, BOLD_END, COMMENT_BEGIN, COMMENT_END,
    DOCUMENT_BEGIN, DOCUMENT_END, HEAD_BEGIN, HEAD_END, ITALICS_BEGIN, ITALICS_END, ITEM_BEGIN,
    ITEM_END, LIST_BEGIN, LIST_END, NEWLINE, PARAGRAPH_BEGIN, PARAGRAPH_END, TITLE_BEGIN, TITLE_END,
    VARIABLE_BEGIN, VARIABLE_INIT_END, VARIABLE_MIDDLE, VARIABLE_USE, VARIABLE_USE_END, VIDEO_BEGIN,
    VIDEO_END,
};
use crate::scope::{Bindings, ScopeChain};
use crate::text::{is_tag, reads, reverse, starts_with_hash, texts};

verus! {

/// The markup that a tag of the parse sequence stands for; nothing for a
/// tag that stands for none.
pub open spec fn markup(tag: Seq<char>) -> Seq<char> {
    if tag == DOCUMENT_BEGIN@ {
        "<html>"@
    } else if tag == BOLD_BEGIN@ {
        "<b>"@
    } else if tag == BOLD_END@ {
        "</b>"@
    } else if tag == ITALICS_BEGIN@ {
        "<i>"@
    } else if tag == ITALICS_END@ {
        "</i>"@
    } else if tag == AUDIO_BEGIN@ {
        "<audio controls> <source src=\""@
    } else if tag == AUDIO_END@ {
        "\"></audio>"@
    } else if tag == VIDEO_BEGIN@ {
        "<iframe src=\""@
    } else if tag == VIDEO_END@ {
        "\"/>"@
    } else if tag == NEWLINE@ {
        "<br>"@
    } else if tag == PARAGRAPH_BEGIN@ {
        "<p>"@
    } else if tag == PARAGRAPH_END@ {
        "</p>"@
    } else if tag == LIST_BEGIN@ {
        "<ul>"@
    } else if tag == ITEM_BEGIN@ {
        "<li>"@
    } else if tag == ITEM_END@ {
        "</li>"@
    } else if tag == LIST_END@ {
        "</ul>"@
    } else if tag == COMMENT_BEGIN@ {
        "<!--"@
    } else if tag == COMMENT_END@ {
        "-->"@
    } else if tag == HEAD_BEGIN@ {
        "<head>"@
    } else if tag == TITLE_BEGIN@ {
        "<title>"@
    } else if tag == TITLE_END@ {
        "</title>"@
    } else if tag == HEAD_END@ {
        "</head>"@
    } else {
        Seq::empty()
    }
}

/// What a symbol contributes by itself: text stands for itself, a tag for its markup.
pub open spec fn piece(symbol: Seq<char>) -> Seq<char> {
    if is_tag(symbol) {
        markup(symbol)
    } else {
        symbol
    }
}

/// The bindings in force after `symbol`: a paragraph opens or closes, or nothing changes.
pub open spec fn past(symbol: Seq<char>, bindings: Bindings) -> Bindings {
    if symbol == PARAGRAPH_BEGIN@ {
        bindings.enter_paragraph()
    } else if symbol == PARAGRAPH_END@ {
        bindings.leave_paragraph()
    } else {
        bindings
    }
}

/// `later`, with `text` written before it.
pub open spec fn written(text: Seq<char>, later: Result<Seq<char>, Fault>) -> Result<
    Seq<char>,
    Fault,
> {
    match later {
        Ok(more) => Ok(text + more),
        Err(fault) => Err(fault),
    }
}

/// The markup of the symbols `t`, read with `bindings` in force, up to and
/// with the end of the document.
///
/// - `#KTHXBYE` closes the document; nothing after it is read.
/// - `#I HAZ` is followed by a name, `#IT IZ`, a value and a closing
///   marker; the five symbols bind the name and contribute nothing.
/// - `#LEMME SEE` is followed by a name and a closing marker; the three
///   symbols contribute the value bound to the name, which must exist.
/// - Any other symbol contributes its [`piece`].
///
/// The symbols must not run out before the document is closed.
pub open spec fn render(t: Seq<Seq<char>>, bindings: Bindings) -> Result<Seq<char>, Fault>
    decreases t.len(),
{
    if t.len() == 0 {
        Err(Fault::UnexpectedEnd)
    } else if t[0] == DOCUMENT_END@ {
        Ok("</html>"@)
    } else if t[0] == VARIABLE_BEGIN@ {
        if t.len() < 6 {
            Err(Fault::UnexpectedEnd)
        } else {
            render(t.skip(5), bindings.define(t[1], t[3]))
        }
    } else if t[0] == VARIABLE_USE@ {
        if t.len() < 2 {
            Err(Fault::UnexpectedEnd)
        } else if bindings.resolve(t[1]) is None {
            Err(Fault::UndefinedVariable { name: t[1] })
        } else if t.len() < 4 {
            Err(Fault::UnexpectedEnd)
        } else {
            written(bindings.resolve(t[1])->0, render(t.skip(3), bindings))
        }
    } else if t.len() < 2 {
        Err(Fault::UnexpectedEnd)
    } else {
        written(piece(t[0]), render(t.drop_first(), past(t[0], bindings)))
    }
}

/// The markup of a whole parse sequence.
pub open spec fn markup_of(tree: Seq<Seq<char>>) -> Result<Seq<char>, Fault> {
    render(tree, Bindings::start())
}

/// `html` is one `<html>` element: it begins with `<html>`, ends with
/// `</html>`, and the two do not overlap.
pub open spec fn wrapped(html: Seq<char>) -> bool {
    &&& html.len() >= "<html>"@.len() + "</html>"@.len()
    &&& html.take("<html>"@.len() as int) == "<html>"@
    &&& html.skip(html.len() - "</html>"@.len()) == "</html>"@
}

/// Whatever is rendered ends with `</html>`.
pub proof fn lemma_render_ends(t: Seq<Seq<char>>, bindings: Bindings)
    requires
        render(t, bindings) is Ok,
    ensures
        render(t, bindings)->Ok_0.len() >= "</html>"@.len(),
        render(t, bindings)->Ok_0.skip(render(t, bindings)->Ok_0.len() - "</html>"@.len())
            == "</html>"@,
    decreases t.len(),
{
    let end = "</html>"@;
    let out = render(t, bindings)->Ok_0;
    if t[0] == DOCUMENT_END@ {
        assert(out.skip(0) =~= out);
    } else if t[0] == VARIABLE_BEGIN@ {
        lemma_render_ends(t.skip(5), bindings.define(t[1], t[3]));
    } else if t[0] == VARIABLE_USE@ {
        lemma_render_ends(t.skip(3), bindings);
        let more = render(t.skip(3), bindings)->Ok_0;
        assert(out.skip(out.len() - end.len()) =~= more.skip(more.len() - end.len()));
    } else {
        lemma_render_ends(t.drop_first(), past(t[0], bindings));
        let more = render(t.drop_first(), past(t[0], bindings))->Ok_0;
        assert(out.skip(out.len() - end.len()) =~= more.skip(more.len() - end.len()));
    }
}

/// The markup of a parse sequence that begins with `#HAI` is one `<html>` element.
pub proof fn lemma_markup_wrapped(tree: Seq<Seq<char>>)
    requires
        tree.len() > 0,
        tree[0] == DOCUMENT_BEGIN@,
        markup_of(tree) is Ok,
    ensures
        wrapped(markup_of(tree)->Ok_0),
{
    lemma_vocabulary();
    let html = markup_of(tree)->Ok_0;
    let more = render(tree.drop_first(), Bindings::start());
    assert(past(tree[0], Bindings::start()) == Bindings::start());
    assert(html == "<html>"@ + more->Ok_0);
    lemma_render_ends(tree.drop_first(), Bindings::start());
    let end = "</html>"@;
    assert(html.take("<html>"@.len() as int) =~= "<html>"@);
    assert(html.skip(html.len() - end.len()) =~= more->Ok_0.skip(more->Ok_0.len() - end.len()));
}

/// How the symbols of a variable definition, of a variable use and of a
/// paragraph's ends act on the bindings.
pub proof fn lemma_render_steps(t: Seq<Seq<char>>, bindings: Bindings)
    requires
        t.len() >= 1,
    ensures
        t[0] == VARIABLE_BEGIN@ && t.len() >= 6 ==> render(t, bindings) == render(
            t.skip(5),
            bindings.define(t[1], t[3]),
        ),
        t[0] == VARIABLE_USE@ && t.len() >= 2 && bindings.resolve(t[1]) is None ==> render(
            t,
            bindings,
        ) == Err::<Seq<char>, Fault>(Fault::UndefinedVariable { name: t[1] }),
        t[0] == VARIABLE_USE@ && t.len() >= 4 && bindings.resolve(t[1]) is Some ==> render(
            t,
            bindings,
        ) == written(bindings.resolve(t[1])->0, render(t.skip(3), bindings)),
        t[0] == PARAGRAPH_BEGIN@ && t.len() >= 2 ==> render(t, bindings) == written(
            "<p>"@,
            render(t.drop_first(), bindings.enter_paragraph()),
        ),
        t[0] == PARAGRAPH_END@ && t.len() >= 2 ==> render(t, bindings) == written(
            "</p>"@,
            render(t.drop_first(), bindings.leave_paragraph()),
        ),
{
    lemma_vocabulary();
}

/// The symbols of a variable definition.
pub open spec fn definition(name: Seq<char>, value: Seq<char>) -> Seq<Seq<char>> {
    seq![VARIABLE_BEGIN@, name, VARIABLE_MIDDLE@, value, VARIABLE_INIT_END@]
}

/// The symbols of a variable use.
pub open spec fn usage(name: Seq<char>) -> Seq<Seq<char>> {
    seq![VARIABLE_USE@, name, VARIABLE_USE_END@]
}

/// A variable is seen by a use that follows its definition in the same
/// scope, be it the body's or a paragraph's: the use writes the value.
pub proof fn lemma_use_after_definition(
    bindings: Bindings,
    name: Seq<char>,
    value: Seq<char>,
    rest: Seq<Seq<char>>,
)
    requires
        rest.len() > 0,
    ensures
        render(definition(name, value) + usage(name) + rest, bindings) == written(
            value,
            render(rest, bindings.define(name, value)),
        ),
{
    let t = definition(name, value) + usage(name) + rest;
    lemma_render_steps(t, bindings);
    lemma_render_steps(t.skip(5), bindings.define(name, value));
    assert(t.skip(5).skip(3) =~= rest);
}

/// A variable defined in the body is seen inside a paragraph that
/// follows: a use there writes the body's value.
pub proof fn lemma_body_variable_in_paragraph(
    bindings: Bindings,
    name: Seq<char>,
    value: Seq<char>,
    rest: Seq<Seq<char>>,
)
    requires
        !bindings.in_paragraph,
        bindings.tidy(),
        rest.len() > 0,
    ensures
        render(
            definition(name, value) + seq![PARAGRAPH_BEGIN@] + usage(name) + rest,
            bindings,
        ) == written(
            "<p>"@ + value,
            render(rest, bindings.define(name, value).enter_paragraph()),
        ),
{
    let t = definition(name, value) + seq![PARAGRAPH_BEGIN@] + usage(name) + rest;
    let defined = bindings.define(name, value);
    lemma_render_steps(t, bindings);
    lemma_render_steps(t.skip(5), defined);
    lemma_render_steps(t.skip(5).drop_first(), defined.enter_paragraph());
    assert(t.skip(5).drop_first().skip(3) =~= rest);
    lemma_written_written("<p>"@, value, render(rest, defined.enter_paragraph()));
}

/// A variable defined in one paragraph and used in the next is a fault,
/// unless the body defines it: with `name` defined inside a paragraph,
/// the paragraph closed, another one opened and `name` used there, the
/// result is the fault of an undefined variable, whatever follows.
pub proof fn lemma_use_in_later_paragraph_fails(
    bindings: Bindings,
    name: Seq<char>,
    value: Seq<char>,
    rest: Seq<Seq<char>>,
)
    requires
        bindings.in_paragraph,
        !bindings.body.contains_key(name),
    ensures
        render(
            definition(name, value) + seq![PARAGRAPH_END@, PARAGRAPH_BEGIN@] + usage(name)
                + rest,
            bindings,
        ) == Err::<Seq<char>, Fault>(Fault::UndefinedVariable { name }),
{
    let t = definition(name, value) + seq![PARAGRAPH_END@, PARAGRAPH_BEGIN@] + usage(name)
        + rest;
    let defined = bindings.define(name, value);
    lemma_render_steps(t, bindings);
    let closing = t.skip(5);
    lemma_render_steps(closing, defined);
    let opening = closing.drop_first();
    lemma_render_steps(opening, defined.leave_paragraph());
    let using = opening.drop_first();
    lemma_render_steps(using, defined.leave_paragraph().enter_paragraph());
}

/// The same in the body: once the paragraph has closed, a use of its
/// variable is a fault, unless the body defines the name.
pub proof fn lemma_use_after_paragraph_fails(
    bindings: Bindings,
    name: Seq<char>,
    value: Seq<char>,
    rest: Seq<Seq<char>>,
)
    requires
        bindings.in_paragraph,
        !bindings.body.contains_key(name),
    ensures
        render(definition(name, value) + seq![PARAGRAPH_END@] + usage(name) + rest, bindings)
            == Err::<Seq<char>, Fault>(Fault::UndefinedVariable { name }),
{
    let t = definition(name, value) + seq![PARAGRAPH_END@] + usage(name) + rest;
    let defined = bindings.define(name, value);
    lemma_render_steps(t, bindings);
    lemma_render_steps(t.skip(5), defined);
    lemma_render_steps(t.skip(5).drop_first(), defined.leave_paragraph());
}

proof fn lemma_written_written(first: Seq<char>, second: Seq<char>, later: Result<Seq<char>, Fault>)
    ensures
        written(first, written(second, later)) == written(first + second, later),
{
    if later is Ok {
        assert(first + (second + later->Ok_0) =~= (first + second) + later->Ok_0);
    }
}

/// The markup that `tag` stands for.
pub fn markup_for(tag: &str) -> (m: &'static str)
    ensures
        m@ == markup(tag@),
{
    if reads(tag, DOCUMENT_BEGIN) {
        "<html>"
    } else if reads(tag, BOLD_BEGIN) {
        "<b>"
    } else if reads(tag, BOLD_END) {
        "</b>"
    } else if reads(tag, ITALICS_BEGIN) {
        "<i>"
    } else if reads(tag, ITALICS_END) {
        "</i>"
    } else if reads(tag, AUDIO_BEGIN) {
        "<audio controls> <source src=\""
    } else if reads(tag, AUDIO_END) {
        "\"></audio>"
    } else if reads(tag, VIDEO_BEGIN) {
        "<iframe src=\""
    } else if reads(tag, VIDEO_END) {
        "\"/>"
    } else if reads(tag, NEWLINE) {
        "<br>"
    } else if reads(tag, PARAGRAPH_BEGIN) {
        "<p>"
    } else if reads(tag, PARAGRAPH_END) {
        "</p>"
    } else if reads(tag, LIST_BEGIN) {
        "<ul>"
    } else if reads(tag, ITEM_BEGIN) {
        "<li>"
    } else if reads(tag, ITEM_END) {
        "</li>"
    } else if reads(tag, LIST_END) {
        "</ul>"
    } else if reads(tag, COMMENT_BEGIN) {
        "<!--"
    } else if reads(tag, COMMENT_END) {
        "-->"
    } else if reads(tag, HEAD_BEGIN) {
        "<head>"
    } else if reads(tag, TITLE_BEGIN) {
        "<title>"
    } else if reads(tag, TITLE_END) {
        "</title>"
    } else if reads(tag, HEAD_END) {
        "</head>"
    } else {
        proof {
            reveal_strlit("");
            assert(""@ =~= Seq::<char>::empty());
        }
        ""
    }
}

/// The pass over the parse sequence, and the moves it is made of.
pub trait SemanticAnalyzer {
    /// Generates the markup of the parse sequence.
    fn semantic_analysis(&mut self) -> Result<(), CompileError>;

    /// Makes the next symbol the current one.
    fn next_token(&mut self) -> Result<(), CompileError>;

    /// Writes the current symbol to the output as it is.
    fn push_output(&mut self);
}

/// A semantic analyzer with its parse sequence and the markup written from it.
pub struct LolcodeSemanticAnalyzer {
    /// The markup written so far.
    pub output: String,
    /// The symbols still to be read. [`SemanticAnalyzer::semantic_analysis`]
    /// takes them first symbol first; while it reads, the next one stands last.
    pub parse_tree: Vec<String>,
    /// The symbol being read.
    pub current_token: String,
}

impl LolcodeSemanticAnalyzer {
    /// The symbols from the current one on, in the order in which they are read.
    pub open spec fn stream(&self) -> Seq<Seq<char>> {
        seq![self.current_token@] + texts(self.parse_tree@).reverse()
    }

    /// An analyzer without symbols and without output.
    pub fn new() -> (analyzer: Self)
        ensures
            analyzer.output@ == Seq::<char>::empty(),
            analyzer.parse_tree@ == Seq::<String>::empty(),
            analyzer.current_token@ == Seq::<char>::empty(),
    {
        LolcodeSemanticAnalyzer {
            output: String::new(),
            parse_tree: Vec::new(),
            current_token: String::new(),
        }
    }

    /// The pass itself; what it wrote stays in the output if it fails.
    fn analysis_steps(&mut self) -> (r: Result<(), CompileError>)
        ensures
            old(self).output@.is_prefix_of(final(self).output@),
            match markup_of(texts(old(self).parse_tree@)) {
                Ok(html) => r is Ok && final(self).output@ == old(self).output@ + html,
                Err(fault) => r is Err && r->Err_0@ == fault,
            },
    {
        let ghost tree = texts(self.parse_tree@);
        reverse(&mut self.parse_tree);
        proof {
            assert(texts(self.parse_tree@) =~= tree.reverse());
            assert(tree.reverse().reverse() =~= tree);
        }
        let mut scopes = ScopeChain::new();
        self.next_token()?;
        let ghost mut done: Seq<char> = Seq::empty();
        proof {
            assert(self.stream() =~= tree);
            assert(self.output@ =~= old(self).output@ + done);
            let whole = render(self.stream(), scopes@);
            assert(whole == written(done, whole)) by {
                if whole is Ok {
                    assert(done + whole->Ok_0 =~= whole->Ok_0);
                }
            }
        }
        loop
            invariant
                self.output@ == old(self).output@ + done,
                markup_of(texts(old(self).parse_tree@)) == written(
                    done,
                    render(self.stream(), scopes@),
                ),
            decreases self.parse_tree@.len(),
        {
            let ghost t = self.stream();
            let ghost b = scopes@;
            if self.at(DOCUMENT_END) {
                self.output.append("</html>");
                proof {
                    assert(self.output@ =~= old(self).output@ + (done + "</html>"@));
                }
                return Ok(());
            } else if self.at(VARIABLE_BEGIN) {
                self.next_token()?;
                assert(self.stream()[0] == t[1]);
                let name = self.current_token.clone();
                self.next_token()?;
                self.next_token()?;
                assert(self.stream()[0] == t[3]);
                let value = self.current_token.clone();
                self.next_token()?;
                self.next_token()?;
                scopes.define(name, value);
                proof {
                    assert(self.stream() =~= t.skip(5));
                }
            } else if self.at(VARIABLE_USE) {
                self.next_token()?;
                assert(self.stream()[0] == t[1]);
                match scopes.resolve(self.current_token.as_str()) {
                    Some(value) => {
                        self.output.append(value.as_str());
                        proof {
                            lemma_written_written(done, value@, render(t.skip(3), b));
                            assert(self.output@ =~= old(self).output@ + (done + value@));
                            done = done + value@;
                        }
                    },
                    None => {
                        return Err(
                            CompileError::UndefinedVariable { name: self.current_token.clone() },
                        );
                    },
                }
                self.next_token()?;
                self.next_token()?;
                proof {
                    assert(self.stream() =~= t.skip(3));
                }
            } else {
                assert(self.stream()[0] == self.current_token@);
                if starts_with_hash(self.current_token.as_str()) {
                    self.output.append(markup_for(self.current_token.as_str()));
                } else {
                    self.push_output();
                }
                if self.at(PARAGRAPH_BEGIN) {
                    scopes.enter_paragraph();
                } else if self.at(PARAGRAPH_END) {
                    scopes.leave_paragraph();
                }
                proof {
                    lemma_written_written(done, piece(t[0]), render(t.drop_first(), past(t[0], b)));
                    assert(self.output@ =~= old(self).output@ + (done + piece(t[0])));
                    done = done + piece(t[0]);
                }
                self.next_token()?;
            }
        }
    }

    /// Whether the current symbol reads `word`.
    fn at(&self, word: &str) -> (b: bool)
        ensures
            b == (self.stream()[0] == word@),
    {
        reads(self.current_token.as_str(), word)
    }
}

impl SemanticAnalyzer for LolcodeSemanticAnalyzer {
    fn next_token(&mut self) -> (r: Result<(), CompileError>)
        ensures
            final(self).output == old(self).output,
            if old(self).stream().len() > 1 {
                &&& r is Ok
                &&& final(self).stream() == old(self).stream().drop_first()
            } else {
                &&& r is Err
                &&& r->Err_0@ == Fault::UnexpectedEnd
                &&& final(self).current_token == old(self).current_token
                &&& final(self).parse_tree@ == old(self).parse_tree@
            },
    {
        match self.parse_tree.pop() {
            Some(symbol) => {
                self.current_token = symbol;
                proof {
                    assert(self.stream() =~= old(self).stream().drop_first());
                }
                Ok(())
            },
            None => Err(CompileError::UnexpectedEnd),
        }
    }

    fn push_output(&mut self)
        ensures
            final(self).output@ == old(self).output@ + old(self).current_token@,
            final(self).parse_tree == old(self).parse_tree,
            final(self).current_token == old(self).current_token,
    {
        self.output.append(self.current_token.as_str());
    }

    fn semantic_analysis(&mut self) -> (r: Result<(), CompileError>)
        ensures
            match markup_of(texts(old(self).parse_tree@)) {
                Ok(html) => r is Ok && final(self).output@ == old(self).output@ + html,
                Err(fault) => {
                    &&& r is Err
                    &&& r->Err_0@ == fault
                    &&& final(self).output == old(self).output
                },
            },
    {
        let before = self.output.clone();
        let r = self.analysis_steps();
        let failed = match &r {
            Ok(_) => false,
            Err(_) => true,
        };
        if failed {
            self.output = before;
        }
        r
    }
}

} // verus!
