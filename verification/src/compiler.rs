//! The whole pipeline: source text in, markup out.

use vstd::prelude::*;
use vstd::string::*;
use crate::error::{CompileError, ErrorKind, Fault};
use crate::flow::{fresh, lemma_document_paragraphs_fresh, lemma_document_renders};
use crate::grammar::{document, lemma_document_syntactic};
use crate::keywords::{
    in_keyword_table, is_keyword, lemma_keywords_are_tags, DOCUMENT_BEGIN, DOCUMENT_END,
};
use crate::lexer::{all_clean, clean, lemma_tokens_clean, tokens_of, LolcodeLexicalAnalyzer};
use crate::nesting::{all_interior, lemma_document_frame, lemma_document_well_nested, well_nested};
use crate::parser::{LolcodeSyntaxAnalyzer, SyntaxAnalyzer};
use crate::scope::Bindings;
use crate::semantics::{lemma_markup_wrapped, markup_of, wrapped};
use crate::text::{blank, is_blank, is_tag, lemma_texts_push, starts_with_hash, texts};

verus! {

/// The tokens that reach the syntax analyzer: all but the blank ones.
pub open spec fn significant(tokens: Seq<Seq<char>>) -> Seq<Seq<char>>
    decreases tokens.len(),
{
    if tokens.len() == 0 {
        Seq::empty()
    } else if blank(tokens[0]) {
        significant(tokens.drop_first())
    } else {
        seq![tokens[0]] + significant(tokens.drop_first())
    }
}

/// The markup of a token sequence: the markup of its parse sequence.
pub open spec fn html_of_tokens(tokens: Seq<Seq<char>>) -> Result<Seq<char>, Fault> {
    match document(tokens) {
        Err(fault) => Err(fault),
        Ok(tree) => markup_of(tree),
    }
}

/// The markup of a source text, or the first fault in it.
pub open spec fn html_of(source: Seq<char>) -> Result<Seq<char>, Fault> {
    match tokens_of(source).fault {
        Some(tag) => Err(Fault::UnknownTag { token: tag }),
        None => html_of_tokens(significant(tokens_of(source).tokens)),
    }
}

/// The token at the front of a queue: empty where the queue is, and a
/// fault where a tag stands that the keyword table does not have.
pub open spec fn front(queue: Seq<Seq<char>>) -> Result<Seq<char>, Fault> {
    if queue.len() == 0 {
        Ok(Seq::empty())
    } else if is_tag(queue[0]) && !is_keyword(queue[0]) {
        Err(Fault::UnknownTag { token: queue[0] })
    } else {
        Ok(queue[0])
    }
}

/// What taking tokens from a queue, first token first, hands on.
///
/// A tag outside the keyword table is a fault. An empty token ends the
/// taking. Blank tokens are dropped.
pub open spec fn drained(queue: Seq<Seq<char>>) -> Result<Seq<Seq<char>>, Fault>
    decreases queue.len(),
{
    match front(queue) {
        Err(fault) => Err(fault),
        Ok(token) => if token.len() == 0 {
            Ok(Seq::empty())
        } else if blank(token) {
            drained(queue.drop_first())
        } else {
            handed(seq![token], drained(queue.drop_first()))
        },
    }
}

/// `later`, with `tokens` handed on before it.
pub open spec fn handed(tokens: Seq<Seq<char>>, later: Result<Seq<Seq<char>>, Fault>) -> Result<
    Seq<Seq<char>>,
    Fault,
> {
    match later {
        Ok(more) => Ok(tokens + more),
        Err(fault) => Err(fault),
    }
}

/// From a queue of keywords and runs of text, exactly the tokens that are
/// not blank are handed on.
pub proof fn lemma_drained_clean(queue: Seq<Seq<char>>)
    requires
        all_clean(queue),
    ensures
        drained(queue) == Ok::<Seq<Seq<char>>, Fault>(significant(queue)),
    decreases queue.len(),
{
    if queue.len() > 0 {
        let first = queue[0];
        assert(clean(first));
        if !is_keyword(first) {
            assert(!first.contains('#'));
            if is_tag(first) {
                assert(first.contains(first[0]));
            }
        }
        assert(first.len() > 0) by {
            if is_keyword(first) {
                lemma_keywords_are_tags();
                assert(is_tag(first));
            }
        }
        let rest = queue.drop_first();
        assert forall|i: int| 0 <= i < rest.len() implies clean(
            #[trigger] rest[i],
        ) by {
            assert(rest[i] == queue[i + 1]);
        }
        lemma_drained_clean(rest);
    }
}

/// Blank tokens dropped, keywords and runs of text are still just that.
pub proof fn lemma_significant_clean(tokens: Seq<Seq<char>>)
    requires
        all_clean(tokens),
    ensures
        all_clean(significant(tokens)),
    decreases tokens.len(),
{
    if tokens.len() > 0 {
        let rest = tokens.drop_first();
        assert forall|i: int| 0 <= i < rest.len() implies clean(
            #[trigger] rest[i],
        ) by {
            assert(rest[i] == tokens[i + 1]);
        }
        lemma_significant_clean(rest);
        assert(clean(tokens[0]));
    }
}

/// The markup of a well-formed token sequence is one `<html>` element:
/// `<html>` first, `</html>` last.
pub proof fn lemma_tokens_html_wrapped(tokens: Seq<Seq<char>>)
    requires
        html_of_tokens(tokens) is Ok,
    ensures
        wrapped(html_of_tokens(tokens)->Ok_0),
{
    lemma_markup_wrapped(document(tokens)->Ok_0);
}

/// The markup of a well-formed document is one `<html>` element that
/// holds the whole output: `<html>` first, `</html>` last.
pub proof fn lemma_html_wrapped(source: Seq<char>)
    requires
        html_of(source) is Ok,
    ensures
        wrapped(html_of(source)->Ok_0),
{
    lemma_tokens_html_wrapped(significant(tokens_of(source).tokens));
}

/// The parse sequence of a well-formed document is well nested: each
/// construct that it opens has exactly one closing marker, later in the
/// sequence, and reading the sequence with a stack never finds the stack
/// empty, or another marker on top, when a closing marker comes.
pub proof fn lemma_source_well_nested(source: Seq<char>)
    requires
        tokens_of(source).fault is None,
        document(significant(tokens_of(source).tokens)) is Ok,
    ensures
        well_nested(document(significant(tokens_of(source).tokens))->Ok_0),
{
    lemma_tokens_clean(source);
    lemma_significant_clean(tokens_of(source).tokens);
    lemma_document_well_nested(significant(tokens_of(source).tokens));
}

/// A well-formed document is opened once and closed once: its parse
/// sequence begins with `#HAI`, the one symbol that stands for `<html>`,
/// ends with `#KTHXBYE`, at which `</html>` is written, and holds
/// neither of the two anywhere in between.
pub proof fn lemma_source_frame(source: Seq<char>)
    requires
        tokens_of(source).fault is None,
        document(significant(tokens_of(source).tokens)) is Ok,
    ensures
        ({
            let tree = document(significant(tokens_of(source).tokens))->Ok_0;
            &&& tree.len() >= 2
            &&& tree.first() == DOCUMENT_BEGIN@
            &&& tree.last() == DOCUMENT_END@
            &&& all_interior(tree.subrange(1, tree.len() - 1))
        }),
{
    lemma_tokens_clean(source);
    lemma_significant_clean(tokens_of(source).tokens);
    lemma_document_frame(significant(tokens_of(source).tokens));
}

/// The pipeline as a whole.
/// The faults of a source are of three kinds, one for each stage: a tag
/// outside the keyword table where lexical analysis fails, a syntax
/// error where syntax analysis fails, and a variable that is not defined
/// where semantic analysis fails. There is no other fault.
pub proof fn lemma_faults_of_source(source: Seq<char>)
    requires
        html_of(source) is Err,
    ensures
        ({
            let fault = html_of(source)->Err_0;
            let scanned = tokens_of(source);
            let parsed = document(significant(scanned.tokens));
            if scanned.fault is Some {
                &&& fault == (Fault::UnknownTag { token: scanned.fault->0 })
                &&& fault.kind() == ErrorKind::Lexical
            } else if parsed is Err {
                &&& fault == parsed->Err_0
                &&& fault.kind() == ErrorKind::Syntax
            } else {
                &&& fault is UndefinedVariable
                &&& fault.kind() == ErrorKind::Semantic
            }
        }),
{
    let scanned = tokens_of(source);
    if scanned.fault is None {
        let tokens = significant(scanned.tokens);
        if document(tokens) is Err {
            lemma_document_syntactic(tokens);
        } else {
            lemma_document_renders(tokens);
        }
    }
}

/// In a well-formed document every paragraph, however many came before
/// it, starts with an empty scope of its own: no paragraph opens inside
/// another, and what a paragraph defined is gone when it has closed.
pub proof fn lemma_source_paragraphs_fresh(source: Seq<char>)
    requires
        tokens_of(source).fault is None,
        document(significant(tokens_of(source).tokens)) is Ok,
    ensures
        fresh(document(significant(tokens_of(source).tokens))->Ok_0, Bindings::start()),
{
    lemma_document_paragraphs_fresh(significant(tokens_of(source).tokens));
}

pub trait Compiler {
    /// Compiles `source` to markup.
    fn compile(&mut self, source: &str) -> Result<String, CompileError>;

    /// Takes the next token from the lexical analyzer.
    fn next_token(&mut self) -> Result<String, CompileError>;

    /// Hands the lexical analyzer's tokens to the syntax analyzer and runs it.
    fn parse(&mut self) -> Result<(), CompileError>;

    /// The token taken last.
    fn current_token(&self) -> String;

    /// Replaces the token taken last.
    fn set_current_token(&mut self, tok: String);
}

/// A compiler: a lexical analyzer, a syntax analyzer, and the token that
/// passed from the one to the other last.
pub struct LolcodeCompiler {
    pub lexer: LolcodeLexicalAnalyzer,
    pub current_token: String,
    pub syntaxer: LolcodeSyntaxAnalyzer,
}

impl LolcodeCompiler {
    /// The lexical analyzer's tokens, in the order in which they are taken.
    pub open spec fn queue(&self) -> Seq<Seq<char>> {
        texts(self.lexer.tokens@).reverse()
    }

    /// A compiler that has seen no source yet: a lexical analyzer at the
    /// start of an empty input, a syntax analyzer without tokens, and no
    /// token taken.
    pub fn new() -> (compiler: Self)
        ensures
            compiler.lexer.input@ == Seq::<char>::empty(),
            compiler.lexer.position == 0,
            compiler.lexer.current_build@ == Seq::<char>::empty(),
            compiler.lexer.tokens@ == Seq::<String>::empty(),
            compiler.queue() == Seq::<Seq<char>>::empty(),
            compiler.current_token@ == Seq::<char>::empty(),
            compiler.syntaxer.token_vector@ == Seq::<String>::empty(),
            compiler.syntaxer.parse_tree@ == Seq::<String>::empty(),
            compiler.syntaxer.current_token@ == Seq::<char>::empty(),
            compiler.syntaxer.output@ == Seq::<char>::empty(),
    {
        let lexer = LolcodeLexicalAnalyzer::new("");
        proof {
            reveal_strlit("");
            assert(texts(lexer.tokens@).reverse() =~= Seq::<Seq<char>>::empty());
            assert(lexer.input@ =~= Seq::<char>::empty());
        }
        LolcodeCompiler {
            lexer,
            current_token: String::new(),
            syntaxer: LolcodeSyntaxAnalyzer::new(),
        }
    }
}

impl Compiler for LolcodeCompiler {
    fn compile(&mut self, source: &str) -> (r: Result<String, CompileError>)
        ensures
            match html_of(source@) {
                Ok(html) => r is Ok && r->Ok_0@ == html && final(self).syntaxer.output@ == html,
                Err(fault) => r is Err && r->Err_0@ == fault,
            },
            r is Ok ==> wrapped(r->Ok_0@),
            r is Err ==> final(self).syntaxer.output@ == Seq::<char>::empty(),
            r is Err ==> r->Err_0@ is UnknownTag || r->Err_0@.kind() == ErrorKind::Syntax
                || r->Err_0@ is UndefinedVariable,
    {
        proof {
            if html_of(source@) is Ok {
                lemma_html_wrapped(source@);
            } else {
                lemma_faults_of_source(source@);
            }
        }
        self.lexer = LolcodeLexicalAnalyzer::new(source);
        self.syntaxer = LolcodeSyntaxAnalyzer::new();
        self.lexer.tokenize()?;
        proof {
            let tokens = tokens_of(source@).tokens;
            lemma_tokens_clean(source@);
            lemma_drained_clean(tokens);
            assert(texts(Seq::<String>::empty()) + tokens =~= tokens);
            assert(self.queue() == tokens);
            assert(self.syntaxer.tree() =~= Seq::<Seq<char>>::empty());
            assert(texts(self.syntaxer.token_vector@) + significant(tokens) =~= significant(
                tokens,
            ));
            if document(significant(tokens)) is Ok {
                let tree = document(significant(tokens))->Ok_0;
                assert(self.syntaxer.tree() + tree =~= tree);
            }
        }
        self.parse()?;
        Ok(self.syntaxer.output.clone())
    }

    fn next_token(&mut self) -> (r: Result<String, CompileError>)
        ensures
            final(self).syntaxer == old(self).syntaxer,
            final(self).lexer.input == old(self).lexer.input,
            final(self).lexer.position == old(self).lexer.position,
            final(self).lexer.current_build == old(self).lexer.current_build,
            final(self).queue() == if old(self).queue().len() > 0 {
                old(self).queue().drop_first()
            } else {
                old(self).queue()
            },
            match front(old(self).queue()) {
                Ok(token) => {
                    &&& r is Ok
                    &&& r->Ok_0@ == token
                    &&& final(self).current_token@ == token
                },
                Err(fault) => {
                    &&& r is Err
                    &&& r->Err_0@ == fault
                    &&& final(self).current_token == old(self).current_token
                },
            },
    {
        match self.lexer.tokens.pop() {
            Some(candidate) => {
                proof {
                    assert(self.queue() =~= old(self).queue().drop_first());
                    assert(old(self).queue()[0] == candidate@);
                }
                if in_keyword_table(candidate.as_str()) || !starts_with_hash(candidate.as_str()) {
                    self.current_token = candidate.clone();
                    Ok(candidate)
                } else {
                    Err(CompileError::UnknownTag { token: candidate })
                }
            },
            None => {
                self.current_token = String::new();
                Ok(String::new())
            },
        }
    }

    fn parse(&mut self) -> (r: Result<(), CompileError>)
        ensures
            r is Err ==> final(self).syntaxer.output == old(self).syntaxer.output,
            match drained(old(self).queue()) {
                Err(fault) => r is Err && r->Err_0@ == fault,
                Ok(tokens) => match document(texts(old(self).syntaxer.token_vector@) + tokens) {
                    Err(fault) => r is Err && r->Err_0@ == fault,
                    Ok(tree) => match markup_of(old(self).syntaxer.tree() + tree) {
                        Ok(html) => r is Ok && final(self).syntaxer.output@ == html,
                        Err(fault) => r is Err && r->Err_0@ == fault,
                    },
                },
            },
    {
        let ghost mut taken: Seq<Seq<char>> = Seq::empty();
        proof {
            let whole = drained(self.queue());
            assert(whole == handed(taken, whole)) by {
                if whole is Ok {
                    assert(taken + whole->Ok_0 =~= whole->Ok_0);
                }
            }
            assert(texts(self.syntaxer.token_vector@) =~= texts(old(self).syntaxer.token_vector@)
                + taken);
        }
        while self.lexer.tokens.len() > 0
            invariant_except_break
                drained(old(self).queue()) == handed(taken, drained(self.queue())),
            invariant
                self.syntaxer.parse_tree == old(self).syntaxer.parse_tree,
                self.syntaxer.output == old(self).syntaxer.output,
                texts(self.syntaxer.token_vector@) == texts(old(self).syntaxer.token_vector@)
                    + taken,
            ensures
                drained(old(self).queue()) == handed(taken, Ok(Seq::empty())),
                self.syntaxer.parse_tree == old(self).syntaxer.parse_tree,
                self.syntaxer.output == old(self).syntaxer.output,
                texts(self.syntaxer.token_vector@) == texts(old(self).syntaxer.token_vector@)
                    + taken,
            decreases self.lexer.tokens@.len(),
        {
            let ghost queue = self.queue();
            let token = self.next_token()?;
            if token.as_str().is_empty() {
                break ;
            }
            if is_blank(token.as_str()) {
                continue ;
            }
            proof {
                lemma_texts_push(self.syntaxer.token_vector@, token);
                let more = drained(queue.drop_first());
                if more is Ok {
                    assert(taken + (seq![token@] + more->Ok_0) =~= taken.push(token@)
                        + more->Ok_0);
                }
                assert(texts(old(self).syntaxer.token_vector@) + taken.push(token@) =~= (texts(
                    old(self).syntaxer.token_vector@,
                ) + taken).push(token@));
                taken = taken.push(token@);
            }
            self.syntaxer.grab_token(token);
        }
        proof {
            assert(taken + Seq::<Seq<char>>::empty() =~= taken);
        }
        self.syntaxer.parse_lolcode()
    }

    fn current_token(&self) -> (token: String)
        ensures
            token@ == self.current_token@,
    {
        self.current_token.clone()
    }

    fn set_current_token(&mut self, tok: String)
        ensures
            final(self).current_token == tok,
            final(self).lexer == old(self).lexer,
            final(self).syntaxer == old(self).syntaxer,
    {
        self.current_token = tok;
    }
}

} // verus!
