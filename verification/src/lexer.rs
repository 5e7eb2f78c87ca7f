//! Lexical analysis: from characters to tokens.
//!
//! A token is either a tag, which begins with `#` and is stored in upper
//! case, or a run of text, stored as written. A tag is one or two words
//! long; where both readings are in the keyword table the longer one wins.

use vstd::prelude::*;
use vstd::string::*;
use crate::error::{CompileError, Fault};
use crate::keywords::{in_keyword_table, is_keyword};
use crate::text::{
    chars_of, is_tag, is_whitespace, lemma_texts_push, push_char, reverse, starts_with_hash,
    string_of, texts, to_upper, upper, whitespace,
};

verus! {

/// What scanning a stretch of input yields.
pub struct Scan {
    /// The tokens recognized, in source order.
    pub tokens: Seq<Seq<char>>,
    /// The tag that is not in the keyword table, if scanning met one.
    pub fault: Option<Seq<char>>,
    /// Where scanning stopped.
    pub position: nat,
}

impl Scan {
    /// The same outcome, reached after `earlier` had been recognized.
    pub open spec fn after(self, earlier: Seq<Seq<char>>) -> Scan {
        Scan { tokens: earlier + self.tokens, fault: self.fault, position: self.position }
    }
}

/// The length of the run of whitespace that starts at `from`.
pub open spec fn gap(input: Seq<char>, from: nat) -> nat
    decreases input.len() - from,
{
    if from < input.len() && whitespace(input[from as int]) {
        1 + gap(input, from + 1)
    } else {
        0
    }
}

/// The length of the run of non-whitespace that starts at `from`.
pub open spec fn word_len(input: Seq<char>, from: nat) -> nat
    decreases input.len() - from,
{
    if from < input.len() && !whitespace(input[from as int]) {
        1 + word_len(input, from + 1)
    } else {
        0
    }
}

/// Where the word that follows the whitespace at `from` begins.
pub open spec fn next_word_start(input: Seq<char>, from: nat) -> nat {
    from + gap(input, from)
}

/// Where that word ends.
pub open spec fn next_word_end(input: Seq<char>, from: nat) -> nat {
    next_word_start(input, from) + word_len(input, next_word_start(input, from))
}

/// The word that follows the whitespace at `from`; empty at the end of input.
pub open spec fn next_word(input: Seq<char>, from: nat) -> Seq<char> {
    input.subrange(next_word_start(input, from) as int, next_word_end(input, from) as int)
}

/// The two-word reading of a tag: its first word, a space, and the word
/// after it, in upper case.
pub open spec fn two_words(first: Seq<char>, second: Seq<char>) -> Seq<char> {
    upper(first + seq![' '] + second)
}

/// What the end of input makes of the characters gathered so far.
pub open spec fn flush(build: Seq<char>, in_tag: bool, position: nat) -> Scan {
    if build.len() == 0 {
        Scan { tokens: Seq::empty(), fault: None, position }
    } else if !in_tag {
        Scan { tokens: seq![build], fault: None, position }
    } else if is_keyword(upper(build)) {
        Scan { tokens: seq![upper(build)], fault: None, position }
    } else {
        Scan { tokens: Seq::empty(), fault: Some(upper(build)), position }
    }
}

/// What one character asks of the scan.
#[derive(Debug, Clone, Copy, PartialEq, Eq, Structural)]
pub enum Step {
    /// `#`: a tag begins.
    TagBegin,
    /// Whitespace inside a tag: the tag ends.
    TagEnd,
    /// Anything else, whitespace outside a tag too: it joins what is gathered.
    Gather,
}

/// What the character `c` asks of the scan, `space` saying whether it is
/// whitespace and `in_tag` whether a tag is being gathered.
pub open spec fn step(c: char, space: bool, in_tag: bool) -> Step {
    if c == '#' {
        Step::TagBegin
    } else if space && in_tag {
        Step::TagEnd
    } else {
        Step::Gather
    }
}

/// How a tag that whitespace has ended is read.
pub enum Reading {
    /// The tag and the word after it are one keyword.
    Two(Seq<char>),
    /// The tag alone is a keyword.
    One(Seq<char>),
    /// Neither is in the keyword table; the text is what is reported.
    Unknown(Seq<char>),
}

/// How a tag is read, `single` being the tag in upper case and `pair` the
/// tag with the word after it. The longer reading is tried first. Where
/// both fail the longer one is reported, as long as it is a tag.
pub open spec fn reading(single: Seq<char>, pair: Seq<char>) -> Reading {
    if is_keyword(pair) {
        Reading::Two(pair)
    } else if is_keyword(single) {
        Reading::One(single)
    } else if is_tag(pair) {
        Reading::Unknown(pair)
    } else {
        Reading::Unknown(single)
    }
}

/// Scanning `input` from `position` on, with `build` gathered so far for a
/// tag (`in_tag`) or for a run of text.
///
/// - The end of input ends the scan.
/// - `#` begins a tag; text gathered before it becomes a token.
/// - Whitespace ends a tag. If the tag and the next word together are a
///   keyword, they are the token and the scan goes on behind the word;
///   else, if the tag alone is a keyword, it is the token and the scan
///   goes on behind the whitespace character; else the scan stops there.
/// - Anything else, whitespace outside a tag too, joins what is gathered.
pub open spec fn scan(input: Seq<char>, position: nat, build: Seq<char>, in_tag: bool) -> Scan
    decreases input.len() - position,
    via scan_terminates
{
    if position >= input.len() {
        flush(build, in_tag, position)
    } else {
        let c = input[position as int];
        match step(c, whitespace(c), in_tag) {
            Step::TagBegin => {
                let text = if build.len() > 0 && !in_tag {
                    seq![build]
                } else {
                    Seq::empty()
                };
                let tag = if in_tag {
                    build.push('#')
                } else {
                    seq!['#']
                };
                scan(input, position + 1, tag, true).after(text)
            },
            Step::TagEnd => match reading(
                upper(build),
                two_words(build, next_word(input, position + 1)),
            ) {
                Reading::Two(token) => scan(
                    input,
                    next_word_end(input, position + 1),
                    Seq::empty(),
                    false,
                ).after(seq![token]),
                Reading::One(token) => scan(input, position + 1, Seq::empty(), false).after(
                    seq![token],
                ),
                Reading::Unknown(tag) => Scan {
                    tokens: Seq::empty(),
                    fault: Some(tag),
                    position: position + 1,
                },
            },
            Step::Gather => scan(input, position + 1, build.push(c), in_tag),
        }
    }
}

#[via_fn]
proof fn scan_terminates(input: Seq<char>, position: nat, build: Seq<char>, in_tag: bool) {
    if position < input.len() {
        lemma_next_word_in_bounds(input, position + 1);
    }
}

/// The tokens of a whole source text.
pub open spec fn tokens_of(source: Seq<char>) -> Scan {
    scan(source, 0, Seq::empty(), false)
}

/// The longer reading of a tag wins. Where whitespace ends a tag and the
/// tag with the word after it is in the keyword table, the two words are
/// one token and the scan goes on behind the second word, whether or not
/// the tag alone is in the table too.
pub proof fn lemma_two_words_win(input: Seq<char>, position: nat, build: Seq<char>)
    requires
        position < input.len(),
        step(input[position as int], whitespace(input[position as int]), true) == Step::TagEnd,
        is_keyword(two_words(build, next_word(input, position + 1))),
    ensures
        scan(input, position, build, true) == scan(
            input,
            next_word_end(input, position + 1),
            Seq::empty(),
            false,
        ).after(seq![two_words(build, next_word(input, position + 1))]),
        scan(input, position, build, true).tokens.len() > 0,
        scan(input, position, build, true).tokens[0] == two_words(
            build,
            next_word(input, position + 1),
        ),
        next_word_end(input, position + 1) == position + 1 + gap(input, position + 1)
            + next_word(input, position + 1).len(),
{
    lemma_next_word_in_bounds(input, position + 1);
}

/// A run of text as the scan yields it: not empty, and free of `#`.
pub open spec fn plain(token: Seq<char>) -> bool {
    token.len() > 0 && !token.contains('#')
}

/// A token as the scan yields it: a keyword or a run of text.
pub open spec fn clean(token: Seq<char>) -> bool {
    is_keyword(token) || plain(token)
}

/// Every token is a keyword or a run of text.
pub open spec fn all_clean(tokens: Seq<Seq<char>>) -> bool {
    forall|i: int| 0 <= i < tokens.len() ==> clean(#[trigger] tokens[i])
}

/// The scan yields keywords and runs of text, nothing else.
pub proof fn lemma_scan_clean(input: Seq<char>, position: nat, build: Seq<char>, in_tag: bool)
    requires
        !in_tag ==> !build.contains('#'),
    ensures
        all_clean(scan(input, position, build, in_tag).tokens),
    decreases input.len() - position,
{
    if position < input.len() {
        let c = input[position as int];
        match step(c, whitespace(c), in_tag) {
            Step::TagBegin => {
                let tag = if in_tag {
                    build.push('#')
                } else {
                    seq!['#']
                };
                lemma_scan_clean(input, position + 1, tag, true);
            },
            Step::TagEnd => {
                lemma_next_word_in_bounds(input, position + 1);
                lemma_scan_clean(input, next_word_end(input, position + 1), Seq::empty(), false);
                lemma_scan_clean(input, position + 1, Seq::empty(), false);
            },
            Step::Gather => {
                let longer = build.push(c);
                if !in_tag {
                    assert forall|i: int| 0 <= i < longer.len() implies longer[i] != '#' by {
                        if i < build.len() {
                            assert(build.contains(build[i]));
                        }
                    }
                }
                lemma_scan_clean(input, position + 1, longer, in_tag);
            },
        }
    }
}

/// The tokens of a source are keywords and runs of text.
pub proof fn lemma_tokens_clean(source: Seq<char>)
    ensures
        all_clean(tokens_of(source).tokens),
{
    lemma_scan_clean(source, 0, Seq::empty(), false);
}

proof fn lemma_after_after(s: Scan, first: Seq<Seq<char>>, second: Seq<Seq<char>>)
    ensures
        s.after(second).after(first) == s.after(first + second),
{
    assert(first + (second + s.tokens) =~= (first + second) + s.tokens);
}

/// The next word lies inside the input.
pub proof fn lemma_next_word_in_bounds(input: Seq<char>, from: nat)
    requires
        from <= input.len(),
    ensures
        from <= next_word_start(input, from) <= next_word_end(input, from) <= input.len(),
{
    lemma_gap_in_bounds(input, from);
    lemma_word_in_bounds(input, next_word_start(input, from));
}

proof fn lemma_gap_in_bounds(input: Seq<char>, from: nat)
    requires
        from <= input.len(),
    ensures
        from + gap(input, from) <= input.len(),
    decreases input.len() - from,
{
    if from < input.len() && whitespace(input[from as int]) {
        lemma_gap_in_bounds(input, from + 1);
    }
}

proof fn lemma_word_in_bounds(input: Seq<char>, from: nat)
    requires
        from <= input.len(),
    ensures
        from + word_len(input, from) <= input.len(),
    decreases input.len() - from,
{
    if from < input.len() && !whitespace(input[from as int]) {
        lemma_word_in_bounds(input, from + 1);
    }
}

/// What the character `c` asks of the scan.
pub fn step_for(c: char, space: bool, in_tag: bool) -> (s: Step)
    ensures
        s == step(c, space, in_tag),
{
    if c == '#' {
        Step::TagBegin
    } else if space && in_tag {
        Step::TagEnd
    } else {
        Step::Gather
    }
}

/// A tag as it was read: the token, and whether the word after the tag is part of it.
#[derive(Debug, Clone, PartialEq, Eq)]
pub enum TagToken {
    Two(String),
    One(String),
}

/// Reads a tag that whitespace has ended, `single` being the tag in
/// upper case and `pair` the tag with the word after it.
pub fn read_tag(single: String, pair: String) -> (r: Result<TagToken, CompileError>)
    ensures
        match reading(single@, pair@) {
            Reading::Two(token) => r matches Ok(TagToken::Two(t)) && t@ == token,
            Reading::One(token) => r matches Ok(TagToken::One(t)) && t@ == token,
            Reading::Unknown(tag) => r matches Err(e) && e@ == (Fault::UnknownTag { token: tag }),
        },
{
    if in_keyword_table(pair.as_str()) {
        Ok(TagToken::Two(pair))
    } else if in_keyword_table(single.as_str()) {
        Ok(TagToken::One(single))
    } else if starts_with_hash(pair.as_str()) {
        Err(CompileError::UnknownTag { token: pair })
    } else {
        Err(CompileError::UnknownTag { token: single })
    }
}

/// The operations on which tokenizing rests.
pub trait LexicalAnalyzer {
    /// Returns the next character of the input and moves past it; NUL once
    /// the input is exhausted.
    fn get_char(&mut self) -> char;

    /// Adds a character to the token being gathered.
    fn add_char(&mut self, c: char);

    /// Whether `s` is in the keyword table.
    fn lookup(&self, s: &str) -> bool;
}

/// A lexical analyzer with its input and what it has made of it so far.
pub struct LolcodeLexicalAnalyzer {
    /// The source text.
    pub input: Vec<char>,
    /// How many characters of the input have been read.
    pub position: usize,
    /// The characters gathered for the token in the making.
    pub current_build: String,
    /// The tokens recognized. After [`tokenize`](Self::tokenize) the first
    /// token of the source stands last.
    pub tokens: Vec<String>,
}

impl LexicalAnalyzer for LolcodeLexicalAnalyzer {
    fn get_char(&mut self) -> (c: char)
        ensures
            final(self).input == old(self).input,
            final(self).current_build == old(self).current_build,
            final(self).tokens == old(self).tokens,
            if old(self).position < old(self).input@.len() {
                &&& c == old(self).input@[old(self).position as int]
                &&& final(self).position == old(self).position + 1
            } else {
                &&& c == '\0'
                &&& final(self).position == old(self).position
            },
    {
        if self.position < self.input.len() {
            let c = self.input[self.position];
            self.position = self.position + 1;
            c
        } else {
            '\0'
        }
    }

    fn add_char(&mut self, c: char)
        ensures
            final(self).current_build@ == old(self).current_build@.push(c),
            final(self).input == old(self).input,
            final(self).position == old(self).position,
            final(self).tokens == old(self).tokens,
    {
        push_char(&mut self.current_build, c);
    }

    fn lookup(&self, s: &str) -> (r: bool)
        ensures
            r == is_keyword(s@),
    {
        in_keyword_table(s)
    }
}

impl LolcodeLexicalAnalyzer {
    /// An analyzer at the start of `source`, with nothing recognized yet.
    pub fn new(source: &str) -> (lexer: Self)
        ensures
            lexer.input@ == source@,
            lexer.position == 0,
            lexer.current_build@ == Seq::<char>::empty(),
            lexer.tokens@ == Seq::<String>::empty(),
    {
        LolcodeLexicalAnalyzer {
            input: chars_of(source),
            position: 0,
            current_build: String::new(),
            tokens: Vec::new(),
        }
    }

    /// What [`tokenize`](Self::tokenize) makes of the input that is left.
    pub open spec fn remaining_scan(&self) -> Scan {
        scan(self.input@, self.position as nat, self.current_build@, false)
    }

    /// Finds the word after the whitespace that starts at the current
    /// position, without consuming anything. Returns the word and where it ends.
    fn peek_word(&self) -> (r: (String, usize))
        requires
            self.position <= self.input@.len(),
        ensures
            r.0@ == next_word(self.input@, self.position as nat),
            r.1 == next_word_end(self.input@, self.position as nat),
            r.1 <= self.input@.len(),
    {
        let n: usize = self.input.len();
        let mut from: usize = self.position;
        while from < n && is_whitespace(self.input[from])
            invariant
                n == self.input@.len(),
                self.position <= from <= n,
                next_word_start(self.input@, self.position as nat) == from + gap(
                    self.input@,
                    from as nat,
                ),
            decreases n - from,
        {
            from = from + 1;
        }
        let mut to: usize = from;
        while to < n && !is_whitespace(self.input[to])
            invariant
                n == self.input@.len(),
                from <= to <= n,
                from == next_word_start(self.input@, self.position as nat),
                next_word_end(self.input@, self.position as nat) == to + word_len(
                    self.input@,
                    to as nat,
                ),
            decreases n - to,
        {
            to = to + 1;
        }
        (string_of(&self.input, from, to), to)
    }

    /// Cuts the rest of the input into tokens, adds them to `tokens` and
    /// turns `tokens` around, so that the first token of the source stands
    /// last and is the first to be taken from the back.
    ///
    /// Fails at the first tag that the keyword table does not have, and then
    /// leaves `tokens` as it was. Every token added is a keyword or a run of
    /// text, as long as no `#` had been gathered before by hand.
    pub fn tokenize(&mut self) -> (r: Result<(), CompileError>)
        ensures
            final(self).input == old(self).input,
            !old(self).current_build@.contains('#') ==> all_clean(
                old(self).remaining_scan().tokens,
            ),
            final(self).position == old(self).remaining_scan().position,
            final(self).current_build@ == Seq::<char>::empty(),
            match old(self).remaining_scan().fault {
                None => r is Ok && texts(final(self).tokens@).reverse() == texts(
                    old(self).tokens@,
                ) + old(self).remaining_scan().tokens,
                Some(tag) => r is Err && r->Err_0@ == (Fault::UnknownTag { token: tag })
                    && final(self).tokens == old(self).tokens,
            },
    {
        let ghost goal = self.remaining_scan();
        proof {
            if !self.current_build@.contains('#') {
                lemma_scan_clean(self.input@, self.position as nat, self.current_build@, false);
            }
        }
        let mut found: Vec<String> = Vec::new();
        let mut in_tag = false;
        assert(goal == scan(self.input@, self.position as nat, self.current_build@, in_tag).after(
            texts(found@),
        )) by {
            assert(texts(found@) + goal.tokens =~= goal.tokens);
        }
        loop
            invariant
                self.input == old(self).input,
                self.tokens == old(self).tokens,
                goal == old(self).remaining_scan(),
                !old(self).current_build@.contains('#') ==> all_clean(goal.tokens),
                goal == scan(
                    self.input@,
                    self.position as nat,
                    self.current_build@,
                    in_tag,
                ).after(texts(found@)),
            decreases self.input@.len() - self.position,
        {
            let ghost here = scan(self.input@, self.position as nat, self.current_build@, in_tag);
            let ghost before = texts(found@);
            if self.position >= self.input.len() {
                let ghost last = flush(self.current_build@, in_tag, self.position as nat);
                assert(here == last);
                if self.current_build.as_str().is_empty() {
                    assert(before + last.tokens =~= before);
                } else if !in_tag {
                    let text = self.take_build();
                    proof {
                        lemma_texts_push(found@, text);
                        assert(before + last.tokens =~= before.push(text@));
                    }
                    found.push(text);
                } else {
                    let tag = to_upper(self.current_build.as_str());
                    self.current_build = String::new();
                    if !in_keyword_table(tag.as_str()) {
                        return Err(CompileError::UnknownTag { token: tag });
                    }
                    proof {
                        lemma_texts_push(found@, tag);
                        assert(before + last.tokens =~= before.push(tag@));
                    }
                    found.push(tag);
                }
                self.tokens.append(&mut found);
                reverse(&mut self.tokens);
                proof {
                    let all = old(self).tokens@ + found@;
                    assert(texts(all) =~= texts(old(self).tokens@) + texts(found@));
                    assert(texts(all.reverse()).reverse() =~= texts(all));
                }
                return Ok(());
            }
            let c = self.get_char();
            match step_for(c, is_whitespace(c), in_tag) {
                Step::TagBegin => {
                    let ghost tag = if in_tag {
                        self.current_build@.push('#')
                    } else {
                        seq!['#']
                    };
                    let ghost rest = scan(self.input@, self.position as nat, tag, true);
                    if !self.current_build.as_str().is_empty() && !in_tag {
                        let text = self.take_build();
                        proof {
                            lemma_texts_push(found@, text);
                            lemma_after_after(rest, before, seq![text@]);
                            assert(before + seq![text@] =~= before.push(text@));
                        }
                        found.push(text);
                    } else {
                        proof {
                            lemma_after_after(rest, before, Seq::empty());
                            assert(before + Seq::<Seq<char>>::empty() =~= before);
                        }
                    }
                    self.add_char(c);
                    assert(self.current_build@ =~= tag);
                    in_tag = true;
                },
                Step::TagEnd => {
                    let ahead = self.peek_word();
                    let word = ahead.0;
                    let word_end: usize = ahead.1;
                    let ghost tag = self.current_build@;
                    let single = to_upper(self.current_build.as_str());
                    let mut both = self.take_build();
                    both.append(" ");
                    both.append(word.as_str());
                    let pair = to_upper(both.as_str());
                    proof {
                        reveal_strlit(" ");
                        assert(" "@ =~= seq![' ']);
                        assert(pair@ == two_words(tag, word@));
                    }
                    let token = match read_tag(single, pair)? {
                        TagToken::Two(token) => {
                            proof {
                                let rest = scan(self.input@, word_end as nat, Seq::empty(), false);
                                lemma_after_after(rest, before, seq![token@]);
                            }
                            self.position = word_end;
                            token
                        },
                        TagToken::One(token) => {
                            proof {
                                let rest = scan(
                                    self.input@,
                                    self.position as nat,
                                    Seq::empty(),
                                    false,
                                );
                                lemma_after_after(rest, before, seq![token@]);
                            }
                            token
                        },
                    };
                    proof {
                        lemma_texts_push(found@, token);
                        assert(before + seq![token@] =~= before.push(token@));
                    }
                    found.push(token);
                    in_tag = false;
                },
                Step::Gather => {
                    self.add_char(c);
                },
            }
        }
    }

    /// Hands out what has been gathered and starts afresh.
    fn take_build(&mut self) -> (text: String)
        ensures
            text@ == old(self).current_build@,
            final(self).current_build@ == Seq::<char>::empty(),
            final(self).input == old(self).input,
            final(self).position == old(self).position,
            final(self).tokens == old(self).tokens,
    {
        let text = self.current_build.clone();
        self.current_build = String::new();
        text
    }
}

} // verus!
