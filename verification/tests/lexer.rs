use lolcode::lexer::{read_tag, step_for, LexicalAnalyzer, LolcodeLexicalAnalyzer, Step, TagToken};
use lolcode::CompileError;

/// The tokens of `source` in the order in which they are read.
fn tokens(source: &str) -> Result<Vec<String>, CompileError> {
    let mut lexer = LolcodeLexicalAnalyzer::new(source);
    lexer.tokenize()?;
    let mut tokens = lexer.tokens;
    tokens.reverse();
    Ok(tokens)
}

fn strings(words: &[&str]) -> Vec<String> {
    words.iter().map(|w| w.to_string()).collect()
}

#[test]
fn new_lexer_is_at_the_start() {
    let lexer = LolcodeLexicalAnalyzer::new("#HAI");
    assert_eq!(lexer.input, vec!['#', 'H', 'A', 'I']);
    assert_eq!(lexer.position, 0);
    assert_eq!(lexer.current_build, "");
    assert!(lexer.tokens.is_empty());
}

#[test]
fn tags_and_text() {
    assert_eq!(
        tokens("#HAI Hello #GIMMEH BOLD World #MKAY #KTHXBYE"),
        Ok(strings(&["#HAI", "Hello ", "#GIMMEH BOLD", " World ", "#MKAY", "#KTHXBYE"]))
    );
}

#[test]
fn first_token_stands_last() {
    let mut lexer = LolcodeLexicalAnalyzer::new("#HAI a #KTHXBYE");
    assert_eq!(lexer.tokenize(), Ok(()));
    assert_eq!(lexer.tokens, strings(&["#KTHXBYE", "a ", "#HAI"]));
    assert_eq!(lexer.position, 15);
    assert_eq!(lexer.current_build, "");
}

#[test]
fn two_words_are_one_token() {
    assert_eq!(tokens("#GIMMEH BOLD x"), Ok(strings(&["#GIMMEH BOLD", " x"])));
    assert_eq!(tokens("#I HAZ x"), Ok(strings(&["#I HAZ", " x"])));
    assert_eq!(tokens("#LEMME SEE"), Ok(strings(&["#LEMME SEE"])));
}

#[test]
fn second_word_is_consumed_across_any_whitespace() {
    assert_eq!(tokens("#MAEK   HEAD x"), Ok(strings(&["#MAEK HEAD", " x"])));
    assert_eq!(tokens("#MAEK\n\tLIST\n"), Ok(strings(&["#MAEK LIST", "\n"])));
}

#[test]
fn one_word_tag_leaves_the_next_word_alone() {
    assert_eq!(tokens("#MKAY BOLD"), Ok(strings(&["#MKAY", "BOLD"])));
    assert_eq!(tokens("#OIC #OIC"), Ok(strings(&["#OIC", "#OIC"])));
}

#[test]
fn tags_are_stored_in_upper_case() {
    assert_eq!(
        tokens("#hai #Maek Head #kthxbye"),
        Ok(strings(&["#HAI", "#MAEK HEAD", " ", "#KTHXBYE"]))
    );
}

#[test]
fn text_is_stored_as_written() {
    assert_eq!(tokens("#HAI  MiXed\tCase  é "), Ok(strings(&["#HAI", " MiXed\tCase  é "])));
    assert_eq!(tokens("no tags at all"), Ok(strings(&["no tags at all"])));
}

#[test]
fn whitespace_between_tags_is_a_token() {
    assert_eq!(tokens("#GIMMEH BOLD #MKAY"), Ok(strings(&["#GIMMEH BOLD", " ", "#MKAY"])));
}

#[test]
fn empty_source_has_no_tokens() {
    assert_eq!(tokens(""), Ok(Vec::new()));
}

#[test]
fn unknown_tag_before_whitespace() {
    assert_eq!(
        tokens("#HAI #FOOBAR #KTHXBYE"),
        Err(CompileError::UnknownTag { token: "#FOOBAR #KTHXBYE".to_string() })
    );
    assert_eq!(
        tokens("#foo bar"),
        Err(CompileError::UnknownTag { token: "#FOO BAR".to_string() })
    );
}

#[test]
fn unknown_tag_at_the_end() {
    assert_eq!(
        tokens("#HAI #KTHXBY"),
        Err(CompileError::UnknownTag { token: "#KTHXBY".to_string() })
    );
}

#[test]
fn hash_inside_a_tag_joins_it() {
    assert_eq!(
        tokens("#HAI#KTHXBYE "),
        Err(CompileError::UnknownTag { token: "#HAI#KTHXBYE ".to_string() })
    );
}

#[test]
fn failure_leaves_the_tokens_alone() {
    let mut lexer = LolcodeLexicalAnalyzer::new("#HAI text #NOPE #KTHXBYE");
    lexer.tokens.push("kept".to_string());
    assert!(lexer.tokenize().is_err());
    assert_eq!(lexer.tokens, strings(&["kept"]));
    assert_eq!(lexer.current_build, "");
    assert_eq!(lexer.position, 16);
}

#[test]
fn nul_is_a_character_like_any_other() {
    assert_eq!(tokens("a\0b #OIC \0"), Ok(strings(&["a\0b ", "#OIC", "\0"])));
    assert_eq!(
        tokens("#HAI\0#KTHXBYE"),
        Err(CompileError::UnknownTag { token: "#HAI\0#KTHXBYE".to_string() })
    );
    let mut lexer = LolcodeLexicalAnalyzer::new("#HAI \0 #KTHXBYE");
    assert_eq!(lexer.tokenize(), Ok(()));
    assert_eq!(lexer.tokens, strings(&["#KTHXBYE", "\0 ", "#HAI"]));
    assert_eq!(lexer.position, 15);
}

#[test]
fn tokenize_goes_on_from_what_was_gathered() {
    let mut lexer = LolcodeLexicalAnalyzer::new("b #OIC");
    lexer.add_char('a');
    lexer.tokens.push("first".to_string());
    assert_eq!(lexer.tokenize(), Ok(()));
    assert_eq!(lexer.tokens, strings(&["#OIC", "ab ", "first"]));
}

#[test]
fn get_char_walks_the_input() {
    let mut lexer = LolcodeLexicalAnalyzer::new("ab");
    assert_eq!(lexer.get_char(), 'a');
    assert_eq!(lexer.position, 1);
    assert_eq!(lexer.get_char(), 'b');
    assert_eq!(lexer.get_char(), '\0');
    assert_eq!(lexer.get_char(), '\0');
    assert_eq!(lexer.position, 2);
}

#[test]
fn add_char_appends() {
    let mut lexer = LolcodeLexicalAnalyzer::new("");
    lexer.add_char('#');
    lexer.add_char('x');
    assert_eq!(lexer.current_build, "#x");
}

#[test]
fn lookup_knows_the_keywords() {
    let lexer = LolcodeLexicalAnalyzer::new("");
    for keyword in [
        "#HAI", "#KTHXBYE", "#OBTW", "#TLDR", "#MAEK HEAD", "#OIC", "#GIMMEH TITLE", "#MKAY",
        "#MAEK PARAGRAF", "#GIMMEH BOLD", "#GIMMEH ITALICS", "#MAEK LIST", "#GIMMEH ITEM",
        "#GIMMEH NEWLINE", "#GIMMEH SOUNDZ", "#GIMMEH VIDZ", "#I HAZ", "#IT IZ", "#LEMME SEE",
    ] {
        assert!(lexer.lookup(keyword), "{}", keyword);
    }
    for other in ["", "#", "HAI", "#hai", "#BOLD END", "#MAEK", "#GIMMEH", "#HAI ", "text"] {
        assert!(!lexer.lookup(other), "{}", other);
    }
}

#[test]
fn longer_reading_of_a_tag_wins() {
    assert_eq!(
        read_tag("#GIMMEH".to_string(), "#GIMMEH BOLD".to_string()),
        Ok(TagToken::Two("#GIMMEH BOLD".to_string()))
    );
    assert_eq!(
        read_tag("#OIC".to_string(), "#MAEK HEAD".to_string()),
        Ok(TagToken::Two("#MAEK HEAD".to_string()))
    );
    assert_eq!(
        read_tag("#MKAY".to_string(), "#MKAY WORD".to_string()),
        Ok(TagToken::One("#MKAY".to_string()))
    );
    assert_eq!(
        read_tag("#FOO".to_string(), "#FOO BAR".to_string()),
        Err(CompileError::UnknownTag { token: "#FOO BAR".to_string() })
    );
    assert_eq!(
        read_tag("foo".to_string(), "foo bar".to_string()),
        Err(CompileError::UnknownTag { token: "foo".to_string() })
    );
}

#[test]
fn what_a_character_asks_of_the_scan() {
    assert_eq!(step_for('\0', false, false), Step::Gather);
    assert_eq!(step_for('\0', false, true), Step::Gather);
    assert_eq!(step_for('#', false, false), Step::TagBegin);
    assert_eq!(step_for('#', false, true), Step::TagBegin);
    assert_eq!(step_for(' ', true, true), Step::TagEnd);
    assert_eq!(step_for(' ', true, false), Step::Gather);
    assert_eq!(step_for('a', false, true), Step::Gather);
    assert_eq!(step_for('a', false, false), Step::Gather);
}

#[test]
fn any_whitespace_separates_the_words_of_a_tag() {
    assert_eq!(tokens("#GIMMEH\u{a0}BOLD\u{2003}x"), Ok(strings(&["#GIMMEH BOLD", "\u{2003}x"])));
    assert_eq!(tokens("#OIC\r\n#OIC"), Ok(strings(&["#OIC", "\n", "#OIC"])));
}

#[test]
fn whitespace_alone_is_text() {
    assert_eq!(tokens(" \n "), Ok(strings(&[" \n "])));
}
