use lolcode::keywords::in_keyword_table;
use lolcode::text::{
    chars_of, contains_whitespace, duplicate, is_blank, reads, reverse, starts_with_hash, string_of,
    trim,
};
use lolcode::{CompileError, Compiler, ErrorKind, LolcodeCompiler, LolcodeSyntaxAnalyzer};

fn strings(words: &[&str]) -> Vec<String> {
    words.iter().map(|w| w.to_string()).collect()
}

/// A compiler whose lexical analyzer holds `tokens`, to be taken in this order.
fn queued(tokens: &[&str]) -> LolcodeCompiler {
    let mut compiler = LolcodeCompiler::new();
    compiler.lexer.tokens = tokens.iter().rev().map(|t| t.to_string()).collect();
    compiler
}

#[test]
fn new_compiler_is_empty() {
    let compiler = LolcodeCompiler::new();
    assert!(compiler.lexer.input.is_empty());
    assert!(compiler.lexer.tokens.is_empty());
    assert_eq!(compiler.current_token(), "");
    assert!(compiler.syntaxer.token_vector.is_empty());
    assert_eq!(compiler.syntaxer.output, "");
}

#[test]
fn current_token_can_be_set() {
    let mut compiler = LolcodeCompiler::new();
    compiler.set_current_token("#HAI".to_string());
    assert_eq!(compiler.current_token(), "#HAI");
    assert_eq!(compiler.current_token, "#HAI");
}

#[test]
fn next_token_takes_tokens_in_order() {
    let mut compiler = queued(&["#HAI", "text", "#KTHXBYE"]);
    assert_eq!(compiler.next_token(), Ok("#HAI".to_string()));
    assert_eq!(compiler.current_token(), "#HAI");
    assert_eq!(compiler.next_token(), Ok("text".to_string()));
    assert_eq!(compiler.next_token(), Ok("#KTHXBYE".to_string()));
    assert_eq!(compiler.current_token(), "#KTHXBYE");
    assert_eq!(compiler.next_token(), Ok(String::new()));
    assert_eq!(compiler.current_token(), "");
}

#[test]
fn next_token_refuses_unknown_tags() {
    let mut compiler = queued(&["#BOLD END", "text"]);
    assert_eq!(
        compiler.next_token(),
        Err(CompileError::UnknownTag { token: "#BOLD END".to_string() })
    );
    let mut compiler = queued(&["#nope"]);
    let error = compiler.next_token().unwrap_err();
    assert_eq!(error, CompileError::UnknownTag { token: "#nope".to_string() });
    assert_eq!(error.kind(), ErrorKind::Lexical);
}

#[test]
fn parse_drops_blank_tokens() {
    let mut compiler = queued(&["#HAI", " ", "\n\t", "a", "#KTHXBYE"]);
    assert_eq!(compiler.parse(), Ok(()));
    assert_eq!(compiler.syntaxer.parse_tree, strings(&["#HAI", "a", "#KTHXBYE"]));
    assert_eq!(compiler.syntaxer.output, "<html>a</html>");
    assert!(compiler.lexer.tokens.is_empty());
}

#[test]
fn parse_stops_taking_at_an_empty_token() {
    let mut compiler = queued(&["#HAI", "#KTHXBYE", "", "left"]);
    assert_eq!(compiler.parse(), Ok(()));
    assert_eq!(compiler.syntaxer.output, "<html></html>");
    assert_eq!(compiler.lexer.tokens, strings(&["left"]));
}

#[test]
fn parse_reports_the_first_fault() {
    let mut compiler = queued(&["#HAI", "#wrong", "#KTHXBYE"]);
    assert_eq!(compiler.parse(), Err(CompileError::UnknownTag { token: "#wrong".to_string() }));
    let mut compiler = queued(&["#HAI", "#OIC", "#KTHXBYE"]);
    assert_eq!(
        compiler.parse(),
        Err(CompileError::Unexpected {
            expected: "valid body token".to_string(),
            found: "#OIC".to_string()
        })
    );
}

#[test]
fn parse_adds_to_what_the_syntax_analyzer_holds() {
    let mut compiler = queued(&["a", "#KTHXBYE"]);
    compiler.syntaxer = LolcodeSyntaxAnalyzer::new();
    compiler.syntaxer.token_vector = strings(&["#HAI"]);
    assert_eq!(compiler.parse(), Ok(()));
    assert_eq!(compiler.syntaxer.output, "<html>a</html>");
}

#[test]
fn messages() {
    let unexpected = CompileError::Unexpected {
        expected: "#MKAY".to_string(),
        found: "#OIC".to_string(),
    };
    assert_eq!(unexpected.message(), "syntax error: expected #MKAY but found #OIC instead");
    assert_eq!(unexpected.kind(), ErrorKind::Syntax);
    assert_eq!(CompileError::UnexpectedEnd.message(), "syntax error: unexpected end of input");
    assert_eq!(CompileError::UnexpectedEnd.kind(), ErrorKind::Syntax);
    assert_eq!(
        CompileError::UnknownTag { token: "#X".to_string() }.message(),
        "lexical error: '#X' is not a recognized token"
    );
}

#[test]
fn trimming() {
    assert_eq!(trim("  a b\t\n"), "a b");
    assert_eq!(trim("a"), "a");
    assert_eq!(trim(" \u{a0}\u{2003}x\u{3000}"), "x");
    assert_eq!(trim(" \n "), "");
    assert_eq!(trim(""), "");
}

#[test]
fn blank_and_whitespace() {
    assert!(is_blank(""));
    assert!(is_blank(" \t\r\n"));
    assert!(!is_blank(" . "));
    assert!(contains_whitespace("a b"));
    assert!(contains_whitespace("a\tb"));
    assert!(contains_whitespace("\n"));
    assert!(!contains_whitespace("ab"));
    assert!(!contains_whitespace(""));
}

#[test]
fn small_helpers() {
    assert!(starts_with_hash("#x"));
    assert!(!starts_with_hash("x#"));
    assert!(!starts_with_hash(""));
    assert!(reads("#HAI", "#HAI"));
    assert!(!reads("#HAI", "#HAI "));
    assert_eq!(chars_of("aé#"), vec!['a', 'é', '#']);
    assert_eq!(string_of(&vec!['a', 'b', 'c', 'd'], 1, 3), "bc");
    assert_eq!(string_of(&vec!['a'], 1, 1), "");
    let mut v = strings(&["1", "2", "3"]);
    assert_eq!(duplicate(&v), v);
    reverse(&mut v);
    assert_eq!(v, strings(&["3", "2", "1"]));
    assert!(in_keyword_table("#I HAZ"));
    assert!(!in_keyword_table("#I"));
}
