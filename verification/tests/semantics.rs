use lolcode::scope::{Scope, ScopeChain};
use lolcode::semantics::{markup_for, LolcodeSemanticAnalyzer, SemanticAnalyzer};
use lolcode::CompileError;

fn generate(tree: &[&str]) -> Result<String, CompileError> {
    let mut analyzer = LolcodeSemanticAnalyzer::new();
    analyzer.parse_tree = tree.iter().map(|s| s.to_string()).collect();
    analyzer.semantic_analysis()?;
    Ok(analyzer.output)
}

#[test]
fn new_semantic_analyzer_is_empty() {
    let analyzer = LolcodeSemanticAnalyzer::new();
    assert_eq!(analyzer.output, "");
    assert!(analyzer.parse_tree.is_empty());
    assert_eq!(analyzer.current_token, "");
}

#[test]
fn every_symbol_has_its_markup() {
    let table = [
        ("#HAI", "<html>"),
        ("#GIMMEH BOLD", "<b>"),
        ("#BOLD END", "</b>"),
        ("#GIMMEH ITALICS", "<i>"),
        ("#ITALICS END", "</i>"),
        ("#GIMMEH NEWLINE", "<br>"),
        ("#MAEK PARAGRAF", "<p>"),
        ("#PARAGRAPH END", "</p>"),
        ("#MAEK LIST", "<ul>"),
        ("#LIST END", "</ul>"),
        ("#GIMMEH ITEM", "<li>"),
        ("#LIST ITEM END", "</li>"),
        ("#OBTW", "<!--"),
        ("#TLDR", "-->"),
        ("#MAEK HEAD", "<head>"),
        ("#HEAD END", "</head>"),
        ("#GIMMEH TITLE", "<title>"),
        ("#TITLE END", "</title>"),
        ("#GIMMEH SOUNDZ", "<audio controls> <source src=\""),
        ("#AUDIO END", "\"></audio>"),
        ("#GIMMEH VIDZ", "<iframe src=\""),
        ("#VIDEO END", "\"/>"),
    ];
    for (symbol, markup) in table {
        assert_eq!(markup_for(symbol), markup);
        assert_eq!(
            generate(&["#HAI", symbol, "#KTHXBYE"]),
            Ok(format!("<html>{}</html>", markup)),
            "{}",
            symbol
        );
    }
    assert_eq!(markup_for("#OIC"), "");
    assert_eq!(markup_for("text"), "");
}

#[test]
fn text_is_written_as_it_is() {
    assert_eq!(
        generate(&["#HAI", " a <b> & ", "#KTHXBYE"]),
        Ok("<html> a <b> & </html>".to_string())
    );
}

#[test]
fn other_tags_write_nothing() {
    assert_eq!(
        generate(&["#HAI", "#OIC", "a", "#MKAY", "#IT IZ", "#NOPE", "#KTHXBYE"]),
        Ok("<html>a</html>".to_string())
    );
}

#[test]
fn nothing_is_read_after_the_end() {
    assert_eq!(
        generate(&["#HAI", "#KTHXBYE", "junk", "#LEMME SEE", "x"]),
        Ok("<html></html>".to_string())
    );
    assert_eq!(generate(&["#KTHXBYE"]), Ok("</html>".to_string()));
}

#[test]
fn symbols_must_not_run_out() {
    assert_eq!(generate(&[]), Err(CompileError::UnexpectedEnd));
    assert_eq!(generate(&["#HAI"]), Err(CompileError::UnexpectedEnd));
    assert_eq!(generate(&["#HAI", "text"]), Err(CompileError::UnexpectedEnd));
    assert_eq!(
        generate(&["#HAI", "#I HAZ", "x", "#IT IZ", "1", "#VARIABLE INIT END"]),
        Err(CompileError::UnexpectedEnd)
    );
    assert_eq!(generate(&["#HAI", "#LEMME SEE"]), Err(CompileError::UnexpectedEnd));
}

#[test]
fn output_is_appended() {
    let mut analyzer = LolcodeSemanticAnalyzer::new();
    analyzer.output = "before".to_string();
    analyzer.parse_tree = vec!["#HAI".to_string(), "#KTHXBYE".to_string()];
    assert_eq!(analyzer.semantic_analysis(), Ok(()));
    assert_eq!(analyzer.output, "before<html></html>");
}

#[test]
fn definition_and_use() {
    assert_eq!(
        generate(&[
            "#HAI",
            "#I HAZ",
            "x",
            "#IT IZ",
            " <5> ",
            "#VARIABLE INIT END",
            "a",
            "#LEMME SEE",
            "x",
            "#VARIABLE USE END",
            "b",
            "#KTHXBYE"
        ]),
        Ok("<html>a <5> b</html>".to_string())
    );
}

#[test]
fn use_before_definition_fails() {
    assert_eq!(
        generate(&[
            "#HAI",
            "#LEMME SEE",
            "x",
            "#VARIABLE USE END",
            "#I HAZ",
            "x",
            "#IT IZ",
            "1",
            "#VARIABLE INIT END",
            "#KTHXBYE"
        ]),
        Err(CompileError::UndefinedVariable { name: "x".to_string() })
    );
}

#[test]
fn names_are_read_by_position() {
    assert_eq!(
        generate(&[
            "#HAI",
            "#I HAZ",
            "#KTHXBYE",
            "#IT IZ",
            "v",
            "#VARIABLE INIT END",
            "#LEMME SEE",
            "#KTHXBYE",
            "#VARIABLE USE END",
            "#KTHXBYE"
        ]),
        Ok("<html>v</html>".to_string())
    );
}

#[test]
fn scope_closes_with_the_paragraph() {
    let define = ["#I HAZ", "x", "#IT IZ", "in", "#VARIABLE INIT END"];
    let show = ["#LEMME SEE", "x", "#VARIABLE USE END"];
    let mut tree = vec!["#HAI", "#MAEK PARAGRAF"];
    tree.extend(define);
    tree.extend(show);
    tree.push("#PARAGRAPH END");
    tree.push("#MAEK PARAGRAF");
    tree.extend(show);
    tree.push("#PARAGRAPH END");
    tree.push("#KTHXBYE");
    assert_eq!(generate(&tree), Err(CompileError::UndefinedVariable { name: "x".to_string() }));
}

#[test]
fn next_token_and_push_output() {
    let mut analyzer = LolcodeSemanticAnalyzer::new();
    analyzer.parse_tree = vec!["b".to_string(), "a".to_string()];
    assert_eq!(analyzer.next_token(), Ok(()));
    assert_eq!(analyzer.current_token, "a");
    analyzer.push_output();
    assert_eq!(analyzer.next_token(), Ok(()));
    analyzer.push_output();
    analyzer.push_output();
    assert_eq!(analyzer.output, "abb");
    assert_eq!(analyzer.next_token(), Err(CompileError::UnexpectedEnd));
    assert_eq!(analyzer.current_token, "b");
}

#[test]
fn scope_keeps_the_last_binding() {
    let mut scope = Scope::new();
    assert_eq!(scope.lookup("x"), None);
    scope.define("x".to_string(), "1".to_string());
    scope.define("y".to_string(), "2".to_string());
    assert_eq!(scope.lookup("x"), Some("1".to_string()));
    scope.define("x".to_string(), "3".to_string());
    assert_eq!(scope.lookup("x"), Some("3".to_string()));
    assert_eq!(scope.lookup("y"), Some("2".to_string()));
    assert_eq!(scope.lookup("X"), None);
    scope.clear();
    assert_eq!(scope.lookup("x"), None);
    assert_eq!(scope.lookup("y"), None);
}

#[test]
fn chain_resolves_paragraph_first() {
    let mut chain = ScopeChain::new();
    chain.define("x".to_string(), "body".to_string());
    chain.define("y".to_string(), "body y".to_string());
    assert_eq!(chain.resolve("x"), Some("body".to_string()));
    chain.enter_paragraph();
    assert_eq!(chain.resolve("x"), Some("body".to_string()));
    chain.define("x".to_string(), "paragraph".to_string());
    chain.define("z".to_string(), "paragraph z".to_string());
    assert_eq!(chain.resolve("x"), Some("paragraph".to_string()));
    assert_eq!(chain.resolve("y"), Some("body y".to_string()));
    assert_eq!(chain.resolve("z"), Some("paragraph z".to_string()));
    chain.leave_paragraph();
    assert_eq!(chain.resolve("x"), Some("body".to_string()));
    assert_eq!(chain.resolve("z"), None);
    chain.enter_paragraph();
    assert_eq!(chain.resolve("x"), Some("body".to_string()));
    assert_eq!(chain.resolve("z"), None);
}

#[test]
fn failed_analysis_writes_nothing() {
    let mut analyzer = LolcodeSemanticAnalyzer::new();
    analyzer.output = "before".to_string();
    analyzer.parse_tree =
        ["#HAI", "text", "#LEMME SEE", "x", "#VARIABLE USE END", "#KTHXBYE"]
            .iter()
            .map(|s| s.to_string())
            .collect();
    assert_eq!(
        analyzer.semantic_analysis(),
        Err(CompileError::UndefinedVariable { name: "x".to_string() })
    );
    assert_eq!(analyzer.output, "before");

    let mut analyzer = LolcodeSemanticAnalyzer::new();
    analyzer.parse_tree = vec!["#HAI".to_string(), "text".to_string()];
    assert_eq!(analyzer.semantic_analysis(), Err(CompileError::UnexpectedEnd));
    assert_eq!(analyzer.output, "");
}
