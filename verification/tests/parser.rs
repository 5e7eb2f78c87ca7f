use lolcode::parser::{LolcodeSyntaxAnalyzer, SyntaxAnalyzer};
use lolcode::CompileError;

fn strings(words: &[&str]) -> Vec<String> {
    words.iter().map(|w| w.to_string()).collect()
}

/// An analyzer that has taken `tokens` in, in order.
fn fed(tokens: &[&str]) -> LolcodeSyntaxAnalyzer {
    let mut analyzer = LolcodeSyntaxAnalyzer::new();
    for token in tokens {
        analyzer.grab_token(token.to_string());
    }
    analyzer
}

/// An analyzer in the middle of its work: `tokens[0]` is the current token.
fn reading(tokens: &[&str]) -> LolcodeSyntaxAnalyzer {
    let mut analyzer = LolcodeSyntaxAnalyzer::new();
    analyzer.current_token = tokens[0].to_string();
    analyzer.token_vector = tokens[1..].iter().rev().map(|t| t.to_string()).collect();
    analyzer
}

fn parse(tokens: &[&str]) -> Result<Vec<String>, CompileError> {
    let mut analyzer = fed(tokens);
    analyzer.parse_lolcode()?;
    Ok(analyzer.parse_tree)
}

fn unexpected(expected: &str, found: &str) -> CompileError {
    CompileError::Unexpected { expected: expected.to_string(), found: found.to_string() }
}

#[test]
fn new_analyzer_is_empty() {
    let analyzer = LolcodeSyntaxAnalyzer::new();
    assert!(analyzer.token_vector.is_empty());
    assert!(analyzer.parse_tree.is_empty());
    assert_eq!(analyzer.current_token, "");
    assert_eq!(analyzer.output, "");
}

#[test]
fn grab_token_appends() {
    let analyzer = fed(&["a", "b"]);
    assert_eq!(analyzer.token_vector, strings(&["a", "b"]));
}

#[test]
fn next_token_takes_from_the_back() {
    let mut analyzer = fed(&["a", "b"]);
    assert_eq!(analyzer.next_token(), Ok(()));
    assert_eq!(analyzer.current_token, "b");
    assert_eq!(analyzer.next_token(), Ok(()));
    assert_eq!(analyzer.current_token, "a");
    assert_eq!(analyzer.next_token(), Err(CompileError::UnexpectedEnd));
    assert_eq!(analyzer.current_token, "a");
}

#[test]
fn parse_tree_push_copies_the_current_token() {
    let mut analyzer = reading(&["x", "y"]);
    analyzer.parse_tree_push();
    analyzer.parse_tree_push();
    assert_eq!(analyzer.parse_tree, strings(&["x", "x"]));
    assert_eq!(analyzer.current_token, "x");
}

#[test]
fn smallest_document() {
    assert_eq!(parse(&["#HAI", "#KTHXBYE"]), Ok(strings(&["#HAI", "#KTHXBYE"])));
}

#[test]
fn document_generates_output() {
    let mut analyzer = fed(&["#HAI", "Hello ", "#GIMMEH BOLD", " World ", "#MKAY", "#KTHXBYE"]);
    assert_eq!(analyzer.parse_lolcode(), Ok(()));
    assert_eq!(
        analyzer.parse_tree,
        strings(&["#HAI", "Hello ", "#GIMMEH BOLD", " World ", "#BOLD END", "#KTHXBYE"])
    );
    assert_eq!(analyzer.output, "<html>Hello <b> World </b></html>");
    assert!(analyzer.token_vector.is_empty());
}

#[test]
fn variables_are_flattened_with_bare_names() {
    assert_eq!(
        parse(&[
            "#HAI", "#I HAZ", " x ", "#IT IZ", " 5 ", "#MKAY", "#LEMME SEE", "\tx\n", "#MKAY",
            "#KTHXBYE"
        ]),
        Ok(strings(&[
            "#HAI",
            "#I HAZ",
            "x",
            "#IT IZ",
            " 5 ",
            "#VARIABLE INIT END",
            "#LEMME SEE",
            "x",
            "#VARIABLE USE END",
            "#KTHXBYE"
        ]))
    );
}

#[test]
fn comments_head_and_body() {
    assert_eq!(
        parse(&[
            "#HAI", "#OBTW", "one", "#TLDR", "#OBTW", "two", "#TLDR", "#MAEK HEAD",
            "#GIMMEH TITLE", "t", "#MKAY", "#OIC", "#GIMMEH NEWLINE", "#OBTW", "three", "#TLDR",
            "#KTHXBYE"
        ]),
        Ok(strings(&[
            "#HAI",
            "#OBTW",
            "one",
            "#TLDR",
            "#OBTW",
            "two",
            "#TLDR",
            "#MAEK HEAD",
            "#GIMMEH TITLE",
            "t",
            "#TITLE END",
            "#HEAD END",
            "#GIMMEH NEWLINE",
            "#OBTW",
            "three",
            "#TLDR",
            "#KTHXBYE"
        ]))
    );
}

#[test]
fn paragraph_with_everything() {
    assert_eq!(
        parse(&[
            "#HAI", "#MAEK PARAGRAF", "#I HAZ", "v", "#IT IZ", "1", "#MKAY", "text",
            "#LEMME SEE", "v", "#MKAY", "#GIMMEH BOLD", "b", "#MKAY", "#GIMMEH ITALICS", "i",
            "#MKAY", "#GIMMEH NEWLINE", "#GIMMEH SOUNDZ", "s", "#MKAY", "#GIMMEH VIDZ", "v",
            "#MKAY", "#MAEK LIST", "#GIMMEH ITEM", "item", "#MKAY",
            "#GIMMEH ITEM", "#LEMME SEE", "v", "#MKAY", "#MKAY", "#OIC", "#OIC", "#KTHXBYE"
        ]),
        Ok(strings(&[
            "#HAI",
            "#MAEK PARAGRAF",
            "#I HAZ",
            "v",
            "#IT IZ",
            "1",
            "#VARIABLE INIT END",
            "text",
            "#LEMME SEE",
            "v",
            "#VARIABLE USE END",
            "#GIMMEH BOLD",
            "b",
            "#BOLD END",
            "#GIMMEH ITALICS",
            "i",
            "#ITALICS END",
            "#GIMMEH NEWLINE",
            "#GIMMEH SOUNDZ",
            "s",
            "#AUDIO END",
            "#GIMMEH VIDZ",
            "v",
            "#VIDEO END",
            "#MAEK LIST",
            "#GIMMEH ITEM",
            "item",
            "#LIST ITEM END",
            "#GIMMEH ITEM",
            "#LEMME SEE",
            "v",
            "#VARIABLE USE END",
            "#LIST ITEM END",
            "#LIST END",
            "#PARAGRAPH END",
            "#KTHXBYE"
        ]))
    );
}

#[test]
fn every_opening_has_its_closing() {
    let tree = parse(&[
        "#HAI", "#MAEK PARAGRAF", "#MAEK LIST", "#GIMMEH ITEM", "#GIMMEH BOLD", "b", "#MKAY",
        "#MKAY", "#OIC", "#OIC", "#GIMMEH SOUNDZ", "s", "#MKAY", "#KTHXBYE",
    ])
    .unwrap();
    let pairs = [
        ("#HAI", "#KTHXBYE"),
        ("#OBTW", "#TLDR"),
        ("#MAEK HEAD", "#HEAD END"),
        ("#GIMMEH TITLE", "#TITLE END"),
        ("#MAEK PARAGRAF", "#PARAGRAPH END"),
        ("#GIMMEH BOLD", "#BOLD END"),
        ("#GIMMEH ITALICS", "#ITALICS END"),
        ("#MAEK LIST", "#LIST END"),
        ("#GIMMEH ITEM", "#LIST ITEM END"),
        ("#GIMMEH SOUNDZ", "#AUDIO END"),
        ("#GIMMEH VIDZ", "#VIDEO END"),
        ("#I HAZ", "#VARIABLE INIT END"),
        ("#LEMME SEE", "#VARIABLE USE END"),
    ];
    let mut owed: Vec<&str> = Vec::new();
    for symbol in &tree {
        if let Some((_, close)) = pairs.iter().find(|(open, _)| open == symbol) {
            owed.push(close);
        } else if pairs.iter().any(|(_, close)| close == symbol) {
            assert_eq!(owed.pop(), Some(symbol.as_str()));
        }
    }
    assert!(owed.is_empty());
}

#[test]
fn document_must_begin_with_hai() {
    assert_eq!(parse(&["text", "#KTHXBYE"]), Err(unexpected("#HAI", "text")));
    assert_eq!(parse(&["#KTHXBYE"]), Err(unexpected("#HAI", "#KTHXBYE")));
}

#[test]
fn tokens_must_not_run_out() {
    assert_eq!(parse(&[]), Err(CompileError::UnexpectedEnd));
    assert_eq!(parse(&["#HAI"]), Err(CompileError::UnexpectedEnd));
    assert_eq!(parse(&["#HAI", "text"]), Err(CompileError::UnexpectedEnd));
    assert_eq!(parse(&["#HAI", "#MAEK PARAGRAF", "#OIC"]), Err(CompileError::UnexpectedEnd));
}

#[test]
fn nothing_may_follow_the_end() {
    assert_eq!(parse(&["#HAI", "#KTHXBYE", "more"]), Err(CompileError::ExtraTokens));
    assert_eq!(parse(&["#HAI", "#KTHXBYE", "#KTHXBYE"]), Err(CompileError::ExtraTokens));
}

#[test]
fn body_refuses_other_tags() {
    for tag in ["#TLDR", "#OIC", "#MKAY", "#IT IZ", "#HAI", "#GIMMEH ITEM", "#GIMMEH TITLE"] {
        assert_eq!(
            parse(&["#HAI", tag, "#KTHXBYE"]),
            Err(unexpected("valid body token", tag)),
            "{}",
            tag
        );
    }
}

#[test]
fn head_comes_before_the_body_only() {
    assert_eq!(
        parse(&["#HAI", "text", "#MAEK HEAD", "#GIMMEH TITLE", "t", "#MKAY", "#OIC", "#KTHXBYE"]),
        Err(unexpected("valid body token", "#MAEK HEAD"))
    );
}

#[test]
fn head_needs_a_title_and_its_end() {
    assert_eq!(
        parse(&["#HAI", "#MAEK HEAD", "#OIC", "#KTHXBYE"]),
        Err(unexpected("#GIMMEH TITLE", "#OIC"))
    );
    assert_eq!(
        parse(&["#HAI", "#MAEK HEAD", "#GIMMEH TITLE", "#MKAY", "#OIC", "#KTHXBYE"]),
        Err(unexpected("text", "#MKAY"))
    );
    assert_eq!(
        parse(&["#HAI", "#MAEK HEAD", "#GIMMEH TITLE", "t", "#OIC", "#KTHXBYE"]),
        Err(unexpected("#MKAY", "#OIC"))
    );
    assert_eq!(
        parse(&["#HAI", "#MAEK HEAD", "#GIMMEH TITLE", "t", "#MKAY", "#KTHXBYE"]),
        Err(unexpected("#OIC", "#KTHXBYE"))
    );
}

#[test]
fn comment_needs_text_and_its_end() {
    assert_eq!(parse(&["#HAI", "#OBTW", "#TLDR", "#KTHXBYE"]), Err(unexpected("text", "#TLDR")));
    assert_eq!(
        parse(&["#HAI", "#OBTW", "c", "#KTHXBYE"]),
        Err(unexpected("#TLDR", "#KTHXBYE"))
    );
}

#[test]
fn span_takes_one_text_only() {
    assert_eq!(
        parse(&["#HAI", "#GIMMEH BOLD", "#GIMMEH ITALICS", "x", "#MKAY", "#MKAY", "#KTHXBYE"]),
        Err(unexpected("text", "#GIMMEH ITALICS"))
    );
    assert_eq!(
        parse(&["#HAI", "#GIMMEH ITALICS", "a", "b", "#MKAY", "#KTHXBYE"]),
        Err(unexpected("#MKAY", "b"))
    );
}

#[test]
fn paragraph_refuses_what_the_body_allows() {
    assert_eq!(
        parse(&["#HAI", "#MAEK PARAGRAF", "#MAEK PARAGRAF", "#OIC", "#OIC", "#KTHXBYE"]),
        Err(unexpected("valid paragraph body token", "#MAEK PARAGRAF"))
    );
    assert_eq!(
        parse(&[
            "#HAI", "#MAEK PARAGRAF", "a", "#I HAZ", "x", "#IT IZ", "1", "#MKAY", "#OIC",
            "#KTHXBYE"
        ]),
        Err(unexpected("valid paragraph body token", "#I HAZ"))
    );
    assert_eq!(
        parse(&["#HAI", "#MAEK PARAGRAF", "#OBTW", "c", "#TLDR", "#OIC", "#KTHXBYE"]),
        Err(unexpected("valid paragraph body token", "#OBTW"))
    );
}

#[test]
fn list_holds_items_only() {
    assert_eq!(
        parse(&["#HAI", "#MAEK LIST", "text", "#OIC", "#KTHXBYE"]),
        Err(unexpected("#GIMMEH ITEM", "text"))
    );
    assert_eq!(
        parse(&["#HAI", "#MAEK LIST", "#GIMMEH ITEM", "a", "b", "#MKAY", "#OIC", "#KTHXBYE"]),
        Err(unexpected("#MKAY", "b"))
    );
    assert_eq!(
        parse(&[
            "#HAI", "#MAEK LIST", "#GIMMEH ITEM", "#GIMMEH NEWLINE", "#MKAY", "#OIC", "#KTHXBYE"
        ]),
        Err(unexpected("valid list item token", "#GIMMEH NEWLINE"))
    );
}

#[test]
fn variable_definition_has_a_fixed_form() {
    assert_eq!(
        parse(&["#HAI", "#I HAZ", "#IT IZ", "1", "#MKAY", "#KTHXBYE"]),
        Err(unexpected("text", "#IT IZ"))
    );
    assert_eq!(
        parse(&["#HAI", "#I HAZ", "x", "1", "#MKAY", "#KTHXBYE"]),
        Err(unexpected("#IT IZ", "1"))
    );
    assert_eq!(
        parse(&["#HAI", "#I HAZ", "x", "#IT IZ", "#MKAY", "#KTHXBYE"]),
        Err(unexpected("text", "#MKAY"))
    );
    assert_eq!(
        parse(&["#HAI", "#I HAZ", "x", "#IT IZ", "1", "#KTHXBYE"]),
        Err(unexpected("#MKAY", "#KTHXBYE"))
    );
}

#[test]
fn variable_names_have_no_whitespace_inside() {
    assert_eq!(
        parse(&["#HAI", "#I HAZ", " a b ", "#IT IZ", "1", "#MKAY", "#KTHXBYE"]),
        Err(CompileError::InvalidVariableName { name: " a b ".to_string() })
    );
    assert_eq!(
        parse(&["#HAI", "#LEMME SEE", "a\tb", "#MKAY", "#KTHXBYE"]),
        Err(CompileError::InvalidVariableName { name: "a\tb".to_string() })
    );
    assert_eq!(
        parse(&["#HAI", "#LEMME SEE", "#OIC", "#MKAY", "#KTHXBYE"]),
        Err(unexpected("text", "#OIC"))
    );
}

#[test]
fn semantic_fault_comes_out_of_parse_lolcode() {
    assert_eq!(
        parse(&["#HAI", "#LEMME SEE", "x", "#MKAY", "#KTHXBYE"]),
        Err(CompileError::UndefinedVariable { name: "x".to_string() })
    );
}

#[test]
fn parse_bold_alone() {
    let mut analyzer = reading(&["#GIMMEH BOLD", "x", "#MKAY", "#KTHXBYE"]);
    assert_eq!(analyzer.parse_bold(), Ok(()));
    assert_eq!(analyzer.parse_tree, strings(&["#GIMMEH BOLD", "x", "#BOLD END"]));
    assert_eq!(analyzer.current_token, "#KTHXBYE");
    assert!(analyzer.token_vector.is_empty());

    let mut short = reading(&["#GIMMEH BOLD", "x", "#MKAY"]);
    assert_eq!(short.parse_bold(), Err(CompileError::UnexpectedEnd));
}

#[test]
fn spans_close_with_their_own_marker() {
    let mut analyzer = reading(&["#GIMMEH ITALICS", "x", "#MKAY", "next"]);
    assert_eq!(analyzer.parse_italics(), Ok(()));
    assert_eq!(analyzer.parse_tree, strings(&["#GIMMEH ITALICS", "x", "#ITALICS END"]));

    let mut analyzer = reading(&["#GIMMEH SOUNDZ", "x", "#MKAY", "next"]);
    assert_eq!(analyzer.parse_audio(), Ok(()));
    assert_eq!(analyzer.parse_tree, strings(&["#GIMMEH SOUNDZ", "x", "#AUDIO END"]));

    let mut analyzer = reading(&["#GIMMEH VIDZ", "x", "#MKAY", "next"]);
    assert_eq!(analyzer.parse_video(), Ok(()));
    assert_eq!(analyzer.parse_tree, strings(&["#GIMMEH VIDZ", "x", "#VIDEO END"]));

    let mut analyzer = reading(&["#GIMMEH TITLE", "x", "#MKAY", "next"]);
    assert_eq!(analyzer.parse_title(), Ok(()));
    assert_eq!(analyzer.parse_tree, strings(&["#GIMMEH TITLE", "x", "#TITLE END"]));
    assert_eq!(analyzer.current_token, "next");
}

#[test]
fn optional_productions_may_find_nothing() {
    let mut analyzer = reading(&["text", "more"]);
    assert_eq!(analyzer.parse_head(), Ok(()));
    assert_eq!(analyzer.parse_comment(), Ok(()));
    assert_eq!(analyzer.parse_variable_define(), Ok(()));
    assert!(analyzer.parse_tree.is_empty());
    assert_eq!(analyzer.current_token, "text");
    assert_eq!(analyzer.token_vector, strings(&["more"]));

}

#[test]
fn list_item_holds_exactly_one_construct() {
    let mut analyzer = reading(&["#MKAY", "#OIC", "#KTHXBYE"]);
    assert_eq!(
        analyzer.parse_inner_list(),
        Err(unexpected("valid list item token", "#MKAY"))
    );
    assert!(analyzer.parse_tree.is_empty());
    assert_eq!(
        parse(&["#HAI", "#MAEK LIST", "#GIMMEH ITEM", "#MKAY", "#OIC", "#KTHXBYE"]),
        Err(unexpected("valid list item token", "#MKAY"))
    );
    for item in [
        vec!["text"],
        vec!["#GIMMEH BOLD", "b", "#MKAY"],
        vec!["#GIMMEH ITALICS", "i", "#MKAY"],
        vec!["#LEMME SEE", "v", "#MKAY"],
    ] {
        let mut tokens = item.clone();
        tokens.push("#MKAY");
        let mut analyzer = reading(&tokens);
        assert_eq!(analyzer.parse_inner_list(), Ok(()));
        assert_eq!(analyzer.parse_tree.len(), item.len());
        assert_eq!(analyzer.current_token, "#MKAY");
    }
}

#[test]
fn parse_text_and_newline_take_one_token() {
    let mut analyzer = reading(&["a", "#GIMMEH NEWLINE", "b"]);
    assert_eq!(analyzer.parse_text(), Ok(()));
    assert_eq!(analyzer.parse_newline(), Ok(()));
    assert_eq!(analyzer.parse_tree, strings(&["a", "#GIMMEH NEWLINE"]));
    assert_eq!(analyzer.current_token, "b");
    assert_eq!(analyzer.parse_text(), Err(CompileError::UnexpectedEnd));
}

#[test]
fn parse_body_stops_at_the_end_of_the_document() {
    let mut analyzer = reading(&["a", "#GIMMEH NEWLINE", "#KTHXBYE", "left"]);
    assert_eq!(analyzer.parse_body(), Ok(()));
    assert_eq!(analyzer.parse_tree, strings(&["a", "#GIMMEH NEWLINE"]));
    assert_eq!(analyzer.current_token, "#KTHXBYE");
    assert_eq!(analyzer.token_vector, strings(&["left"]));
}

#[test]
fn parse_list_and_items() {
    let mut analyzer = reading(&["#MAEK LIST", "#GIMMEH ITEM", "a", "#MKAY", "#OIC", "next"]);
    assert_eq!(analyzer.parse_list(), Ok(()));
    assert_eq!(
        analyzer.parse_tree,
        strings(&["#MAEK LIST", "#GIMMEH ITEM", "a", "#LIST ITEM END", "#LIST END"])
    );
    assert_eq!(analyzer.current_token, "next");

    let mut analyzer = reading(&["#OIC", "next"]);
    assert_eq!(analyzer.parse_list_items(), Ok(()));
    assert_eq!(analyzer.parse_tree, strings(&["#LIST END"]));
}

#[test]
fn parse_paragraph_and_its_inside() {
    let mut analyzer = reading(&["#MAEK PARAGRAF", "a", "#OIC", "next"]);
    assert_eq!(analyzer.parse_paragraph(), Ok(()));
    assert_eq!(analyzer.parse_tree, strings(&["#MAEK PARAGRAF", "a", "#PARAGRAPH END"]));
    assert_eq!(analyzer.current_token, "next");

    let mut analyzer = reading(&["a", "b", "#OIC", "next"]);
    assert_eq!(analyzer.parse_inner_text(), Ok(()));
    assert_eq!(analyzer.parse_tree, strings(&["a", "b", "#PARAGRAPH END"]));

    let mut analyzer = reading(&["#OIC", "next"]);
    assert_eq!(analyzer.parse_inner_paragraph(), Ok(()));
    assert_eq!(analyzer.parse_tree, strings(&["#PARAGRAPH END"]));

    let mut analyzer = reading(&["#OIC", "next"]);
    assert_eq!(
        analyzer.parse_inner_text(),
        Err(unexpected("valid paragraph body token", "#OIC"))
    );
}

#[test]
fn parse_variable_use_alone() {
    let mut analyzer = reading(&["#LEMME SEE", " n ", "#MKAY", "next"]);
    assert_eq!(analyzer.parse_variable_use(), Ok(()));
    assert_eq!(analyzer.parse_tree, strings(&["#LEMME SEE", "n", "#VARIABLE USE END"]));
    assert_eq!(analyzer.current_token, "next");
}

#[test]
fn failed_production_leaves_the_parse_sequence_as_it_was() {
    let mut analyzer = reading(&["#GIMMEH BOLD", "x", "#OIC", "#KTHXBYE"]);
    analyzer.parse_tree = strings(&["before"]);
    assert_eq!(analyzer.parse_bold(), Err(unexpected("#MKAY", "#OIC")));
    assert_eq!(analyzer.parse_tree, strings(&["before"]));

    let mut analyzer = reading(&["a", "#GIMMEH BOLD", "#OIC", "#KTHXBYE"]);
    analyzer.parse_tree = strings(&["before"]);
    assert_eq!(analyzer.parse_body(), Err(unexpected("text", "#OIC")));
    assert_eq!(analyzer.parse_tree, strings(&["before"]));

    let mut analyzer = reading(&["#MAEK LIST", "#GIMMEH ITEM", "a", "#MKAY", "b", "#OIC"]);
    assert_eq!(analyzer.parse_list(), Err(unexpected("#GIMMEH ITEM", "b")));
    assert!(analyzer.parse_tree.is_empty());

    let mut analyzer = reading(&["last"]);
    assert_eq!(analyzer.parse_text(), Err(CompileError::UnexpectedEnd));
    assert!(analyzer.parse_tree.is_empty());
}

#[test]
fn refused_tag_appends_nothing() {
    let refused =
        ["#HAI", "#TLDR", "#MKAY", "#OIC", "#IT IZ", "#MAEK HEAD", "#GIMMEH TITLE", "#GIMMEH ITEM"];
    for tag in refused {
        let mut analyzer = reading(&[tag, "#KTHXBYE"]);
        assert_eq!(analyzer.parse_body(), Err(unexpected("valid body token", tag)));
        assert!(analyzer.parse_tree.is_empty());
        assert_eq!(analyzer.output, "");
    }
    let mut analyzer = reading(&["text", "#MAEK HEAD", "#KTHXBYE"]);
    assert_eq!(analyzer.parse_body(), Err(unexpected("valid body token", "#MAEK HEAD")));
    assert!(analyzer.parse_tree.is_empty());
}

#[test]
fn failed_document_delivers_nothing() {
    let mut analyzer = fed(&["#HAI", "#KTHXBYE", "x"]);
    assert_eq!(analyzer.parse_lolcode(), Err(CompileError::ExtraTokens));
    assert_eq!(analyzer.output, "");
    assert!(analyzer.parse_tree.is_empty());

    let mut analyzer = fed(&["#HAI", "written", "#LEMME SEE", "x", "#MKAY", "#KTHXBYE"]);
    analyzer.output = "earlier".to_string();
    analyzer.parse_tree = strings(&["kept"]);
    assert_eq!(
        analyzer.parse_lolcode(),
        Err(CompileError::UndefinedVariable { name: "x".to_string() })
    );
    assert_eq!(analyzer.output, "earlier");
    assert_eq!(analyzer.parse_tree, strings(&["kept"]));
}
