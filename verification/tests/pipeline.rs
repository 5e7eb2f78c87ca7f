use lolcode::{CompileError, Compiler, ErrorKind, LolcodeCompiler};

fn compile(source: &str) -> Result<String, CompileError> {
    let mut compiler = LolcodeCompiler::new();
    compiler.compile(source)
}

#[test]
fn empty_document() {
    assert_eq!(compile("#HAI #KTHXBYE"), Ok("<html></html>".to_string()));
}

#[test]
fn text_and_bold() {
    assert_eq!(
        compile("#HAI Hello #GIMMEH BOLD World #MKAY #KTHXBYE"),
        Ok("<html>Hello <b> World </b></html>".to_string())
    );
}

#[test]
fn text_and_bold_without_the_whitespace() {
    let html = compile("#HAI Hello #GIMMEH BOLD World #MKAY #KTHXBYE").unwrap();
    let packed: String = html.chars().filter(|c| !c.is_whitespace()).collect();
    assert_eq!(packed, "<html>Hello<b>World</b></html>");
}

#[test]
fn variable_defined_and_used() {
    assert_eq!(
        compile("#HAI #I HAZ x #IT IZ 5 #MKAY #LEMME SEE x #MKAY #KTHXBYE"),
        Ok("<html> 5 </html>".to_string())
    );
}

#[test]
fn variable_defined_and_used_without_the_whitespace() {
    let html = compile("#HAI #I HAZ x #IT IZ 5 #MKAY #LEMME SEE x #MKAY #KTHXBYE").unwrap();
    assert_eq!(html.replace(' ', ""), "<html>5</html>");
}

#[test]
fn comment_close_without_open_is_a_syntax_error() {
    let error = compile("#HAI #TLDR #KTHXBYE").unwrap_err();
    assert_eq!(error.kind(), ErrorKind::Syntax);
    assert_eq!(
        error,
        CompileError::Unexpected {
            expected: "valid body token".to_string(),
            found: "#TLDR".to_string()
        }
    );
}

#[test]
fn unknown_tag_is_a_lexical_error() {
    let error = compile("#HAI #FOOBAR #KTHXBYE").unwrap_err();
    assert_eq!(error.kind(), ErrorKind::Lexical);
    match &error {
        CompileError::UnknownTag { token } => assert!(token.starts_with("#FOOBAR")),
        other => panic!("not a lexical error: {:?}", other),
    }
    assert_eq!(error, CompileError::UnknownTag { token: "#FOOBAR #KTHXBYE".to_string() });
    assert_eq!(
        error.message(),
        "lexical error: '#FOOBAR #KTHXBYE' is not a recognized token"
    );
}

#[test]
fn unknown_tag_at_the_end_of_input() {
    assert_eq!(
        compile("#HAI #KTHXBYE #nope"),
        Err(CompileError::UnknownTag { token: "#NOPE".to_string() })
    );
}

#[test]
fn tags_are_case_insensitive() {
    assert_eq!(
        compile("#hai #gimmeh bold x #mkay #kthxbye"),
        Ok("<html><b> x </b></html>".to_string())
    );
}

#[test]
fn whole_document() {
    let source = "#HAI\n\
        #OBTW a remark #TLDR\n\
        #MAEK HEAD\n\
        #GIMMEH TITLE Page #MKAY\n\
        #OIC\n\
        #MAEK PARAGRAF\n\
        one #GIMMEH ITALICS two #MKAY #GIMMEH NEWLINE\n\
        #MAEK LIST #GIMMEH ITEM a #MKAY #GIMMEH ITEM #GIMMEH BOLD b #MKAY #MKAY #OIC\n\
        #OIC\n\
        #GIMMEH SOUNDZ a.mp3 #MKAY\n\
        #GIMMEH VIDZ v.mp4 #MKAY\n\
        #KTHXBYE\n";
    let expected = "<html><!--a remark --><head><title> Page </title></head>\
        <p>\none <i> two </i><br><ul><li> a </li><li><b> b </b></li></ul></p>\
        <audio controls> <source src=\" a.mp3 \"></audio>\
        <iframe src=\" v.mp4 \"/></html>";
    assert_eq!(compile(source), Ok(expected.to_string()));
}

#[test]
fn output_is_kept_by_the_syntax_analyzer() {
    let mut compiler = LolcodeCompiler::new();
    let html = compiler.compile("#HAI hi #KTHXBYE").unwrap();
    assert_eq!(html, "<html>hi </html>");
    assert_eq!(compiler.syntaxer.output, html);
}

#[test]
fn compiling_twice_starts_afresh() {
    let mut compiler = LolcodeCompiler::new();
    assert_eq!(compiler.compile("#HAI one #KTHXBYE"), Ok("<html>one </html>".to_string()));
    assert_eq!(compiler.compile("#HAI two #KTHXBYE"), Ok("<html>two </html>".to_string()));
}

#[test]
fn missing_document_begin() {
    assert_eq!(
        compile("hello #KTHXBYE"),
        Err(CompileError::Unexpected {
            expected: "#HAI".to_string(),
            found: "hello ".to_string()
        })
    );
}

#[test]
fn empty_source_ends_too_early() {
    assert_eq!(compile(""), Err(CompileError::UnexpectedEnd));
    assert_eq!(compile("#HAI"), Err(CompileError::UnexpectedEnd));
    assert_eq!(compile("#HAI #GIMMEH BOLD x"), Err(CompileError::UnexpectedEnd));
}

#[test]
fn tokens_after_the_end() {
    let error = compile("#HAI #KTHXBYE more").unwrap_err();
    assert_eq!(error, CompileError::ExtraTokens);
    assert_eq!(error.kind(), ErrorKind::Syntax);
    assert_eq!(error.message(), "syntax error: extra tokens found after #KTHXBYE");
}

#[test]
fn nested_markup_in_bold_is_refused() {
    assert_eq!(
        compile("#HAI #GIMMEH BOLD #GIMMEH ITALICS x #MKAY #MKAY #KTHXBYE"),
        Err(CompileError::Unexpected {
            expected: "text".to_string(),
            found: "#GIMMEH ITALICS".to_string()
        })
    );
}

#[test]
fn variable_name_with_whitespace() {
    let error = compile("#HAI #I HAZ my var #IT IZ 5 #MKAY #KTHXBYE").unwrap_err();
    assert_eq!(error, CompileError::InvalidVariableName { name: " my var ".to_string() });
    assert_eq!(error.kind(), ErrorKind::Syntax);
    assert_eq!(error.message(), "syntax error:  my var  is an invalid variable name");
}

#[test]
fn undefined_variable() {
    let error = compile("#HAI #LEMME SEE y #MKAY #KTHXBYE").unwrap_err();
    assert_eq!(error, CompileError::UndefinedVariable { name: "y".to_string() });
    assert_eq!(error.kind(), ErrorKind::Semantic);
    assert_eq!(error.message(), "static semantic error: variable y not found in scope");
}

#[test]
fn paragraph_variable_is_visible_inside_its_paragraph() {
    assert_eq!(
        compile("#HAI #MAEK PARAGRAF #I HAZ x #IT IZ in #MKAY #LEMME SEE x #MKAY #OIC #KTHXBYE"),
        Ok("<html><p> in </p></html>".to_string())
    );
}

#[test]
fn paragraph_variable_is_gone_after_its_paragraph() {
    assert_eq!(
        compile(
            "#HAI #MAEK PARAGRAF #I HAZ x #IT IZ in #MKAY #OIC #LEMME SEE x #MKAY #KTHXBYE"
        ),
        Err(CompileError::UndefinedVariable { name: "x".to_string() })
    );
}

#[test]
fn paragraph_variable_is_gone_in_a_later_paragraph() {
    assert_eq!(
        compile(
            "#HAI #MAEK PARAGRAF #I HAZ x #IT IZ in #MKAY #OIC \
             #MAEK PARAGRAF #LEMME SEE x #MKAY #OIC #KTHXBYE"
        ),
        Err(CompileError::UndefinedVariable { name: "x".to_string() })
    );
}

#[test]
fn body_variable_is_visible_in_a_paragraph() {
    assert_eq!(
        compile("#HAI #I HAZ x #IT IZ out #MKAY #MAEK PARAGRAF #LEMME SEE x #MKAY #OIC #KTHXBYE"),
        Ok("<html><p> out </p></html>".to_string())
    );
}

#[test]
fn paragraph_variable_shadows_the_body_variable() {
    assert_eq!(
        compile(
            "#HAI #I HAZ x #IT IZ out #MKAY \
             #MAEK PARAGRAF #I HAZ x #IT IZ in #MKAY #LEMME SEE x #MKAY #OIC \
             #LEMME SEE x #MKAY #KTHXBYE"
        ),
        Ok("<html><p> in </p> out </html>".to_string())
    );
}

#[test]
fn later_definition_wins() {
    assert_eq!(
        compile("#HAI #I HAZ x #IT IZ 1 #MKAY #I HAZ x #IT IZ 2 #MKAY #LEMME SEE x #MKAY #KTHXBYE"),
        Ok("<html> 2 </html>".to_string())
    );
}

#[test]
fn output_is_wrapped_in_html() {
    for source in ["#HAI #KTHXBYE", "#HAI a #GIMMEH NEWLINE b #KTHXBYE"] {
        let html = compile(source).unwrap();
        assert!(html.starts_with("<html>"));
        assert!(html.ends_with("</html>"));
        assert_eq!(html.matches("<html>").count(), 1);
        assert_eq!(html.matches("</html>").count(), 1);
    }
}

#[test]
fn blank_source_has_no_document() {
    assert_eq!(compile(" \n\t "), Err(CompileError::UnexpectedEnd));
}

#[test]
fn markup_in_text_is_not_touched() {
    assert_eq!(
        compile("#HAI <html> & </html> #KTHXBYE"),
        Ok("<html><html> & </html> </html>".to_string())
    );
}

#[test]
fn faults_come_in_three_kinds() {
    assert_eq!(compile("#HAI #WAT #KTHXBYE").unwrap_err().kind(), ErrorKind::Lexical);
    assert_eq!(compile("#HAI #OIC #KTHXBYE").unwrap_err().kind(), ErrorKind::Syntax);
    assert_eq!(compile("#HAI #GIMMEH BOLD").unwrap_err().kind(), ErrorKind::Syntax);
    assert_eq!(compile("#HAI #KTHXBYE #HAI").unwrap_err().kind(), ErrorKind::Syntax);
    let bad_name = compile("#HAI #LEMME SEE a b #MKAY #KTHXBYE").unwrap_err();
    assert_eq!(bad_name.kind(), ErrorKind::Syntax);
    let no_such_name = compile("#HAI #LEMME SEE a #MKAY #KTHXBYE").unwrap_err();
    assert_eq!(no_such_name.kind(), ErrorKind::Semantic);
}

#[test]
fn empty_list_item_is_a_syntax_error() {
    let error = compile("#HAI #MAEK LIST #GIMMEH ITEM #MKAY #OIC #KTHXBYE").unwrap_err();
    assert_eq!(
        error,
        CompileError::Unexpected {
            expected: "valid list item token".to_string(),
            found: "#MKAY".to_string()
        }
    );
    assert_eq!(error.kind(), ErrorKind::Syntax);
    assert_eq!(
        error.message(),
        "syntax error: expected valid list item token but found #MKAY instead"
    );
    assert_eq!(
        compile("#HAI #MAEK LIST #OIC #KTHXBYE"),
        Ok("<html><ul></ul></html>".to_string())
    );
}

#[test]
fn failed_compilation_delivers_no_output() {
    let mut compiler = LolcodeCompiler::new();
    assert!(compiler.compile("#HAI one #KTHXBYE").is_ok());
    assert!(compiler.compile("#HAI two #LEMME SEE x #MKAY #KTHXBYE").is_err());
    assert_eq!(compiler.syntaxer.output, "");
    assert!(compiler.syntaxer.parse_tree.is_empty());
}
