use zdtwalk::highlight::{tokenize_dts_line, TokenKind};

fn toks(line: &str) -> Vec<(TokenKind, String)> {
    tokenize_dts_line(line)
}

fn p(k: TokenKind, s: &str) -> (TokenKind, String) {
    (k, s.to_string())
}

#[test]
fn blank_and_comment_lines_are_whole() {
    assert_eq!(toks("   "), vec![p(TokenKind::Plain, "   ")]);
    assert_eq!(toks("  // note"), vec![p(TokenKind::Comment, "  // note")]);
    assert_eq!(toks(" * more"), vec![p(TokenKind::Comment, " * more")]);
    assert_eq!(toks("/dts-v1/;"), vec![p(TokenKind::Keyword, "/dts-v1/;")]);
    assert_eq!(toks("\t};"), vec![p(TokenKind::Dim, "\t};")]);
    assert_eq!(toks("\tfoo;"), vec![p(TokenKind::Plain, "\tfoo;")]);
}

#[test]
fn include_lines_split_keyword_and_path() {
    assert_eq!(
        toks("  #include <a.dtsi>"),
        vec![
            p(TokenKind::Plain, "  "),
            p(TokenKind::IncludeKeyword, "#include"),
            p(TokenKind::IncludePath, " <a.dtsi>"),
        ]
    );
}

#[test]
fn references_end_at_a_space_brace_or_semicolon() {
    assert_eq!(
        toks("&uart0 {"),
        vec![p(TokenKind::Plain, ""), p(TokenKind::Reference, "&uart0"), p(TokenKind::Dim, " {")]
    );
    assert_eq!(toks("&x"), vec![p(TokenKind::Plain, ""), p(TokenKind::Reference, "&x")]);
}

#[test]
fn properties_and_nodes() {
    assert_eq!(
        toks("\tstatus  = \"okay\";"),
        vec![
            p(TokenKind::Plain, "\t"),
            p(TokenKind::PropertyName, "status"),
            p(TokenKind::Plain, " "),
            p(TokenKind::PropertyValue, "= \"okay\";"),
        ]
    );
    assert_eq!(
        toks("  i2c0: i2c@40003000 {{"),
        vec![
            p(TokenKind::Plain, "  "),
            p(TokenKind::NodeName, "i2c0: i2c@40003000"),
            p(TokenKind::Dim, " {"),
        ]
    );
}
