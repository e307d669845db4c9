use stakk::lexer::{lex, lex_line, Lexem};

fn chars(s: &str) -> Vec<char> {
    s.chars().collect()
}

fn show(tokens: &[Lexem]) -> Vec<String> {
    tokens
        .iter()
        .map(|t| match t {
            Lexem::Identifier(s) => format!("id:{}", s),
            Lexem::Operator(s) => format!("op:{}", s),
            Lexem::Literal(s) => format!("lit:{}", s),
            Lexem::String(s) => format!("str:{}", s),
            Lexem::Keyword(s) => format!("kw:{}", s),
            Lexem::Separator(s) => format!("sep:{}", s),
            Lexem::Indent => "indent".to_string(),
            Lexem::Dedent => "dedent".to_string(),
        })
        .collect()
}

#[test]
fn words_by_kind() {
    let t = lex_line(&chars("var x + 5 sann abc -12 +7 3,5"));
    assert_eq!(
        show(&t),
        vec!["kw:var", "id:x", "op:+", "lit:5", "lit:sann", "id:abc", "lit:-12", "lit:+7", "id:3,5"]
    );
}

#[test]
fn strings_and_separators() {
    let t = lex_line(&chars("\"a b\" c a:b [x]"));
    assert_eq!(
        show(&t),
        vec!["str:a b", "id:c", "id:a", "sep::", "id:b", "sep:[", "id:x", "sep:]"]
    );
}

#[test]
fn integer_limits() {
    let t = lex_line(&chars("9223372036854775807 9223372036854775808 -9223372036854775808"));
    assert_eq!(
        show(&t),
        vec!["lit:9223372036854775807", "id:9223372036854775808", "lit:-9223372036854775808"]
    );
}

#[test]
fn indentation_opens_and_closes_blocks() {
    let t = lex(&chars("funk f:\n    x\ny\r\n")).unwrap();
    assert_eq!(
        show(&t),
        vec!["kw:funk", "id:f", "sep::", "indent", "id:x", "dedent", "id:y"]
    );
    let t = lex(&chars("a\n\tb")).unwrap();
    assert_eq!(show(&t), vec!["id:a", "indent", "id:b", "dedent"]);
}

#[test]
fn empty_source_has_no_tokens() {
    assert!(lex(&chars("")).unwrap().is_empty());
}
