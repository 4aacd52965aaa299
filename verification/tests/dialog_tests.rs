use viceptica::dialog::parse::{DialogTokenizer, Token, TokenType};

fn tokens(source: &str) -> Vec<Token> {
    DialogTokenizer::new(source.to_string()).tokenize()
}

fn describe(t: &Token) -> String {
    format!("{:?}@{}", t.kind, t.line)
}

fn described(source: &str) -> Vec<String> {
    tokens(source).iter().map(describe).collect()
}

#[test]
fn keywords_strings_and_identifiers() {
    assert_eq!(
        described("character \"Bob\"\nshow Bob left\n"),
        vec!["Character@1", "String(\"Bob\")@1", "Show@2", "Identifier(\"Bob\")@2", "Left@4", "End@4"]
    );
}

#[test]
fn every_keyword() {
    let got = described("bottom character choice enter expr goto hide left right show top wait x");
    assert_eq!(
        got,
        vec![
            "Bottom@1", "Character@1", "Choice@1", "Enter@1", "Expr@1", "Goto@1", "Hide@1", "Left@1", "Right@1",
            "Show@1", "Top@1", "Wait@1", "Identifier(\"x\")@1", "End@2"
        ]
    );
}

#[test]
fn number_at_end_of_input_is_dropped() {
    assert_eq!(described("wait 30"), vec!["Wait@1", "End@2"]);
    assert_eq!(described("wait 30\n"), vec!["Wait@1", "End@3"]);
}

#[test]
fn number_takes_the_line_it_ends_on() {
    assert_eq!(described("wait 30\nhide"), vec!["Wait@1", "Number(30)@2", "Hide@3", "End@3"]);
}

#[test]
fn minus_and_number() {
    assert_eq!(described("-5 x"), vec!["Minus@1", "Number(5)@1", "Identifier(\"x\")@1", "End@2"]);
}

#[test]
fn largest_number_and_overflow() {
    assert_eq!(
        described("2147483647 x"),
        vec!["Number(2147483647)@1", "Identifier(\"x\")@1", "End@2"]
    );
    assert_eq!(described("2147483648 x"), vec!["End@1"]);
    assert_eq!(described("99999999999 x"), vec!["End@1"]);
}

#[test]
fn leading_zeros() {
    assert_eq!(described("007 x"), vec!["Number(7)@1", "Identifier(\"x\")@1", "End@2"]);
}

#[test]
fn comment_skips_the_rest_of_the_line() {
    assert_eq!(described("// hello\ngoto end"), vec!["Goto@2", "Identifier(\"end\")@2", "End@3"]);
}

#[test]
fn lone_slash_stops_the_tokenizer() {
    assert_eq!(described("a / b"), vec!["Identifier(\"a\")@1", "End@1"]);
}

#[test]
fn punctuation() {
    assert_eq!(described("{#:}"), vec!["LeftBrace@1", "Tag@1", "Colon@1", "RightBrace@1", "End@2"]);
}

#[test]
fn empty_first_line_stops_at_once() {
    assert_eq!(described("\nshow"), vec!["End@1"]);
    assert_eq!(described(""), vec!["End@1"]);
}

#[test]
fn identifier_continues_on_the_next_line() {
    assert_eq!(described("ab\ncd"), vec!["Identifier(\"abcd\")@1", "End@3"]);
}

#[test]
fn single_letter_identifier_ends_with_its_line() {
    assert_eq!(described("a\ncd"), vec!["Identifier(\"a\")@1", "Identifier(\"cd\")@2", "End@3"]);
}

#[test]
fn keyword_prefix_of_a_word() {
    assert_eq!(described("bottomless"), vec!["Bottom@1", "Identifier(\"less\")@1", "End@2"]);
}

#[test]
fn underscores_continue_identifiers() {
    assert_eq!(described("ab_c x"), vec!["Identifier(\"ab_c\")@1", "Identifier(\"x\")@1", "End@2"]);
}

#[test]
fn unicode_whitespace_is_trimmed() {
    assert_eq!(described("\u{3000}show\u{a0}"), vec!["Show@2", "End@2"]);
    assert_eq!(described("\u{2003}\u{85}hide\u{2029}"), vec!["Hide@2", "End@2"]);
}

#[test]
fn trimming_agrees_with_std() {
    let samples = ["\u{1680} top \u{202f}", "\t\u{b}top\u{c}\r", "\u{205f}top\u{2028}"];
    for sample in samples.iter() {
        assert_eq!(described(sample), described(sample.trim()));
    }
}

#[test]
fn trimmed_lines_read_alike() {
    let source = "  show Bob\t\n\u{a0}character \"Al\" \n\n wait 3 \n";
    let trimmed: Vec<&str> = source.split('\n').map(|l| l.trim()).collect();
    let joined = trimmed.join("\n");
    assert_eq!(joined, "show Bob\ncharacter \"Al\"\n\nwait 3\n");
    assert_eq!(described(source), described(&joined));
}

#[test]
fn tab_between_tokens() {
    assert_eq!(described("hide\tleft"), vec!["Hide@1", "Left@2", "End@2"]);
}

#[test]
fn quoted_texts() {
    assert_eq!(
        described("'hi there' x"),
        vec!["String(\"hi there\")@1", "Identifier(\"x\")@1", "End@2"]
    );
    assert_eq!(described("'a\" x"), vec!["String(\"a\")@1", "Identifier(\"x\")@1", "End@2"]);
}

#[test]
fn unterminated_text_stops_the_tokenizer() {
    assert_eq!(described("\"abc"), vec!["End@2"]);
}

#[test]
fn text_continues_on_the_next_line() {
    assert_eq!(described("\"ab\ncd\""), vec!["String(\"abcd\")@1", "End@3"]);
}

#[test]
fn number_token_value() {
    let ts = tokens("12345 x");
    match ts[0].kind {
        TokenType::Number(n) => assert_eq!(n, 12345),
        _ => panic!("expected a number"),
    }
    assert_eq!(ts[0].line, 1);
}

#[test]
fn token_lines_never_decrease() {
    let ts = tokens("show a\n\n\nhide b\n'x'\nright\n");
    for pair in ts.windows(2) {
        assert!(pair[0].line <= pair[1].line);
    }
    assert!(matches!(ts.last().unwrap().kind, TokenType::End));
}

#[test]
fn tokenizing_stops_or_is_refused() {
    let got: Vec<String> = DialogTokenizer::new("show Bob\nhide Bob".to_string()).try_tokenize().unwrap().iter().map(describe).collect();
    assert_eq!(got, described("show Bob\nhide Bob"));
    let quoted = "show \"@\" // @ here\nhide";
    let got: Vec<String> = DialogTokenizer::new(quoted.to_string()).try_tokenize().unwrap().iter().map(describe).collect();
    assert_eq!(got, described(quoted));
    assert!(DialogTokenizer::new("show @Bob".to_string()).try_tokenize().is_none());
    assert!(DialogTokenizer::new("// x\n  @".to_string()).try_tokenize().is_none());
}
