use vimyc::unit::Unit;

fn unit(files: &[(&str, &str)]) -> Unit {
    Unit::parse(files.iter().map(|(n, t)| (n.to_string(), t.to_string())).collect::<Vec<_>>())
}

const RULE: &str = "rule scout-now {\n  priority 300\n  category recon\n  do scout\n  \
                    require cash >= 100\n}";

#[test]
fn merges_the_items_of_every_file() {
    let u = unit(&[
        ("a.vy", "param aggression: float\ndef twice(n: int) = n * 2\n"),
        ("b.vy", RULE),
    ]);
    assert!(u.diags.is_empty(), "{:?}", u.diags);
    assert_eq!(u.ast.params.len(), 1);
    assert_eq!(u.ast.defs.len(), 1);
    assert_eq!(u.ast.rules.len(), 1);
}

#[test]
fn a_span_resolves_to_the_file_it_came_from() {
    let u = unit(&[("first.vy", "param aggression: float\n"), ("second.vy", RULE)]);
    let span = u.ast.rules[0].name.span;
    let (file, lc) = u.sources.resolve(span.start).expect("resolves");
    assert_eq!(file.name, "second.vy");
    assert_eq!((lc.line, lc.col), (1, 6));
}

#[test]
fn a_diagnostic_resolves_to_the_file_it_came_from() {
    let u = unit(&[("ok.vy", "param aggression: float\n"), ("bad.vy", "rule {")]);
    let d = u.diags.first().expect("a parse error");
    let (file, _) = u.sources.resolve(d.span.start).expect("resolves");
    assert_eq!(file.name, "bad.vy");
}

#[test]
fn an_unterminated_file_does_not_swallow_the_next() {
    let u = unit(&[("open.vy", "rule half {\n  priority 300\n"), ("closed.vy", RULE)]);
    assert!(!u.diags.is_empty(), "the unclosed rule should be reported");
    assert!(
        u.ast.rules.iter().any(|r| r.name.text == "scout-now"),
        "the second file's rule survived"
    );
}

#[test]
fn the_first_byte_of_the_first_file_resolves() {
    let u = unit(&[("only.vy", RULE)]);
    let (file, lc) = u.sources.resolve(0).expect("resolves");
    assert_eq!(file.name, "only.vy");
    assert_eq!((lc.line, lc.col), (1, 1));
}

#[test]
fn an_end_of_file_span_stays_in_its_own_file() {
    let a = "param aggression: float\n";
    let u = unit(&[("a.vy", a), ("b.vy", RULE)]);
    let (file, _) = u.sources.resolve(a.len() as u32).expect("resolves");
    assert_eq!(file.name, "a.vy");
}

#[test]
fn a_lexing_error_does_not_stop_parsing() {
    let u = unit(&[("a.vy", "@\nrule scout-now {\n  priority 300\n  category recon\n  do scout\n  require cash >= 100\n}")]);
    assert_eq!(u.diags.len(), 1, "{:?}", u.diags);
    assert_eq!(u.ast.rules.len(), 1);
}

#[test]
fn diagnostics_come_file_by_file_lexer_before_parser() {
    let u = unit(&[("a.vy", "@ junk\n"), ("b.vy", "}\n")]);
    let got: Vec<(String, u32, u32)> =
        u.diags.iter().map(|d| (d.message.clone(), d.span.start, d.span.end)).collect();
    assert_eq!(
        got,
        vec![
            ("unexpected character `@`".to_string(), 0, 1),
            ("expected `rule`".to_string(), 2, 6),
            ("expected `rule`".to_string(), 8, 9),
        ]
    );
}
