use vardadb::query_planner::ir::LogicalExpr;
use vardadb::query_planner::parser::{parse_tokens, root_fields, tokenize, tokens_well_formed, ParseError, Token};

fn parse(src: &str) -> Result<LogicalExpr, ParseError> {
    let mut tokens = Vec::new();
    for (token, position) in tokenize(src)? {
        let token = match token {
            Token::Decimal(text) => {
                let value: f64 = text.parse().unwrap();
                Token::Float(value.to_bits(), format!("{:?}", value))
            }
            other => other,
        };
        tokens.push((token, position));
    }
    parse_tokens(&tokens)
}

fn shown(src: &str) -> String {
    format!("{:?}", parse(src).unwrap())
}

fn error(src: &str) -> (String, usize) {
    let e = parse(src).unwrap_err();
    (e.message, e.position)
}

#[test]
fn tokens_carry_the_offset_where_their_scan_began() {
    let tokens = tokenize("age + 10 > 40").unwrap();
    assert_eq!(
        tokens,
        vec![
            (Token::Ident("age".into()), 0),
            (Token::Op("+".into()), 3),
            (Token::Int(10), 5),
            (Token::Op(">".into()), 8),
            (Token::Int(40), 10),
            (Token::Eof, 13),
        ]
    );
    let more = tokenize("a>=1.25 'x\\ty' != \"q\"").unwrap();
    assert_eq!(more[1].0, Token::Op(">=".into()));
    assert_eq!(more[2].0, Token::Decimal("1.25".into()));
    assert_eq!(more[3].0, Token::Str("x\ty".into()));
    assert_eq!(more[4].0, Token::Op("!=".into()));
    assert_eq!(more[5].0, Token::Str("q".into()));
}

#[test]
fn arithmetic_binds_tighter_than_comparison() {
    assert_eq!(
        shown("age + 10 > 40"),
        "Binary { left: Binary { left: Field(FieldPath { segments: [Field(\"age\")] }), op: Add, right: Value(Int(10)) }, op: Gt, right: Value(Int(40)) }"
    );
    assert_eq!(
        shown("a - b * c % 2"),
        "Binary { left: Field(FieldPath { segments: [Field(\"a\")] }), op: Sub, right: Binary { left: Binary { left: Field(FieldPath { segments: [Field(\"b\")] }), op: Mul, right: Field(FieldPath { segments: [Field(\"c\")] }) }, op: Mod, right: Value(Int(2)) } }"
    );
}

#[test]
fn boolean_keywords_and_unary_operators() {
    assert_eq!(
        shown("not a and -b or c"),
        "Binary { left: Binary { left: Unary { op: Not, expr: Field(FieldPath { segments: [Field(\"a\")] }) }, op: And, right: Unary { op: Neg, expr: Field(FieldPath { segments: [Field(\"b\")] }) } }, op: Or, right: Field(FieldPath { segments: [Field(\"c\")] }) }"
    );
    assert_eq!(
        shown("x in (1)"),
        "Binary { left: Field(FieldPath { segments: [Field(\"x\")] }), op: In, right: Value(Int(1)) }"
    );
}

#[test]
fn calls_paths_and_literals() {
    assert_eq!(shown("upper(name)"), "Function { name: \"upper\", args: [Field(FieldPath { segments: [Field(\"name\")] })] }");
    assert_eq!(shown("math::sum()"), "Function { name: \"math::sum\", args: [] }");
    assert_eq!(
        shown("tags[0] contains \"rust\""),
        "Binary { left: Field(FieldPath { segments: [Field(\"tags\"), Index(0)] }), op: Contains, right: Value(String(\"rust\")) }"
    );
    assert_eq!(shown("profile.age"), "Field(FieldPath { segments: [Field(\"profile\"), Field(\"age\")] })");
    assert_eq!(shown("1.5"), format!("Value(Float({}))", 1.5f64.to_bits()));
}

#[test]
fn lexical_errors_name_their_offset() {
    assert_eq!(error("'abc"), ("unterminated string literal".to_string(), 4));
    assert_eq!(error("a ! b"), ("unexpected character".to_string(), 2));
    assert_eq!(error("math:sum(x)"), ("expected '::' inside identifier".to_string(), 4));
    assert_eq!(error("99999999999999999999"), ("invalid integer literal".to_string(), 20));
}

#[test]
fn syntax_errors_show_the_offending_token() {
    assert_eq!(error("a +"), ("unexpected token Eof".to_string(), 3));
    assert_eq!(error("(a"), ("expected ')', found Eof".to_string(), 2));
    assert_eq!(error("f(a b)"), ("expected ',' or ')' in argument list, found Ident(\"b\")".to_string(), 3));
    assert_eq!(error("a b"), ("unexpected trailing input near Ident(\"b\")".to_string(), 1));
    assert_eq!(error("a.1"), ("expected identifier, found Int(1)".to_string(), 2));
    assert_eq!(error("a[x]"), ("expected list index, found Ident(\"x\")".to_string(), 2));
    assert_eq!(error("a[1"), ("expected ']', found Eof".to_string(), 3));
    assert_eq!(error("(2.5 2.5"), ("expected ')', found Float(2.5)".to_string(), 4));
    let e = parse("a b").unwrap_err();
    assert_eq!(e.to_string(), "expression parse error at 1: unexpected trailing input near Ident(\"b\")");
}

#[test]
fn root_fields_lists_each_root_once() {
    let expr = parse("a + f(b.c, a) > d[0]").unwrap();
    let mut out = Vec::new();
    root_fields(&expr, &mut out);
    assert_eq!(out, vec!["a".to_string(), "b".to_string(), "d".to_string()]);
    let mut seeded = vec!["b".to_string()];
    root_fields(&expr, &mut seeded);
    assert_eq!(seeded, vec!["b".to_string(), "a".to_string(), "d".to_string()]);
}

#[test]
fn token_streams_are_checked_before_parsing() {
    let lexed = tokenize("a + 1").unwrap();
    assert!(tokens_well_formed(&lexed));
    assert!(!tokens_well_formed(&Vec::new()));
    assert!(!tokens_well_formed(&vec![(Token::Int(1), 0)]));
    assert!(!tokens_well_formed(&vec![(Token::Eof, 0), (Token::Eof, 0)]));
    assert!(!tokens_well_formed(&vec![(Token::Decimal("1.5".into()), 0), (Token::Eof, 3)]));
    assert!(tokens_well_formed(&vec![(Token::Float(1.5f64.to_bits(), "1.5".into()), 0), (Token::Eof, 3)]));
}
