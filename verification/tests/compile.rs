use lark_compiler::ast::{
    Alias, Atom, Expansion, Expansions, Expr, Item, Location, Op, Rule, RuleParams, Statement,
    TokenDef, TokenParams, Value,
};
use lark_compiler::error::{CompileError, ErrorKind, PatternOrigin};
use lark_compiler::grammar_builder::{Node, NodeId, TopLevelGrammar};
use lark_compiler::regex_builder::{RegexId, RegexNode};
use lark_compiler::grammar::lark_to_llguidance;

fn at(line: usize) -> Location {
    Location { line, column: 1 }
}

fn expr(atom: Atom) -> Expr {
    Expr { atom, op: None, range: None }
}

fn lit(text: &str) -> Expr {
    expr(Atom::Value(Value::LiteralString(text.to_string(), String::new())))
}

fn name(n: &str) -> Expr {
    expr(Atom::Value(Value::Name(n.to_string())))
}

fn regex(pattern: &str, flags: &str) -> Expr {
    expr(Atom::Value(Value::LiteralRegex(pattern.to_string(), flags.to_string())))
}

fn range(a: &str, b: &str) -> Expr {
    expr(Atom::Value(Value::LiteralRange(a.to_string(), b.to_string())))
}

fn with_op(e: Expr, op: &str) -> Expr {
    Expr { atom: e.atom, op: Some(Op(op.to_string())), range: e.range }
}

fn with_range(e: Expr, lo: i32, hi: i32) -> Expr {
    Expr { atom: e.atom, op: e.op, range: Some((lo, hi)) }
}

fn body(line: usize, alts: Vec<Vec<Expr>>) -> Expansions {
    let mut aliases = Vec::new();
    for exprs in alts {
        aliases.push(Alias { expansion: Expansion(exprs), alias: None });
    }
    Expansions(at(line), aliases)
}

fn rule(n: &str, expansions: Expansions) -> Item {
    Item::Rule(Rule { name: n.to_string(), params: None, priority: None, expansions })
}

fn token(n: &str, expansions: Expansions) -> Item {
    Item::Token(TokenDef { name: n.to_string(), params: None, priority: None, expansions })
}

fn start_with(e: Expr) -> Vec<Item> {
    vec![rule("start", body(1, vec![vec![e]]))]
}

fn compile_ok(items: Vec<Item>) -> TopLevelGrammar {
    match lark_to_llguidance(items) {
        Ok(doc) => doc,
        Err(e) => panic!("refused: {:?}", e),
    }
}

fn compile_err(items: Vec<Item>) -> CompileError {
    match lark_to_llguidance(items) {
        Ok(doc) => panic!("accepted: {:?}", doc),
        Err(e) => e,
    }
}

fn lexeme(rx: usize) -> Node {
    Node::Lexeme { rx: RegexId(rx), contextual: false }
}

fn matches_text(pattern: &str, text: &str) -> bool {
    let mut rx = derivre::Regex::new(pattern).unwrap();
    rx.is_match(text)
}

fn only_pattern(doc: &TopLevelGrammar) -> String {
    assert_eq!(doc.grammars.len(), 1);
    assert_eq!(doc.grammars[0].rx_nodes.len(), 1);
    match &doc.grammars[0].rx_nodes[0] {
        RegexNode::Regex(p) => p.clone(),
        other => panic!("not a pattern: {:?}", other),
    }
}

#[test]
fn sequence_of_literal_and_repetition() {
    let items = vec![rule("start", body(1, vec![vec![lit("a"), with_op(lit("b"), "*")]]))];
    let doc = compile_ok(items);
    assert_eq!(doc.grammars.len(), 1);
    let unit = &doc.grammars[0];
    assert_eq!(
        unit.rx_nodes,
        vec![RegexNode::Literal("a".to_string()), RegexNode::Literal("b".to_string())]
    );
    assert_eq!(
        unit.nodes,
        vec![
            lexeme(0),
            lexeme(1),
            Node::ZeroOrMore(NodeId(1)),
            Node::Join(vec![NodeId(0), NodeId(2)]),
        ]
    );
    assert_eq!(unit.start_node, Some(NodeId(3)));
    assert_eq!(unit.greedy_skip_rx, None);
}

#[test]
fn self_recursive_rule_compiles_without_placeholder() {
    let items = vec![rule("start", body(1, vec![vec![lit("a"), name("start")], vec![lit("")]]))];
    let doc = compile_ok(items);
    let unit = &doc.grammars[0];
    assert_eq!(
        unit.nodes,
        vec![
            lexeme(0),
            Node::Alias(NodeId(5)),
            Node::Join(vec![NodeId(0), NodeId(1)]),
            lexeme(1),
            Node::Join(vec![NodeId(3)]),
            Node::Select(vec![NodeId(2), NodeId(4)]),
        ]
    );
    assert_eq!(unit.start_node, Some(NodeId(5)));
    assert!(unit.nodes.iter().all(|n| *n != Node::Placeholder));
}

#[test]
fn mutually_recursive_rules_compile_without_placeholder() {
    let items = vec![
        rule("start", body(1, vec![vec![name("a")]])),
        rule("a", body(2, vec![vec![lit("x"), name("b")], vec![lit("y")]])),
        rule("b", body(3, vec![vec![name("a"), name("start")]])),
    ];
    let doc = compile_ok(items);
    let unit = &doc.grammars[0];
    assert!(unit.nodes.iter().all(|n| *n != Node::Placeholder));
    let aliases = unit.nodes.iter().filter(|n| matches!(n, Node::Alias(_))).count();
    assert_eq!(aliases, 2);
    for n in unit.nodes.iter() {
        if let Node::Alias(target) = n {
            assert!(matches!(unit.nodes[target.0], Node::Join(_) | Node::Select(_)));
        }
    }
}

#[test]
fn token_cycle_is_refused() {
    let items = vec![
        rule("start", body(1, vec![vec![name("A")]])),
        token("A", body(2, vec![vec![name("B")]])),
        token("B", body(3, vec![vec![name("A")]])),
    ];
    let e = compile_err(items);
    assert_eq!(e.kind, ErrorKind::CircularToken("A".to_string()));
    assert_eq!(e.trace, vec![at(3), at(2), at(1)]);
}

#[test]
fn token_that_refers_to_itself_is_refused() {
    let items = vec![
        rule("start", body(1, vec![vec![name("A")]])),
        token("A", body(2, vec![vec![lit("x"), name("A")]])),
    ];
    let e = compile_err(items);
    assert_eq!(e.kind, ErrorKind::CircularToken("A".to_string()));
    assert_eq!(e.trace, vec![at(2), at(1)]);
}

#[test]
fn token_referenced_twice_is_built_once() {
    let items = vec![
        rule("start", body(1, vec![vec![name("A"), name("A")]])),
        token("A", body(2, vec![vec![regex("[0-9]+", "")]])),
    ];
    let doc = compile_ok(items);
    let unit = &doc.grammars[0];
    assert_eq!(unit.rx_nodes, vec![RegexNode::Regex("[0-9]+".to_string())]);
    assert_eq!(
        unit.nodes,
        vec![lexeme(0), lexeme(0), Node::Join(vec![NodeId(0), NodeId(1)])]
    );
}

#[test]
fn rule_referenced_twice_is_built_once() {
    let items = vec![
        rule("start", body(1, vec![vec![name("a"), name("a")]])),
        rule("a", body(2, vec![vec![lit("x")]])),
    ];
    let doc = compile_ok(items);
    let unit = &doc.grammars[0];
    assert_eq!(
        unit.nodes,
        vec![lexeme(0), Node::Join(vec![NodeId(0)]), Node::Join(vec![NodeId(1), NodeId(1)])]
    );
    assert_eq!(unit.start_node, Some(NodeId(2)));
}

#[test]
fn missing_start_rule_is_refused() {
    let items = vec![
        rule("a", body(1, vec![vec![lit("x")]])),
        rule("b", body(2, vec![vec![name("a")]])),
        token("T", body(3, vec![vec![lit("t")]])),
    ];
    let e = compile_err(items);
    assert_eq!(e.kind, ErrorKind::NoStartRule);
    assert_eq!(e.trace, Vec::<Location>::new());
    let e = compile_err(Vec::new());
    assert_eq!(e.kind, ErrorKind::NoStartRule);
}

#[test]
fn inverted_range_is_refused() {
    let e = compile_err(start_with(range("z", "a")));
    assert_eq!(e.kind, ErrorKind::InvalidRangeOrder('z', 'a'));
    assert_eq!(e.trace, vec![at(1)]);
}

#[test]
fn range_of_one_character_matches_that_character() {
    let doc = compile_ok(start_with(range("a", "a")));
    let pattern = only_pattern(&doc);
    assert_eq!(pattern, "[a-a]");
    assert!(matches_text(&pattern, "a"));
    assert!(!matches_text(&pattern, "b"));
    assert!(!matches_text(&pattern, "aa"));
    assert!(!matches_text(&pattern, ""));
    assert!(!matches_text(&pattern, "A"));
}

#[test]
fn range_ends_are_escaped() {
    let doc = compile_ok(start_with(range("+", "]")));
    assert_eq!(only_pattern(&doc), "[\\+-\\]]");
    let doc = compile_ok(start_with(range("a", "z")));
    let pattern = only_pattern(&doc);
    assert_eq!(pattern, "[a-z]");
    assert!(matches_text(&pattern, "q"));
    assert!(!matches_text(&pattern, "Q"));
}

#[test]
fn range_ends_must_be_single_characters() {
    let e = compile_err(start_with(range("ab", "c")));
    assert_eq!(e.kind, ErrorKind::RangeStartNotSingleChar);
    let e = compile_err(start_with(range("", "c")));
    assert_eq!(e.kind, ErrorKind::RangeStartNotSingleChar);
    let e = compile_err(start_with(range("a", "cd")));
    assert_eq!(e.kind, ErrorKind::RangeEndNotSingleChar);
    let e = compile_err(start_with(range("ab", "cd")));
    assert_eq!(e.kind, ErrorKind::RangeStartNotSingleChar);
    let doc = compile_ok(start_with(range("\u{e9}", "\u{ff}")));
    assert_eq!(only_pattern(&doc), "[\u{e9}-\u{ff}]");
}

#[test]
fn case_insensitive_string_matches_any_case() {
    let e = expr(Atom::Value(Value::LiteralString("abc".to_string(), "i".to_string())));
    let doc = compile_ok(start_with(e));
    let pattern = only_pattern(&doc);
    assert_eq!(pattern, "(?i)abc");
    assert!(matches_text(&pattern, "abc"));
    assert!(matches_text(&pattern, "ABC"));
    assert!(matches_text(&pattern, "aBc"));
    assert!(!matches_text(&pattern, "abd"));
    assert!(!matches_text(&pattern, "ab"));
}

#[test]
fn case_insensitive_string_is_escaped() {
    let e = expr(Atom::Value(Value::LiteralString("a.b*".to_string(), "i".to_string())));
    let doc = compile_ok(start_with(e));
    let pattern = only_pattern(&doc);
    assert_eq!(pattern, "(?i)a\\.b\\*");
    assert!(matches_text(&pattern, "A.B*"));
    assert!(!matches_text(&pattern, "axb"));
}

#[test]
fn plain_string_is_a_literal() {
    let doc = compile_ok(start_with(lit("a.b*")));
    assert_eq!(doc.grammars[0].rx_nodes, vec![RegexNode::Literal("a.b*".to_string())]);
}

#[test]
fn regex_flags_are_put_in_front() {
    let doc = compile_ok(start_with(regex("a.c", "")));
    assert_eq!(only_pattern(&doc), "a.c");
    let doc = compile_ok(start_with(regex("a.c", "is")));
    let pattern = only_pattern(&doc);
    assert_eq!(pattern, "(?is)a.c");
    assert!(matches_text(&pattern, "A\nC"));
}

#[test]
fn regex_with_literal_flag_is_refused() {
    let e = compile_err(start_with(regex("abc", "l")));
    assert_eq!(e.kind, ErrorKind::LiteralFlagNotSupported);
    let e = compile_err(start_with(regex("abc", "il")));
    assert_eq!(e.kind, ErrorKind::LiteralFlagNotSupported);
}

#[test]
fn malformed_regex_is_reported_against_its_construct() {
    let e = compile_err(start_with(regex("(", "")));
    match e.kind {
        ErrorKind::InvalidRegex { pattern, origin, reason } => {
            assert_eq!(pattern, "(");
            assert_eq!(origin, PatternOrigin::Regex);
            assert!(!reason.is_empty());
        },
        other => panic!("unexpected: {:?}", other),
    }
    assert_eq!(e.trace, vec![at(1)]);
    let e = compile_err(start_with(regex("a)", "x")));
    match e.kind {
        ErrorKind::InvalidRegex { pattern, origin, .. } => {
            assert_eq!(pattern, "(?x)a)");
            assert_eq!(origin, PatternOrigin::Regex);
        },
        other => panic!("unexpected: {:?}", other),
    }
    let e = compile_err(start_with(regex("a", "q")));
    assert!(matches!(e.kind, ErrorKind::InvalidRegex { origin: PatternOrigin::Regex, .. }));
}

#[test]
fn lookaround_is_refused_by_the_syntax_check() {
    let e = compile_err(start_with(regex("a\\b", "")));
    assert!(matches!(e.kind, ErrorKind::InvalidRegex { .. }));
}

#[test]
fn two_ignores_make_one_skip_regex() {
    let items = vec![
        rule("start", body(1, vec![vec![lit("a")]])),
        Item::Statement(at(2), Statement::Ignore(body(2, vec![vec![regex("[ \\t]+", "")]]))),
        Item::Statement(at(3), Statement::Ignore(body(3, vec![vec![regex("//[^\\n]*", "")]]))),
    ];
    let doc = compile_ok(items);
    let unit = &doc.grammars[0];
    let skip = unit.greedy_skip_rx.expect("a skip regex");
    match &unit.rx_nodes[skip.0] {
        RegexNode::Or(options) => {
            assert_eq!(options.len(), 2);
            assert_eq!(unit.rx_nodes[options[0].0], RegexNode::Regex("[ \\t]+".to_string()));
            assert_eq!(unit.rx_nodes[options[1].0], RegexNode::Regex("//[^\\n]*".to_string()));
        },
        other => panic!("unexpected: {:?}", other),
    }
}

#[test]
fn one_ignore_is_the_skip_regex_itself() {
    let items = vec![
        Item::Statement(at(1), Statement::Ignore(body(1, vec![vec![name("WS")]]))),
        rule("start", body(2, vec![vec![lit("a")]])),
        token("WS", body(3, vec![vec![regex("\\s+", "")]])),
    ];
    let doc = compile_ok(items);
    let unit = &doc.grammars[0];
    let skip = unit.greedy_skip_rx.expect("a skip regex");
    assert_eq!(unit.rx_nodes[skip.0], RegexNode::Regex("\\s+".to_string()));
}

#[test]
fn no_ignore_means_no_skip_regex() {
    let doc = compile_ok(start_with(lit("a")));
    assert_eq!(doc.grammars[0].greedy_skip_rx, None);
}

#[test]
fn error_in_ignore_comes_before_errors_in_rules() {
    let items = vec![
        rule("start", body(1, vec![vec![name("nowhere")]])),
        Item::Statement(at(2), Statement::Ignore(body(2, vec![vec![range("z", "a")]]))),
    ];
    let e = compile_err(items);
    assert_eq!(e.kind, ErrorKind::InvalidRangeOrder('z', 'a'));
    assert_eq!(e.trace, vec![at(2)]);
}

#[test]
fn unknown_import_is_refused() {
    let items = vec![
        rule("start", body(1, vec![vec![name("BOGUS")]])),
        Item::Statement(
            at(7),
            Statement::Import { path: "common.bogus".to_string(), alias: None },
        ),
    ];
    let e = compile_err(items);
    assert_eq!(e.kind, ErrorKind::UnknownCommonRegex("common.bogus".to_string()));
    assert_eq!(e.trace, vec![at(7)]);
}

#[test]
fn import_brings_a_token_under_its_last_segment() {
    let items = vec![
        Item::Statement(at(1), Statement::Import { path: "common.INT".to_string(), alias: None }),
        rule("start", body(2, vec![vec![name("INT")]])),
    ];
    let doc = compile_ok(items);
    assert_eq!(only_pattern(&doc), "[0-9]+");
}

#[test]
fn import_under_an_alias() {
    let items = vec![
        Item::Statement(
            at(1),
            Statement::Import { path: "common.WS".to_string(), alias: Some("SPACE".to_string()) },
        ),
        rule("start", body(2, vec![vec![name("SPACE")]])),
    ];
    let doc = compile_ok(items);
    assert_eq!(only_pattern(&doc), "[ \\t\\f\\r\\n]+");
    let items = vec![
        Item::Statement(
            at(1),
            Statement::Import { path: "common.WS".to_string(), alias: Some("SPACE".to_string()) },
        ),
        rule("start", body(2, vec![vec![name("WS")]])),
    ];
    let e = compile_err(items);
    assert_eq!(e.kind, ErrorKind::UnknownName("WS".to_string()));
}

#[test]
fn multi_import_brings_each_name() {
    let items = vec![
        Item::Statement(
            at(1),
            Statement::MultiImport {
                path: "common".to_string(),
                names: vec!["DIGIT".to_string(), "LETTER".to_string()],
            },
        ),
        rule("start", body(2, vec![vec![name("DIGIT"), name("LETTER")]])),
    ];
    let doc = compile_ok(items);
    assert_eq!(
        doc.grammars[0].rx_nodes,
        vec![RegexNode::Regex("[0-9]".to_string()), RegexNode::Regex("[a-zA-Z]".to_string())]
    );
    let items = vec![
        Item::Statement(
            at(4),
            Statement::MultiImport {
                path: "common".to_string(),
                names: vec!["DIGIT".to_string(), "NOPE".to_string()],
            },
        ),
        rule("start", body(2, vec![vec![name("DIGIT")]])),
    ];
    let e = compile_err(items);
    assert_eq!(e.kind, ErrorKind::UnknownCommonRegex("common.NOPE".to_string()));
    assert_eq!(e.trace, vec![at(4)]);
}

#[test]
fn every_catalogue_entry_is_a_valid_pattern() {
    let names = [
        "DIGIT", "HEXDIGIT", "INT", "SIGNED_INT", "DECIMAL", "_EXP", "FLOAT", "SIGNED_FLOAT",
        "NUMBER", "SIGNED_NUMBER", "ESCAPED_STRING", "LCASE_LETTER", "UCASE_LETTER", "LETTER",
        "WORD", "CNAME", "WS_INLINE", "WS", "CR", "LF", "NEWLINE", "SH_COMMENT", "CPP_COMMENT",
        "C_COMMENT", "SQL_COMMENT",
    ];
    let mut list = Vec::new();
    let mut refs = Vec::new();
    for n in names.iter() {
        list.push(n.to_string());
        refs.push(name(n));
    }
    let items = vec![
        Item::Statement(
            at(1),
            Statement::MultiImport { path: "common".to_string(), names: list },
        ),
        rule("start", body(2, vec![refs])),
    ];
    let doc = compile_ok(items);
    assert_eq!(doc.grammars[0].rx_nodes.len(), names.len());
}

#[test]
fn catalogue_patterns_match_what_they_name() {
    let cases: Vec<(&str, &str, bool)> = vec![
        ("common.SIGNED_INT", "-12", true),
        ("common.SIGNED_INT", "1-2", false),
        ("common.FLOAT", "1.5e-3", true),
        ("common.FLOAT", "15", false),
        ("common.NUMBER", "15", true),
        ("common.ESCAPED_STRING", "\"a\\\"b\"", true),
        ("common.ESCAPED_STRING", "\"a\"b\"", false),
        ("common.CNAME", "_x9", true),
        ("common.CNAME", "9x", false),
        ("common.C_COMMENT", "/* a * b */", true),
        ("common.C_COMMENT", "/* a */ b */", false),
        ("common.NEWLINE", "\r\n\n", true),
        ("common.HEXDIGIT", "f", true),
        ("common.HEXDIGIT", "g", false),
    ];
    for (path, text, expected) in cases {
        let pattern = lark_compiler::common::lookup_common_regex(path).unwrap();
        assert_eq!(matches_text(pattern, text), expected, "{} on {:?}", path, text);
    }
}

#[test]
fn parameters_and_priorities_are_refused() {
    let items = vec![Item::Rule(Rule {
        name: "start".to_string(),
        params: Some(RuleParams(vec!["x".to_string()])),
        priority: None,
        expansions: body(1, vec![vec![lit("a")]]),
    })];
    assert_eq!(compile_err(items).kind, ErrorKind::ParamsNotSupported);
    let items = vec![Item::Rule(Rule {
        name: "start".to_string(),
        params: None,
        priority: Some(2),
        expansions: body(1, vec![vec![lit("a")]]),
    })];
    assert_eq!(compile_err(items).kind, ErrorKind::PriorityNotSupported);
    let items = vec![Item::Token(TokenDef {
        name: "T".to_string(),
        params: Some(TokenParams(vec!["x".to_string()])),
        priority: Some(1),
        expansions: body(1, vec![vec![lit("a")]]),
    })];
    assert_eq!(compile_err(items).kind, ErrorKind::ParamsNotSupported);
    let items = vec![Item::Token(TokenDef {
        name: "T".to_string(),
        params: None,
        priority: Some(1),
        expansions: body(1, vec![vec![lit("a")]]),
    })];
    assert_eq!(compile_err(items).kind, ErrorKind::PriorityNotSupported);
}

#[test]
fn duplicate_names_are_refused() {
    let items = vec![
        rule("start", body(1, vec![vec![lit("a")]])),
        rule("start", body(2, vec![vec![lit("b")]])),
    ];
    let e = compile_err(items);
    assert_eq!(e.kind, ErrorKind::DuplicateRule("start".to_string()));
    assert_eq!(e.trace, Vec::<Location>::new());
    let items = vec![
        token("T", body(1, vec![vec![lit("a")]])),
        token("T", body(2, vec![vec![lit("b")]])),
    ];
    assert_eq!(compile_err(items).kind, ErrorKind::DuplicateToken("T".to_string()));
    let items = vec![
        token("INT", body(1, vec![vec![lit("a")]])),
        Item::Statement(at(2), Statement::Import { path: "common.INT".to_string(), alias: None }),
    ];
    let e = compile_err(items);
    assert_eq!(e.kind, ErrorKind::DuplicateImportedToken("INT".to_string()));
    assert_eq!(e.trace, Vec::<Location>::new());
    let items = vec![
        Item::Statement(at(2), Statement::Import { path: "common.INT".to_string(), alias: None }),
        token("INT", body(1, vec![vec![lit("a")]])),
    ];
    assert_eq!(compile_err(items).kind, ErrorKind::DuplicateToken("INT".to_string()));
}

#[test]
fn a_rule_and_a_token_may_share_a_name() {
    let items = vec![
        rule("start", body(1, vec![vec![name("X")]])),
        rule("X", body(2, vec![vec![lit("r")]])),
        token("X", body(3, vec![vec![lit("t")]])),
    ];
    let doc = compile_ok(items);
    assert_eq!(doc.grammars[0].rx_nodes, vec![RegexNode::Literal("r".to_string())]);
}

#[test]
fn override_and_declare_are_refused() {
    let inner = Rule {
        name: "a".to_string(),
        params: None,
        priority: None,
        expansions: body(1, vec![vec![lit("a")]]),
    };
    let items = vec![Item::Statement(at(3), Statement::OverrideRule(Box::new(inner)))];
    let e = compile_err(items);
    assert_eq!(e.kind, ErrorKind::OverrideNotSupported);
    assert_eq!(e.trace, vec![at(3)]);
    let items = vec![Item::Statement(at(4), Statement::Declare(vec!["X".to_string()]))];
    let e = compile_err(items);
    assert_eq!(e.kind, ErrorKind::DeclareNotSupported);
    assert_eq!(e.trace, vec![at(4)]);
}

#[test]
fn first_refused_item_wins() {
    let items = vec![
        Item::Statement(at(4), Statement::Declare(vec!["X".to_string()])),
        rule("start", body(1, vec![vec![lit("a")]])),
        rule("start", body(2, vec![vec![lit("b")]])),
    ];
    assert_eq!(compile_err(items).kind, ErrorKind::DeclareNotSupported);
}

#[test]
fn unknown_name_is_refused() {
    let e = compile_err(start_with(name("nowhere")));
    assert_eq!(e.kind, ErrorKind::UnknownName("nowhere".to_string()));
    assert_eq!(e.trace, vec![at(1)]);
}

#[test]
fn token_cannot_refer_to_a_rule() {
    let items = vec![
        rule("start", body(1, vec![vec![name("T")]])),
        rule("r", body(2, vec![vec![lit("x")]])),
        token("T", body(3, vec![vec![name("r")]])),
    ];
    let e = compile_err(items);
    assert_eq!(e.kind, ErrorKind::TokenNotFound("r".to_string()));
    assert_eq!(e.trace, vec![at(3), at(1)]);
}

#[test]
fn template_usage_is_refused() {
    let t = expr(Atom::Value(Value::TemplateUsage { name: "t".to_string(), values: Vec::new() }));
    let e = compile_err(start_with(t));
    assert_eq!(e.kind, ErrorKind::TemplateNotSupported);
    let t = expr(Atom::Value(Value::TemplateUsage { name: "t".to_string(), values: Vec::new() }));
    let items = vec![
        rule("start", body(1, vec![vec![name("T")]])),
        token("T", body(2, vec![vec![t]])),
    ];
    let e = compile_err(items);
    assert_eq!(e.kind, ErrorKind::TemplateNotSupported);
    assert_eq!(e.trace, vec![at(2), at(1)]);
}

#[test]
fn repeat_range_in_a_rule_is_refused() {
    let e = compile_err(start_with(with_range(lit("a"), 1, 3)));
    assert_eq!(e.kind, ErrorKind::RuleRangeNotSupported);
    let e = compile_err(start_with(with_range(name("nowhere"), 1, 3)));
    assert_eq!(e.kind, ErrorKind::RuleRangeNotSupported);
}

#[test]
fn repeat_range_in_a_token() {
    let items = vec![
        rule("start", body(1, vec![vec![name("T")]])),
        token("T", body(2, vec![vec![with_range(lit("a"), 2, 5)]])),
    ];
    let doc = compile_ok(items);
    assert_eq!(
        doc.grammars[0].rx_nodes,
        vec![RegexNode::Literal("a".to_string()), RegexNode::Repeat(RegexId(0), 2, Some(5))]
    );
    let items = vec![
        rule("start", body(1, vec![vec![name("T")]])),
        token("T", body(2, vec![vec![with_range(lit("a"), 0, 0)]])),
    ];
    let doc = compile_ok(items);
    assert_eq!(doc.grammars[0].rx_nodes[1], RegexNode::Repeat(RegexId(0), 0, Some(0)));
}

#[test]
fn bad_repeat_ranges_in_a_token_are_refused() {
    let in_token = |e: Expr| {
        vec![rule("start", body(1, vec![vec![name("T")]])), token("T", body(2, vec![vec![e]]))]
    };
    let e = compile_err(in_token(with_range(with_op(lit("a"), "*"), 1, 2)));
    assert_eq!(e.kind, ErrorKind::RangeWithOperator);
    let e = compile_err(in_token(with_range(lit("a"), -1, 2)));
    assert_eq!(e.kind, ErrorKind::RangeStartNegative);
    let e = compile_err(in_token(with_range(lit("a"), 3, 2)));
    assert_eq!(e.kind, ErrorKind::RangeEndBeforeStart);
    let e = compile_err(in_token(with_range(with_op(lit("a"), "*"), -1, -2)));
    assert_eq!(e.kind, ErrorKind::RangeWithOperator);
    let e = compile_err(in_token(with_range(range("z", "a"), -1, -2)));
    assert_eq!(e.kind, ErrorKind::InvalidRangeOrder('z', 'a'));
}

#[test]
fn quantifiers_in_a_token() {
    let items = vec![
        rule("start", body(1, vec![vec![name("T")]])),
        token(
            "T",
            body(
                2,
                vec![vec![
                    with_op(lit("a"), "*"),
                    with_op(lit("a"), "+"),
                    with_op(lit("a"), "?"),
                ]],
            ),
        ),
    ];
    let doc = compile_ok(items);
    assert_eq!(
        doc.grammars[0].rx_nodes,
        vec![
            RegexNode::Literal("a".to_string()),
            RegexNode::Repeat(RegexId(0), 0, None),
            RegexNode::Repeat(RegexId(0), 1, None),
            RegexNode::Repeat(RegexId(0), 0, Some(1)),
            RegexNode::Concat(vec![RegexId(1), RegexId(2), RegexId(3)]),
        ]
    );
    assert_eq!(doc.grammars[0].nodes, vec![lexeme(4), Node::Join(vec![NodeId(0)])]);
}

#[test]
fn quantifiers_in_a_rule() {
    let items = vec![rule(
        "start",
        body(1, vec![vec![with_op(lit("a"), "*"), with_op(lit("a"), "+"), with_op(lit("a"), "?")]]),
    )];
    let doc = compile_ok(items);
    assert_eq!(doc.grammars[0].rx_nodes, vec![RegexNode::Literal("a".to_string())]);
    assert_eq!(
        doc.grammars[0].nodes,
        vec![
            lexeme(0),
            Node::ZeroOrMore(NodeId(0)),
            lexeme(0),
            Node::OneOrMore(NodeId(2)),
            lexeme(0),
            Node::Optional(NodeId(4)),
            Node::Join(vec![NodeId(1), NodeId(3), NodeId(5)]),
        ]
    );
}

#[test]
fn unsupported_operator_is_refused() {
    let e = compile_err(start_with(with_op(lit("a"), "~")));
    assert_eq!(e.kind, ErrorKind::UnsupportedRuleOperator("~".to_string()));
    let e = compile_err(start_with(with_op(lit("a"), "**")));
    assert_eq!(e.kind, ErrorKind::UnsupportedRuleOperator("**".to_string()));
    let e = compile_err(start_with(with_op(lit("a"), "")));
    assert_eq!(e.kind, ErrorKind::UnsupportedRuleOperator("".to_string()));
    let items = vec![
        rule("start", body(1, vec![vec![name("T")]])),
        token("T", body(2, vec![vec![with_op(lit("a"), "!")]])),
    ];
    let e = compile_err(items);
    assert_eq!(e.kind, ErrorKind::UnsupportedOperator("!".to_string()));
    let e = compile_err(start_with(with_op(name("nowhere"), "~")));
    assert_eq!(e.kind, ErrorKind::UnknownName("nowhere".to_string()));
}

#[test]
fn groups_and_optional_groups() {
    let group = expr(Atom::Group(body(5, vec![vec![lit("a")], vec![lit("b")]])));
    let maybe = expr(Atom::Maybe(body(6, vec![vec![lit("c")]])));
    let items = vec![rule("start", body(1, vec![vec![group, maybe]]))];
    let doc = compile_ok(items);
    assert_eq!(
        doc.grammars[0].nodes,
        vec![
            lexeme(0),
            Node::Join(vec![NodeId(0)]),
            lexeme(1),
            Node::Join(vec![NodeId(2)]),
            Node::Select(vec![NodeId(1), NodeId(3)]),
            lexeme(2),
            Node::Join(vec![NodeId(5)]),
            Node::Optional(NodeId(6)),
            Node::Join(vec![NodeId(4), NodeId(7)]),
        ]
    );
    assert_eq!(doc.grammars[0].start_node, Some(NodeId(8)));
}

#[test]
fn groups_in_a_token() {
    let group = expr(Atom::Group(body(5, vec![vec![lit("a")], vec![lit("b")]])));
    let maybe = expr(Atom::Maybe(body(6, vec![vec![lit("c"), lit("d")]])));
    let items = vec![
        rule("start", body(1, vec![vec![name("T")]])),
        token("T", body(2, vec![vec![group, maybe], vec![]])),
    ];
    let doc = compile_ok(items);
    let t = |s: &str| RegexNode::Literal(s.to_string());
    assert_eq!(
        doc.grammars[0].rx_nodes,
        vec![
            t("a"),
            t("b"),
            RegexNode::Or(vec![RegexId(0), RegexId(1)]),
            t("c"),
            t("d"),
            RegexNode::Concat(vec![RegexId(3), RegexId(4)]),
            RegexNode::Repeat(RegexId(5), 0, Some(1)),
            RegexNode::Concat(vec![RegexId(2), RegexId(6)]),
            RegexNode::Concat(vec![]),
            RegexNode::Or(vec![RegexId(7), RegexId(8)]),
        ]
    );
    assert_eq!(doc.grammars[0].nodes, vec![lexeme(9), Node::Join(vec![NodeId(0)])]);
}

#[test]
fn error_carries_the_enclosing_places() {
    let inner = expr(Atom::Group(body(9, vec![vec![lit("a")], vec![range("z", "a")]])));
    let items = vec![rule("start", body(1, vec![vec![lit("x"), inner]]))];
    let e = compile_err(items);
    assert_eq!(e.kind, ErrorKind::InvalidRangeOrder('z', 'a'));
    assert_eq!(e.trace, vec![at(9), at(1)]);
}

#[test]
fn first_error_from_the_left_wins() {
    let items = vec![rule(
        "start",
        body(1, vec![vec![name("a"), range("z", "a")]]),
    ), rule("a", body(2, vec![vec![name("nowhere")]]))];
    let e = compile_err(items);
    assert_eq!(e.kind, ErrorKind::UnknownName("nowhere".to_string()));
    assert_eq!(e.trace, vec![at(2), at(1)]);
}

#[test]
fn rules_out_of_reach_are_not_compiled() {
    let items = vec![
        rule("start", body(1, vec![vec![lit("a")]])),
        rule("other", body(2, vec![vec![name("nowhere")]])),
        token("T", body(3, vec![vec![range("z", "a")]])),
    ];
    let doc = compile_ok(items);
    assert_eq!(doc.grammars[0].nodes, vec![lexeme(0), Node::Join(vec![NodeId(0)])]);
}

#[test]
fn token_that_refers_to_a_rule_in_progress_is_refused() {
    let items = vec![
        rule("start", body(1, vec![vec![name("T")]])),
        token("T", body(2, vec![vec![name("start")]])),
        token("start", body(3, vec![vec![lit("a")]])),
    ];
    let e = compile_err(items);
    assert_eq!(e.kind, ErrorKind::CircularToken("start".to_string()));
    assert_eq!(e.trace, vec![at(2), at(1)]);
    let items = vec![
        rule("start", body(1, vec![vec![name("T")]])),
        token("T", body(2, vec![vec![name("start")]])),
    ];
    let e = compile_err(items);
    assert_eq!(e.kind, ErrorKind::CircularToken("start".to_string()));
}

#[test]
fn token_that_is_done_is_found_under_the_name_of_a_rule_in_progress() {
    let items = vec![
        rule("start", body(1, vec![vec![name("A"), name("x")]])),
        token("A", body(2, vec![vec![name("x")]])),
        token("B", body(3, vec![vec![name("x")]])),
        token("x", body(4, vec![vec![lit("t")]])),
        rule("x", body(5, vec![vec![name("B")]])),
    ];
    let doc = compile_ok(items);
    assert_eq!(doc.grammars[0].rx_nodes, vec![RegexNode::Literal("t".to_string())]);
    assert_eq!(
        doc.grammars[0].nodes,
        vec![
            lexeme(0),
            lexeme(0),
            Node::Join(vec![NodeId(1)]),
            Node::Join(vec![NodeId(0), NodeId(2)]),
        ]
    );
    let items = vec![
        rule("start", body(1, vec![vec![name("x")]])),
        token("B", body(3, vec![vec![name("x")]])),
        token("x", body(4, vec![vec![lit("t")]])),
        rule("x", body(5, vec![vec![name("B")]])),
    ];
    let e = compile_err(items);
    assert_eq!(e.kind, ErrorKind::CircularToken("x".to_string()));
}

#[test]
fn mutual_recursion_makes_one_placeholder() {
    let items = vec![
        rule("start", body(1, vec![vec![name("a")]])),
        rule("a", body(2, vec![vec![lit("x"), name("start")], vec![lit("y")]])),
    ];
    let doc = compile_ok(items);
    let unit = &doc.grammars[0];
    assert_eq!(
        unit.nodes,
        vec![
            lexeme(0),
            Node::Alias(NodeId(6)),
            Node::Join(vec![NodeId(0), NodeId(1)]),
            lexeme(1),
            Node::Join(vec![NodeId(3)]),
            Node::Select(vec![NodeId(2), NodeId(4)]),
            Node::Join(vec![NodeId(5)]),
        ]
    );
    assert_eq!(unit.start_node, Some(NodeId(6)));
}

#[test]
fn rule_that_refers_to_itself_twice_gets_one_placeholder() {
    let items = vec![rule(
        "start",
        body(1, vec![vec![lit("a"), name("start"), name("start")], vec![lit("b")]]),
    )];
    let doc = compile_ok(items);
    let unit = &doc.grammars[0];
    assert_eq!(
        unit.nodes,
        vec![
            lexeme(0),
            Node::Alias(NodeId(5)),
            Node::Join(vec![NodeId(0), NodeId(1), NodeId(1)]),
            lexeme(1),
            Node::Join(vec![NodeId(3)]),
            Node::Select(vec![NodeId(2), NodeId(4)]),
        ]
    );
}
