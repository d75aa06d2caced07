use lark_compiler::compiler::{parse_quantifier, Compiler};
use lark_compiler::error::{CompileError, ErrorKind, PatternOrigin};
use lark_compiler::grammar_builder::{
    BuilderError, GrammarBuilder, GrammarWithLexer, Node, NodeId,
};
use lark_compiler::lexical::Quantifier;
use lark_compiler::ast::{
    Alias, Atom, Expansion, Expansions, Expr, Item, Location, Op, Rule, Statement, TokenDef,
    Value,
};
use lark_compiler::pattern::{flagged_pattern_text, insensitive_pattern_text, range_pattern_text};
use lark_compiler::regex_builder::{RegexBuilder, RegexId, RegexNode};
use lark_compiler::text::{contains_char, last_path_segment, str_eq};

#[test]
fn strings_are_compared_by_their_characters() {
    assert!(str_eq("", ""));
    assert!(str_eq("abc", "abc"));
    assert!(str_eq("\u{e9}t\u{e9}", "\u{e9}t\u{e9}"));
    assert!(!str_eq("abc", "abd"));
    assert!(!str_eq("abc", "ab"));
    assert!(!str_eq("", "a"));
    assert!(!str_eq("e", "\u{e9}"));
}

#[test]
fn characters_are_found_in_strings() {
    assert!(contains_char("abc", 'a'));
    assert!(contains_char("abc", 'c'));
    assert!(!contains_char("abc", 'd'));
    assert!(!contains_char("", 'a'));
    assert!(contains_char("s\u{e9}l", 'l'));
    assert!(contains_char("s\u{e9}l", '\u{e9}'));
}

#[test]
fn last_segment_of_a_path() {
    assert_eq!(last_path_segment("common.INT"), "INT");
    assert_eq!(last_path_segment("a.b.c"), "c");
    assert_eq!(last_path_segment("INT"), "INT");
    assert_eq!(last_path_segment("a."), "");
    assert_eq!(last_path_segment(""), "");
    assert_eq!(last_path_segment(".x"), "x");
    assert_eq!(last_path_segment("\u{e9}.\u{e8}\u{ea}"), "\u{e8}\u{ea}");
}

#[test]
fn patterns_are_assembled() {
    assert_eq!(range_pattern_text("a", "z"), "[a-z]");
    assert_eq!(range_pattern_text("-", "^"), "[\\--\\^]");
    assert_eq!(insensitive_pattern_text("a+b"), "(?i)a\\+b");
    assert_eq!(insensitive_pattern_text(""), "(?i)");
    assert_eq!(
        insensitive_pattern_text("\\.+*?()|[]{}^$#&-~"),
        "(?i)\\\\\\.\\+\\*\\?\\(\\)\\|\\[\\]\\{\\}\\^\\$\\#\\&\\-\\~"
    );
    assert_eq!(insensitive_pattern_text("a b/c%d"), "(?i)a b/c%d");
    assert_eq!(flagged_pattern_text("a|b", ""), "a|b");
    assert_eq!(flagged_pattern_text("a|b", "i"), "(?i)a|b");
    assert_eq!(flagged_pattern_text("", "sx"), "(?sx)");
}

#[test]
fn quantifiers_are_read() {
    assert_eq!(parse_quantifier("*"), Some(Quantifier::ZeroOrMore));
    assert_eq!(parse_quantifier("+"), Some(Quantifier::OneOrMore));
    assert_eq!(parse_quantifier("?"), Some(Quantifier::Optional));
    assert_eq!(parse_quantifier(""), None);
    assert_eq!(parse_quantifier("**"), None);
    assert_eq!(parse_quantifier("~"), None);
}

#[test]
fn errors_note_their_places() {
    let e = CompileError::new(ErrorKind::NoStartRule);
    assert_eq!(e.trace, Vec::<Location>::new());
    let e = e.augment(Location { line: 3, column: 4 }).augment(Location { line: 1, column: 2 });
    assert_eq!(e.kind, ErrorKind::NoStartRule);
    assert_eq!(e.trace, vec![Location { line: 3, column: 4 }, Location { line: 1, column: 2 }]);
}

#[test]
fn regex_fragments_are_interned() {
    let mut b = RegexBuilder::new();
    assert_eq!(b.len(), 0);
    let a = b.literal("a".to_string());
    let a2 = b.literal("a".to_string());
    let r = b.regex("a".to_string());
    assert_eq!(a, RegexId(0));
    assert_eq!(a2, a);
    assert_eq!(r, RegexId(1));
    let c = b.concat(vec![a, r]);
    let c2 = b.concat(vec![a, r]);
    let o = b.select(vec![a, r]);
    assert_eq!(c, RegexId(2));
    assert_eq!(c2, c);
    assert_eq!(o, RegexId(3));
    assert_eq!(b.concat(vec![r]), r);
    assert_eq!(b.select(vec![c]), c);
    let none = b.select(Vec::new());
    let empty = b.concat(Vec::new());
    assert_eq!(none, RegexId(4));
    assert_eq!(empty, RegexId(5));
    let opt = b.optional(a);
    let star = b.zero_or_more(a);
    let plus = b.one_or_more(a);
    let rep = b.repeat(a, 0, Some(1));
    assert_eq!(rep, opt);
    assert_eq!(b.repeat(a, 0, None), star);
    assert_eq!(b.repeat(a, 1, None), plus);
    assert_eq!(b.len(), 9);
    assert_eq!(
        b.finalize(),
        vec![
            RegexNode::Literal("a".to_string()),
            RegexNode::Regex("a".to_string()),
            RegexNode::Concat(vec![RegexId(0), RegexId(1)]),
            RegexNode::Or(vec![RegexId(0), RegexId(1)]),
            RegexNode::Or(vec![]),
            RegexNode::Concat(vec![]),
            RegexNode::Repeat(RegexId(0), 0, Some(1)),
            RegexNode::Repeat(RegexId(0), 0, None),
            RegexNode::Repeat(RegexId(0), 1, None),
        ]
    );
}

#[test]
fn builder_hands_out_a_complete_document() {
    let mut b = GrammarBuilder::new();
    b.add_grammar(GrammarWithLexer::default());
    let rx = b.regex.literal("a".to_string());
    let lex = b.lexeme(rx, true);
    let p = b.placeholder();
    assert!(b.is_placeholder(p));
    assert!(!b.is_placeholder(lex));
    let j = b.join(&vec![lex, p]);
    let s = b.select(&vec![j, lex]);
    assert_eq!(b.select(&vec![j]), j);
    let o = b.optional(s);
    let z = b.zero_or_more(o);
    let m = b.one_or_more(z);
    b.set_placeholder(p, m);
    assert!(!b.is_placeholder(p));
    b.set_start_node(m);
    b.set_greedy_skip(rx);
    let doc = b.finalize().unwrap();
    assert_eq!(doc.grammars.len(), 1);
    let unit = &doc.grammars[0];
    assert_eq!(
        unit.nodes,
        vec![
            Node::Lexeme { rx: RegexId(0), contextual: true },
            Node::Alias(NodeId(6)),
            Node::Join(vec![NodeId(0), NodeId(1)]),
            Node::Select(vec![NodeId(2), NodeId(0)]),
            Node::Optional(NodeId(3)),
            Node::ZeroOrMore(NodeId(4)),
            Node::OneOrMore(NodeId(5)),
        ]
    );
    assert_eq!(unit.rx_nodes, vec![RegexNode::Literal("a".to_string())]);
    assert_eq!(unit.start_node, Some(NodeId(6)));
    assert_eq!(unit.greedy_skip_rx, Some(RegexId(0)));
}

#[test]
fn builder_refuses_an_unresolved_placeholder() {
    let mut b = GrammarBuilder::new();
    b.add_grammar(GrammarWithLexer::default());
    let p = b.placeholder();
    b.set_start_node(p);
    assert_eq!(b.finalize(), Err(BuilderError::UnresolvedPlaceholder));
}

#[test]
fn builder_refuses_a_unit_without_start() {
    let mut b = GrammarBuilder::new();
    b.add_grammar(GrammarWithLexer::default());
    let rx = b.regex.literal("a".to_string());
    b.lexeme(rx, false);
    assert_eq!(b.finalize(), Err(BuilderError::MissingStartNode));
    let mut b = GrammarBuilder::new();
    b.add_grammar(GrammarWithLexer::default());
    b.placeholder();
    assert_eq!(b.finalize(), Err(BuilderError::UnresolvedPlaceholder));
}

#[test]
fn builder_keeps_units_apart() {
    let b = GrammarBuilder::new();
    assert_eq!(b.finalize().unwrap().grammars.len(), 0);
    let mut b = GrammarBuilder::new();
    b.add_grammar(GrammarWithLexer::default());
    let rx = b.regex.literal("a".to_string());
    let first = b.lexeme(rx, false);
    b.set_start_node(first);
    b.add_grammar(GrammarWithLexer::default());
    let rx = b.regex.literal("b".to_string());
    let second = b.lexeme(rx, false);
    assert_eq!(second.idx, 0);
    assert_eq!(second.grammar_id, 1);
    b.set_start_node(second);
    let doc = b.finalize().unwrap();
    assert_eq!(doc.grammars.len(), 2);
    assert_eq!(doc.grammars[0].rx_nodes, vec![RegexNode::Literal("a".to_string())]);
    assert_eq!(doc.grammars[1].rx_nodes, vec![RegexNode::Literal("b".to_string())]);
    assert_eq!(doc.grammars[1].start_node, Some(NodeId(0)));
}

#[test]
fn checked_patterns_are_registered_or_reported() {
    let mut c = Compiler::new();
    c.builder.add_grammar(GrammarWithLexer::default());
    let id = c.register_pattern(PatternOrigin::Range, "[a-z]".to_string(), Ok(())).unwrap();
    assert_eq!(id, RegexId(0));
    assert_eq!(c.builder.regex.len(), 1);
    let e = c
        .register_pattern(
            PatternOrigin::StringWithIFlag,
            "(?i)x".to_string(),
            Err("no".to_string()),
        )
        .unwrap_err();
    assert_eq!(
        e.kind,
        ErrorKind::InvalidRegex {
            pattern: "(?i)x".to_string(),
            origin: PatternOrigin::StringWithIFlag,
            reason: "no".to_string(),
        }
    );
    assert_eq!(c.builder.regex.len(), 1);
}

fn one_token_grammar() -> Vec<Item> {
    let body = |text: &str| {
        Expansions(
            Location { line: 1, column: 1 },
            vec![Alias {
                expansion: Expansion(vec![Expr {
                    atom: Atom::Value(Value::LiteralString(text.to_string(), String::new())),
                    op: None,
                    range: None,
                }]),
                alias: None,
            }],
        )
    };
    vec![
        Item::Rule(Rule {
            name: "start".to_string(),
            params: None,
            priority: None,
            expansions: body("a"),
        }),
        Item::Token(TokenDef {
            name: "T".to_string(),
            params: None,
            priority: None,
            expansions: body("t"),
        }),
    ]
}

#[test]
fn unknown_rule_and_token_are_reported_by_name() {
    let mut c = Compiler::new();
    let tables = c.gather(one_token_grammar()).unwrap();
    c.builder.add_grammar(GrammarWithLexer::default());
    let e = c.do_rule(&tables, "nowhere").unwrap_err();
    assert_eq!(e.kind, ErrorKind::RuleNotFound("nowhere".to_string()));
    let mut c = Compiler::new();
    let tables = c.gather(one_token_grammar()).unwrap();
    c.builder.add_grammar(GrammarWithLexer::default());
    let e = c.do_token(&tables, "start").unwrap_err();
    assert_eq!(e.kind, ErrorKind::TokenNotFound("start".to_string()));
}

#[test]
fn a_name_is_compiled_once() {
    let mut c = Compiler::new();
    let tables = c.gather(one_token_grammar()).unwrap();
    c.builder.add_grammar(GrammarWithLexer::default());
    let first = c.do_token(&tables, "T").unwrap();
    let fragments = c.builder.regex.len();
    let second = c.do_token(&tables, "T").unwrap();
    assert_eq!(first, second);
    assert_eq!(c.builder.regex.len(), fragments);
    let node = c.do_rule(&tables, "start").unwrap();
    let nodes = c.builder.nodes.len();
    let again = c.do_rule(&tables, "start").unwrap();
    assert_eq!(node, again);
    assert_eq!(c.builder.nodes.len(), nodes);
    assert_eq!(c.builder.regex.len(), fragments + 1);
}

#[test]
fn imported_token_definition() {
    let def = Compiler::mk_token_def(&Location { line: 4, column: 2 }, "INT".to_string(), "[0-9]+");
    assert_eq!(def.name, "INT");
    assert!(def.params.is_none());
    assert!(def.priority.is_none());
    assert_eq!(def.expansions.0, Location { line: 4, column: 2 });
    assert_eq!(def.expansions.1.len(), 1);
    assert!(def.expansions.1[0].alias.is_none());
    let exprs = &def.expansions.1[0].expansion.0;
    assert_eq!(exprs.len(), 1);
    assert!(exprs[0].op.is_none());
    assert!(exprs[0].range.is_none());
    match &exprs[0].atom {
        Atom::Value(Value::LiteralRegex(pattern, flags)) => {
            assert_eq!(pattern, "[0-9]+");
            assert_eq!(flags, "");
        },
        other => panic!("unexpected: {:?}", other),
    }
}

fn string_atom(text: &str, flags: &str) -> Atom {
    Atom::Value(Value::LiteralString(text.to_string(), flags.to_string()))
}

#[test]
fn refused_atoms_change_nothing() {
    let mut c = Compiler::new();
    let tables = c.gather(one_token_grammar()).unwrap();
    c.builder.add_grammar(GrammarWithLexer::default());
    let inverted = Atom::Value(Value::LiteralRange("z".to_string(), "a".to_string()));
    assert!(c.do_token_atom(&tables, &inverted).is_err());
    let long = Atom::Value(Value::LiteralRange("ab".to_string(), "c".to_string()));
    assert!(c.do_token_atom(&tables, &long).is_err());
    let flagged = Atom::Value(Value::LiteralRegex("a".to_string(), "l".to_string()));
    assert!(c.do_token_atom(&tables, &flagged).is_err());
    let broken = Atom::Value(Value::LiteralRegex("(".to_string(), String::new()));
    assert!(c.do_token_atom(&tables, &broken).is_err());
    let unknown = Atom::Value(Value::Name("nowhere".to_string()));
    assert!(c.do_atom(&tables, &unknown).is_err());
    assert_eq!(c.builder.regex.len(), 0);
    assert_eq!(c.builder.nodes.len(), 0);
    assert_eq!(c.regex_ids.len(), 0);
    assert_eq!(c.node_ids.len(), 0);
    assert_eq!(c.in_progress.len(), 0);
}

#[test]
fn refused_suffix_leaves_the_atom() {
    let mut c = Compiler::new();
    let tables = c.gather(one_token_grammar()).unwrap();
    c.builder.add_grammar(GrammarWithLexer::default());
    let both = Expr {
        atom: string_atom("a", ""),
        op: Some(Op("*".to_string())),
        range: Some((1, 2)),
    };
    assert_eq!(c.do_token_expr(&tables, &both).unwrap_err().kind, ErrorKind::RangeWithOperator);
    let backwards = Expr { atom: string_atom("a", ""), op: None, range: Some((3, 2)) };
    assert_eq!(
        c.do_token_expr(&tables, &backwards).unwrap_err().kind,
        ErrorKind::RangeEndBeforeStart
    );
    let negative = Expr { atom: string_atom("a", ""), op: None, range: Some((-1, 2)) };
    assert_eq!(
        c.do_token_expr(&tables, &negative).unwrap_err().kind,
        ErrorKind::RangeStartNegative
    );
    assert_eq!(c.builder.regex.finalize(), vec![RegexNode::Literal("a".to_string())]);
    let mut c = Compiler::new();
    let tables = c.gather(one_token_grammar()).unwrap();
    c.builder.add_grammar(GrammarWithLexer::default());
    let ranged = Expr { atom: string_atom("a", ""), op: None, range: Some((1, 2)) };
    assert_eq!(c.do_expr(&tables, &ranged).unwrap_err().kind, ErrorKind::RuleRangeNotSupported);
    assert_eq!(c.builder.regex.len(), 0);
    assert_eq!(c.builder.nodes.len(), 0);
}

#[test]
fn name_in_progress_and_name_not_found() {
    let mut c = Compiler::new();
    let tables = c.gather(one_token_grammar()).unwrap();
    c.builder.add_grammar(GrammarWithLexer::default());
    c.in_progress.insert("T".to_string());
    let e = c.do_token(&tables, "T").unwrap_err();
    assert_eq!(e.kind, ErrorKind::CircularToken("T".to_string()));
    assert_eq!(c.in_progress.len(), 1);
    assert_eq!(c.regex_ids.len(), 0);
    assert_eq!(c.builder.regex.len(), 0);
    let e = c.do_token(&tables, "U").unwrap_err();
    assert_eq!(e.kind, ErrorKind::TokenNotFound("U".to_string()));
    assert_eq!(c.in_progress.len(), 2);
    assert_eq!(c.regex_ids.len(), 0);
    assert_eq!(c.builder.regex.len(), 0);
}

#[test]
fn refused_grammar_opens_no_unit() {
    let mut c = Compiler::new();
    let mut items = one_token_grammar();
    items.remove(0);
    assert_eq!(c.execute(items).unwrap_err().kind, ErrorKind::NoStartRule);
    assert_eq!(c.builder.top_grammar.grammars.len(), 0);
    assert_eq!(c.node_ids.len(), 0);
    assert_eq!(c.regex_ids.len(), 0);
    let mut c = Compiler::new();
    let mut items = one_token_grammar();
    items.push(Item::Statement(
        Location { line: 9, column: 1 },
        Statement::Import { path: "common.bogus".to_string(), alias: None },
    ));
    let e = c.execute(items).unwrap_err();
    assert_eq!(e.kind, ErrorKind::UnknownCommonRegex("common.bogus".to_string()));
    assert_eq!(c.builder.top_grammar.grammars.len(), 0);
    assert_eq!(c.ignore.len(), 0);
}

#[test]
fn refused_statement_changes_nothing() {
    let mut c = Compiler::new();
    let here = Location { line: 1, column: 1 };
    let import =
        Statement::Import { path: "common.bogus".to_string(), alias: None };
    assert!(c.do_statement(&here, import).is_err());
    assert!(c.do_statement(&here, Statement::Declare(Vec::new())).is_err());
    assert_eq!(c.ignore.len(), 0);
    let def = Compiler::mk_token_def(&here, "X".to_string(), "x");
    assert!(def.expansions.1[0].alias.is_none());
}
