//! The abstract syntax of a grammar, as a parser of grammar text hands it over.
//!
//! A grammar is a list of [`Item`]s: rules, tokens and statements. The body of
//! a rule or token is an [`Expansions`]: alternatives, each a sequence of
//! [`Expr`]s.

use vstd::prelude::*;

verus! {

/// A position in the grammar text.
#[derive(Clone, Copy, Debug, PartialEq, Eq, Structural)]
pub struct Location {
    pub line: usize,
    pub column: usize,
}

/// Parameters of a rule.
#[derive(Debug)]
pub struct RuleParams(pub Vec<String>);

/// Parameters of a token.
#[derive(Debug)]
pub struct TokenParams(pub Vec<String>);

/// A quantifier written behind an atom: `*`, `+` or `?`.
#[derive(Debug)]
pub struct Op(pub String);

/// A leaf of an expression.
#[derive(Debug)]
pub enum Value {
    /// `"a".."z"`: both ends as written between the quotes.
    LiteralRange(String, String),
    /// A reference to a rule or a token.
    Name(String),
    /// A quoted string and its flags.
    LiteralString(String, String),
    /// A regular expression between slashes and its flags.
    LiteralRegex(String, String),
    /// A use of a template.
    TemplateUsage { name: String, values: Vec<Value> },
}

/// An atom: a group in parentheses, an optional group in brackets, or a value.
#[derive(Debug)]
pub enum Atom {
    Group(Expansions),
    Maybe(Expansions),
    Value(Value),
}

/// An atom with at most one of a quantifier and a repeat range.
#[derive(Debug)]
pub struct Expr {
    pub atom: Atom,
    pub op: Option<Op>,
    pub range: Option<(i32, i32)>,
}

/// A sequence of expressions.
#[derive(Debug)]
pub struct Expansion(pub Vec<Expr>);

/// One alternative, with the name it may have been given.
#[derive(Debug)]
pub struct Alias {
    pub expansion: Expansion,
    pub alias: Option<String>,
}

/// Alternatives, with the place in the text where they start.
#[derive(Debug)]
pub struct Expansions(pub Location, pub Vec<Alias>);

/// A named syntactic definition.
#[derive(Debug)]
pub struct Rule {
    pub name: String,
    pub params: Option<RuleParams>,
    pub priority: Option<i32>,
    pub expansions: Expansions,
}

/// A named lexical definition.
#[derive(Debug)]
pub struct TokenDef {
    pub name: String,
    pub params: Option<TokenParams>,
    pub priority: Option<i32>,
    pub expansions: Expansions,
}

/// A statement of the grammar.
#[derive(Debug)]
pub enum Statement {
    Ignore(Expansions),
    Import { path: String, alias: Option<String> },
    MultiImport { path: String, names: Vec<String> },
    OverrideRule(Box<Rule>),
    Declare(Vec<String>),
}

/// One item of a grammar.
#[derive(Debug)]
pub enum Item {
    Rule(Rule),
    Token(TokenDef),
    Statement(Location, Statement),
}

/// What a [`Value`] holds. The name and the arguments of a template play no
/// part.
pub ghost enum ValueView {
    LiteralRange(Seq<char>, Seq<char>),
    Name(Seq<char>),
    LiteralString(Seq<char>, Seq<char>),
    LiteralRegex(Seq<char>, Seq<char>),
    TemplateUsage,
}

/// What an [`Atom`] holds.
pub ghost enum AtomView {
    Group(ExpansionsView),
    Maybe(ExpansionsView),
    Value(ValueView),
}

/// What an [`Expr`] holds.
pub ghost struct ExprView {
    pub atom: AtomView,
    pub op: Option<Seq<char>>,
    pub range: Option<(i32, i32)>,
}

/// What an [`Expansions`] holds: its place and, of each alternative, the
/// sequence of expressions. The names of alternatives play no part.
pub ghost struct ExpansionsView {
    pub loc: Location,
    pub alts: Seq<Seq<ExprView>>,
}

/// The view of a value.
pub open spec fn view_value(value: Value) -> ValueView {
    match value {
        Value::LiteralRange(start, end) => ValueView::LiteralRange(start@, end@),
        Value::Name(name) => ValueView::Name(name@),
        Value::LiteralString(text, flags) => ValueView::LiteralString(text@, flags@),
        Value::LiteralRegex(pattern, flags) => ValueView::LiteralRegex(pattern@, flags@),
        Value::TemplateUsage { .. } => ValueView::TemplateUsage,
    }
}

/// The view of an atom.
pub open spec fn view_atom(atom: Atom) -> AtomView
    decreases atom,
{
    match atom {
        Atom::Group(inner) => AtomView::Group(view_expansions(inner)),
        Atom::Maybe(inner) => AtomView::Maybe(view_expansions(inner)),
        Atom::Value(value) => AtomView::Value(view_value(value)),
    }
}

/// The view of an expression.
pub open spec fn view_expr(expr: Expr) -> ExprView
    decreases expr,
{
    ExprView {
        atom: view_atom(expr.atom),
        op: match expr.op {
            Some(op) => Some(op.0@),
            None => None,
        },
        range: expr.range,
    }
}

/// The views of expressions.
pub open spec fn view_exprs(exprs: Seq<Expr>) -> Seq<ExprView>
    decreases exprs,
{
    Seq::new(
        exprs.len(),
        |i: int|
            if 0 <= i < exprs.len() {
                view_expr(exprs[i])
            } else {
                arbitrary()
            },
    )
}

/// The views of alternatives.
pub open spec fn view_aliases(aliases: Seq<Alias>) -> Seq<Seq<ExprView>>
    decreases aliases,
{
    Seq::new(
        aliases.len(),
        |i: int|
            if 0 <= i < aliases.len() {
                view_exprs(aliases[i].expansion.0@)
            } else {
                arbitrary()
            },
    )
}

/// The view of a body.
pub open spec fn view_expansions(body: Expansions) -> ExpansionsView
    decreases body,
{
    ExpansionsView { loc: body.0, alts: view_aliases(body.1@) }
}

impl View for Value {
    type V = ValueView;

    open spec fn view(&self) -> ValueView {
        view_value(*self)
    }
}

impl View for Atom {
    type V = AtomView;

    open spec fn view(&self) -> AtomView {
        view_atom(*self)
    }
}

impl View for Expr {
    type V = ExprView;

    open spec fn view(&self) -> ExprView {
        view_expr(*self)
    }
}

impl View for Alias {
    type V = Seq<ExprView>;

    open spec fn view(&self) -> Seq<ExprView> {
        view_exprs(self.expansion.0@)
    }
}

impl View for Expansions {
    type V = ExpansionsView;

    open spec fn view(&self) -> ExpansionsView {
        view_expansions(*self)
    }
}

/// What a [`Statement`] holds. What an override or a declaration holds
/// plays no part.
pub ghost enum StatementView {
    Ignore(ExpansionsView),
    Import { path: Seq<char>, alias: Option<Seq<char>> },
    MultiImport { path: Seq<char>, names: Seq<Seq<char>> },
    OverrideRule,
    Declare,
}

/// What an [`Item`] holds. Of parameters and priorities only their presence
/// plays a part.
pub ghost enum ItemView {
    Rule { name: Seq<char>, params: bool, priority: bool, body: ExpansionsView },
    Token { name: Seq<char>, params: bool, priority: bool, body: ExpansionsView },
    Statement(Location, StatementView),
}

/// The strings of a list as sequences of characters.
pub open spec fn view_names(names: Seq<String>) -> Seq<Seq<char>> {
    Seq::new(names.len(), |i: int| names[i]@)
}

impl View for Statement {
    type V = StatementView;

    open spec fn view(&self) -> StatementView {
        match *self {
            Statement::Ignore(body) => StatementView::Ignore(body@),
            Statement::Import { path, alias } => StatementView::Import {
                path: path@,
                alias: match alias {
                    Some(a) => Some(a@),
                    None => None,
                },
            },
            Statement::MultiImport { path, names } => StatementView::MultiImport {
                path: path@,
                names: view_names(names@),
            },
            Statement::OverrideRule(_) => StatementView::OverrideRule,
            Statement::Declare(_) => StatementView::Declare,
        }
    }
}

impl View for Item {
    type V = ItemView;

    open spec fn view(&self) -> ItemView {
        match *self {
            Item::Rule(rule) => ItemView::Rule {
                name: rule.name@,
                params: rule.params is Some,
                priority: rule.priority is Some,
                body: rule.expansions@,
            },
            Item::Token(token) => ItemView::Token {
                name: token.name@,
                params: token.params is Some,
                priority: token.priority is Some,
                body: token.expansions@,
            },
            Item::Statement(loc, statement) => ItemView::Statement(loc, statement@),
        }
    }
}

/// The views of the items of a grammar.
pub open spec fn view_items(items: Seq<Item>) -> Seq<ItemView> {
    Seq::new(items.len(), |i: int| items[i]@)
}

} // verus!
