//! What the compiler does, step by step: the state it works on and, for
//! each piece of a grammar, the state and the result that compiling the piece
//! leaves behind, on success and on failure alike.
//!
//! One set holds the names in progress, of rules and of tokens. A reference
//! to a token whose name is in that set is a circular definition, unless the
//! token is done; a reference to a rule whose name is in it gets a
//! placeholder.

use vstd::prelude::*;

use crate::ast::{AtomView, ExpansionsView, ExprView, ValueView};
use crate::error::{ErrorView, KindView, PatternOrigin};
use crate::grammar_builder::{NodeId, NodeRef, NodeView, ids_of};
use crate::lexical::{Quantifier, quantifier_of};
use crate::pattern::{flagged_pattern, insensitive_pattern, pattern_rejection, range_pattern};
use crate::regex_builder::{RegexId, RegexNodeView, interned};
use crate::syntactic::Defs;

verus! {

/// The state of a compilation.
pub ghost struct Machine {
    /// The regex table.
    pub fragments: Seq<RegexNodeView>,
    /// The node graph.
    pub nodes: Seq<NodeView>,
    /// The number of the unit under construction.
    pub unit: usize,
    /// The fragment of each token that is done.
    pub regex_ids: Map<Seq<char>, RegexId>,
    /// The node recorded for each rule.
    pub node_ids: Map<Seq<char>, NodeRef>,
    /// The names in progress.
    pub in_progress: Set<Seq<char>>,
}

/// A state and the result that a step has left.
pub ghost struct Step<T> {
    pub state: Machine,
    pub res: Result<T, ErrorView>,
}

impl Machine {
    /// The step that leaves this state with the result `value`.
    pub open spec fn done<T>(self, value: T) -> Step<T> {
        Step { state: self, res: Ok(value) }
    }

    /// The step that leaves this state with an error of the kind `kind`.
    pub open spec fn fail<T>(self, kind: KindView) -> Step<T> {
        Step { state: self, res: Err(ErrorView::bare(kind)) }
    }

    /// The step that interns a fragment.
    pub open spec fn intern(self, node: RegexNodeView) -> Step<RegexId> {
        let (fragments, id) = interned(self.fragments, node);
        Machine { fragments, ..self }.done(id)
    }

    /// The step that joins fragments: one alone is the result as it is.
    pub open spec fn concat(self, ids: Seq<RegexId>) -> Step<RegexId> {
        if ids.len() == 1 {
            self.done(ids[0])
        } else {
            self.intern(RegexNodeView::Concat(ids))
        }
    }

    /// The step that makes a choice among fragments: one alone is the
    /// result as it is.
    pub open spec fn select(self, ids: Seq<RegexId>) -> Step<RegexId> {
        if ids.len() == 1 {
            self.done(ids[0])
        } else {
            self.intern(RegexNodeView::Or(ids))
        }
    }

    /// The step that checks a raw pattern and registers it: a pattern that
    /// the syntax check refuses is not registered.
    pub open spec fn register(self, origin: PatternOrigin, pattern: Seq<char>) -> Step<RegexId> {
        match pattern_rejection(pattern) {
            None => self.intern(RegexNodeView::Regex(pattern)),
            Some(reason) => self.fail(KindView::InvalidRegex { pattern, origin, reason }),
        }
    }

    /// The node that the next node added will be.
    pub open spec fn next_node(self) -> NodeRef {
        NodeRef { idx: self.nodes.len() as usize, grammar_id: self.unit }
    }

    /// The step that adds a node at the end of the graph.
    pub open spec fn push(self, node: NodeView) -> Step<NodeRef> {
        Machine { nodes: self.nodes.push(node), ..self }.done(self.next_node())
    }

    /// The step that makes a choice among nodes: one alone is the result as
    /// it is.
    pub open spec fn choose_among(self, options: Seq<NodeRef>) -> Step<NodeRef> {
        if options.len() == 1 {
            self.done(options[0])
        } else {
            self.push(NodeView::Select(ids_of(options)))
        }
    }

    /// The number of tokens that were never entered.
    pub open spec fn token_fuel(self, tokens: Map<Seq<char>, ExpansionsView>) -> nat {
        tokens.dom().difference(self.in_progress.union(self.regex_ids.dom())).len()
    }

    /// The number of rules that were never entered.
    pub open spec fn rule_fuel(self, d: Defs) -> nat {
        d.rules.dom().difference(self.in_progress.union(self.node_ids.dom())).len()
    }
}

/// The fragment under a quantifier.
pub open spec fn quantified_fragment(id: RegexId, q: Quantifier) -> RegexNodeView {
    match q {
        Quantifier::ZeroOrMore => RegexNodeView::Repeat(id, 0, None),
        Quantifier::OneOrMore => RegexNodeView::Repeat(id, 1, None),
        Quantifier::Optional => RegexNodeView::Repeat(id, 0, Some(1u32)),
    }
}

/// The node under a quantifier.
pub open spec fn quantified_node(node: NodeRef, q: Quantifier) -> NodeView {
    match q {
        Quantifier::ZeroOrMore => NodeView::ZeroOrMore(NodeId(node.idx)),
        Quantifier::OneOrMore => NodeView::OneOrMore(NodeId(node.idx)),
        Quantifier::Optional => NodeView::Optional(NodeId(node.idx)),
    }
}

/// Compiling the token `name`: a token that is done gives its fragment; a
/// name in progress is a circular definition; otherwise the name goes in
/// progress, its definition is looked up and compiled, and on success the
/// fragment is recorded and the name leaves the names in progress.
pub open spec fn run_token(tokens: Map<Seq<char>, ExpansionsView>, name: Seq<char>, m: Machine)
    -> Step<RegexId>
    decreases m.token_fuel(tokens), 0nat, name,
    when tokens.dom().finite()
{
    if m.regex_ids.contains_key(name) {
        m.done(m.regex_ids[name])
    } else if m.in_progress.contains(name) {
        m.fail(KindView::CircularToken(name))
    } else {
        let entered = Machine { in_progress: m.in_progress.insert(name), ..m };
        if !tokens.contains_key(name) {
            entered.fail(KindView::TokenNotFound(name))
        } else {
            proof {
                assert(entered.in_progress.union(entered.regex_ids.dom()) =~= m.in_progress.union(
                    m.regex_ids.dom(),
                ).insert(name));
                tokens.dom().lemma_set_insert_diff_decreases(
                    m.in_progress.union(m.regex_ids.dom()),
                    name,
                );
            }
            let body = run_token_body(tokens, tokens[name], entered);
            match body.res {
                Err(_) => body,
                Ok(id) => Machine {
                    regex_ids: body.state.regex_ids.insert(name, id),
                    in_progress: body.state.in_progress.remove(name),
                    ..body.state
                }.done(id),
            }
        }
    }
}

/// Compiling a value of a token definition.
pub open spec fn run_token_value(
    tokens: Map<Seq<char>, ExpansionsView>,
    value: ValueView,
    m: Machine,
) -> Step<RegexId>
    decreases m.token_fuel(tokens), 1nat, value,
    when tokens.dom().finite()
{
    match value {
        ValueView::LiteralRange(start, end) => {
            if start.len() != 1 {
                m.fail(KindView::RangeStartNotSingleChar)
            } else if end.len() != 1 {
                m.fail(KindView::RangeEndNotSingleChar)
            } else if start[0] <= end[0] {
                m.register(PatternOrigin::Range, range_pattern(start, end))
            } else {
                m.fail(KindView::InvalidRangeOrder(start[0], end[0]))
            }
        },
        ValueView::Name(name) => run_token(tokens, name, m),
        ValueView::LiteralString(text, flags) => {
            if flags.contains('i') {
                m.register(PatternOrigin::StringWithIFlag, insensitive_pattern(text))
            } else {
                m.intern(RegexNodeView::Literal(text))
            }
        },
        ValueView::LiteralRegex(pattern, flags) => {
            if flags.contains('l') {
                m.fail(KindView::LiteralFlagNotSupported)
            } else {
                m.register(PatternOrigin::Regex, flagged_pattern(pattern, flags))
            }
        },
        ValueView::TemplateUsage => m.fail(KindView::TemplateNotSupported),
    }
}

/// Compiling an atom of a token definition.
pub open spec fn run_token_atom(tokens: Map<Seq<char>, ExpansionsView>, atom: AtomView, m: Machine)
    -> Step<RegexId>
    decreases m.token_fuel(tokens), 2nat, atom,
    when tokens.dom().finite()
{
    match atom {
        AtomView::Group(inner) => run_token_body(tokens, inner, m),
        AtomView::Maybe(inner) => {
            let body = run_token_body(tokens, inner, m);
            match body.res {
                Err(_) => body,
                Ok(id) => body.state.intern(RegexNodeView::Repeat(id, 0, Some(1u32))),
            }
        },
        AtomView::Value(value) => run_token_value(tokens, value, m),
    }
}

/// The step that puts a fragment under the quantifier or repeat range of
/// an expression. Nothing is added where either is refused.
pub open spec fn run_token_suffix(
    m: Machine,
    id: RegexId,
    op: Option<Seq<char>>,
    range: Option<(i32, i32)>,
) -> Step<RegexId> {
    match range {
        Some((lo, hi)) => {
            if op is Some {
                m.fail(KindView::RangeWithOperator)
            } else if lo < 0 {
                m.fail(KindView::RangeStartNegative)
            } else if hi < lo {
                m.fail(KindView::RangeEndBeforeStart)
            } else {
                m.intern(RegexNodeView::Repeat(id, lo as u32, Some(hi as u32)))
            }
        },
        None => match op {
            None => m.done(id),
            Some(op) => match quantifier_of(op) {
                Some(q) => m.intern(quantified_fragment(id, q)),
                None => m.fail(KindView::UnsupportedOperator(op)),
            },
        },
    }
}

/// Compiling an expression of a token definition: the atom, then its
/// quantifier or repeat range.
pub open spec fn run_token_expr(tokens: Map<Seq<char>, ExpansionsView>, expr: ExprView, m: Machine)
    -> Step<RegexId>
    decreases m.token_fuel(tokens), 2nat, expr,
    when tokens.dom().finite()
{
    let atom = run_token_atom(tokens, expr.atom, m);
    match atom.res {
        Err(_) => atom,
        Ok(id) => run_token_suffix(atom.state, id, expr.op, expr.range),
    }
}

/// Compiling expressions from the left, up to the first that fails.
pub open spec fn run_token_exprs(
    tokens: Map<Seq<char>, ExpansionsView>,
    exprs: Seq<ExprView>,
    m: Machine,
) -> Step<Seq<RegexId>>
    decreases m.token_fuel(tokens), 2nat, exprs,
    when tokens.dom().finite()
{
    if exprs.len() == 0 {
        m.done(Seq::empty())
    } else {
        let front = run_token_exprs(tokens, exprs.drop_last(), m);
        match front.res {
            Err(_) => front,
            Ok(ids) => {
                if front.state.token_fuel(tokens) <= m.token_fuel(tokens) {
                    let last = run_token_expr(tokens, exprs.last(), front.state);
                    match last.res {
                        Err(err) => Step { state: last.state, res: Err(err) },
                        Ok(id) => last.state.done(ids.push(id)),
                    }
                } else {
                    front
                }
            },
        }
    }
}

/// Compiling one alternative of a token definition: its parts, then their
/// sequence.
pub open spec fn run_token_alias(
    tokens: Map<Seq<char>, ExpansionsView>,
    alt: Seq<ExprView>,
    m: Machine,
) -> Step<RegexId> {
    let parts = run_token_exprs(tokens, alt, m);
    match parts.res {
        Err(err) => Step { state: parts.state, res: Err(err) },
        Ok(ids) => parts.state.concat(ids),
    }
}

/// Compiling alternatives from the left, up to the first that fails.
pub open spec fn run_token_aliases(
    tokens: Map<Seq<char>, ExpansionsView>,
    alts: Seq<Seq<ExprView>>,
    m: Machine,
) -> Step<Seq<RegexId>>
    decreases m.token_fuel(tokens), 2nat, alts,
    when tokens.dom().finite()
{
    if alts.len() == 0 {
        m.done(Seq::empty())
    } else {
        let front = run_token_aliases(tokens, alts.drop_last(), m);
        match front.res {
            Err(_) => front,
            Ok(ids) => {
                if front.state.token_fuel(tokens) <= m.token_fuel(tokens) {
                    let parts = run_token_exprs(tokens, alts.last(), front.state);
                    match parts.res {
                        Err(err) => Step { state: parts.state, res: Err(err) },
                        Ok(part_ids) => {
                            let last = parts.state.concat(part_ids);
                            last.state.done(ids.push(last.res->Ok_0))
                        },
                    }
                } else {
                    front
                }
            },
        }
    }
}

/// Compiling a body of a token definition: its alternatives, then the
/// choice among them. An error from inside is noted at the place of the
/// body.
pub open spec fn run_token_body(
    tokens: Map<Seq<char>, ExpansionsView>,
    body: ExpansionsView,
    m: Machine,
) -> Step<RegexId>
    decreases m.token_fuel(tokens), 2nat, body,
    when tokens.dom().finite()
{
    let options = run_token_aliases(tokens, body.alts, m);
    match options.res {
        Err(err) => Step { state: options.state, res: Err(err.at(body.loc)) },
        Ok(ids) => options.state.select(ids),
    }
}

/// Compiling the rule `name`: a rule with a node recorded gives that node;
/// a name in progress gets a fresh placeholder, which is recorded;
/// otherwise the name goes in progress, the rule is looked up and its body
/// compiled, and on success the placeholder that the rule got meanwhile
/// becomes an alias of the node, the node is recorded and the name leaves
/// the names in progress.
pub open spec fn run_rule(d: Defs, name: Seq<char>, m: Machine) -> Step<NodeRef>
    decreases m.rule_fuel(d), 0nat, name,
    when d.rules.dom().finite()
{
    if m.node_ids.contains_key(name) {
        m.done(m.node_ids[name])
    } else if m.in_progress.contains(name) {
        Machine {
            nodes: m.nodes.push(NodeView::Placeholder),
            node_ids: m.node_ids.insert(name, m.next_node()),
            ..m
        }.done(m.next_node())
    } else {
        let entered = Machine { in_progress: m.in_progress.insert(name), ..m };
        if !d.rules.contains_key(name) {
            entered.fail(KindView::RuleNotFound(name))
        } else {
            proof {
                assert(entered.in_progress.union(entered.node_ids.dom()) =~= m.in_progress.union(
                    m.node_ids.dom(),
                ).insert(name));
                d.rules.dom().lemma_set_insert_diff_decreases(
                    m.in_progress.union(m.node_ids.dom()),
                    name,
                );
            }
            let body = run_body(d, d.rules[name], entered);
            match body.res {
                Err(_) => body,
                Ok(node) => Machine {
                    nodes: if body.state.node_ids.contains_key(name) {
                        body.state.nodes.update(
                            body.state.node_ids[name].idx as int,
                            NodeView::Alias(NodeId(node.idx)),
                        )
                    } else {
                        body.state.nodes
                    },
                    node_ids: body.state.node_ids.insert(name, node),
                    in_progress: body.state.in_progress.remove(name),
                    ..body.state
                }.done(node),
            }
        }
    }
}

/// Compiling an atom of a rule. A name of a rule is a reference to the
/// rule; a name of a token and every literal is compiled as a token and
/// lifted into the graph as a lexeme; a name of neither and a template are
/// refused before anything is done.
pub open spec fn run_atom(d: Defs, atom: AtomView, m: Machine) -> Step<NodeRef>
    decreases m.rule_fuel(d), 2nat, atom,
    when d.rules.dom().finite()
{
    match atom {
        AtomView::Group(inner) => run_body(d, inner, m),
        AtomView::Maybe(inner) => {
            let body = run_body(d, inner, m);
            match body.res {
                Err(_) => body,
                Ok(node) => body.state.push(NodeView::Optional(NodeId(node.idx))),
            }
        },
        AtomView::Value(ValueView::TemplateUsage) => m.fail(KindView::TemplateNotSupported),
        AtomView::Value(ValueView::Name(name)) if d.rules.contains_key(name) => run_rule(
            d,
            name,
            m,
        ),
        AtomView::Value(ValueView::Name(name)) if !d.tokens.contains_key(name) => m.fail(
            KindView::UnknownName(name),
        ),
        AtomView::Value(_) => {
            let token = run_token_atom(d.tokens, atom, m);
            match token.res {
                Err(err) => Step { state: token.state, res: Err(err) },
                Ok(rx) => token.state.push(NodeView::Lexeme { rx, contextual: false }),
            }
        },
    }
}

/// Compiling an expression of a rule: a repeat range is refused before
/// anything is done; otherwise the atom, then its quantifier.
pub open spec fn run_expr(d: Defs, expr: ExprView, m: Machine) -> Step<NodeRef>
    decreases m.rule_fuel(d), 2nat, expr,
    when d.rules.dom().finite()
{
    if expr.range is Some {
        m.fail(KindView::RuleRangeNotSupported)
    } else {
        let atom = run_atom(d, expr.atom, m);
        match atom.res {
            Err(_) => atom,
            Ok(node) => match expr.op {
                None => atom,
                Some(op) => match quantifier_of(op) {
                    Some(q) => atom.state.push(quantified_node(node, q)),
                    None => atom.state.fail(KindView::UnsupportedRuleOperator(op)),
                },
            },
        }
    }
}

/// Compiling expressions of a rule from the left, up to the first that
/// fails.
pub open spec fn run_exprs(d: Defs, exprs: Seq<ExprView>, m: Machine) -> Step<Seq<NodeRef>>
    decreases m.rule_fuel(d), 2nat, exprs,
    when d.rules.dom().finite()
{
    if exprs.len() == 0 {
        m.done(Seq::empty())
    } else {
        let front = run_exprs(d, exprs.drop_last(), m);
        match front.res {
            Err(_) => front,
            Ok(nodes) => {
                if front.state.rule_fuel(d) <= m.rule_fuel(d) {
                    let last = run_expr(d, exprs.last(), front.state);
                    match last.res {
                        Err(err) => Step { state: last.state, res: Err(err) },
                        Ok(node) => last.state.done(nodes.push(node)),
                    }
                } else {
                    front
                }
            },
        }
    }
}

/// Compiling one alternative of a rule: its parts, then their sequence.
pub open spec fn run_alias(d: Defs, alt: Seq<ExprView>, m: Machine) -> Step<NodeRef> {
    let parts = run_exprs(d, alt, m);
    match parts.res {
        Err(err) => Step { state: parts.state, res: Err(err) },
        Ok(nodes) => parts.state.push(NodeView::Join(ids_of(nodes))),
    }
}

/// Compiling alternatives of a rule from the left, up to the first that
/// fails.
pub open spec fn run_aliases(d: Defs, alts: Seq<Seq<ExprView>>, m: Machine) -> Step<Seq<NodeRef>>
    decreases m.rule_fuel(d), 2nat, alts,
    when d.rules.dom().finite()
{
    if alts.len() == 0 {
        m.done(Seq::empty())
    } else {
        let front = run_aliases(d, alts.drop_last(), m);
        match front.res {
            Err(_) => front,
            Ok(nodes) => {
                if front.state.rule_fuel(d) <= m.rule_fuel(d) {
                    let parts = run_exprs(d, alts.last(), front.state);
                    match parts.res {
                        Err(err) => Step { state: parts.state, res: Err(err) },
                        Ok(part_nodes) => {
                            let last = parts.state.push(NodeView::Join(ids_of(part_nodes)));
                            last.state.done(nodes.push(last.res->Ok_0))
                        },
                    }
                } else {
                    front
                }
            },
        }
    }
}

/// Compiling a body of a rule: its alternatives, then the choice among
/// them. An error from inside is noted at the place of the body.
pub open spec fn run_body(d: Defs, body: ExpansionsView, m: Machine) -> Step<NodeRef>
    decreases m.rule_fuel(d), 2nat, body,
    when d.rules.dom().finite()
{
    let options = run_aliases(d, body.alts, m);
    match options.res {
        Err(err) => Step { state: options.state, res: Err(err.at(body.loc)) },
        Ok(nodes) => options.state.choose_among(nodes),
    }
}

/// A failure among the first `n` expressions is the failure of them all.
pub proof fn lemma_run_token_exprs_error(
    tokens: Map<Seq<char>, ExpansionsView>,
    exprs: Seq<ExprView>,
    n: int,
    m: Machine,
)
    requires
        tokens.dom().finite(),
        0 <= n <= exprs.len(),
        run_token_exprs(tokens, exprs.take(n), m).res is Err,
    ensures
        run_token_exprs(tokens, exprs, m) == run_token_exprs(tokens, exprs.take(n), m),
    decreases exprs.len(),
{
    if n == exprs.len() {
        assert(exprs.take(n) =~= exprs);
    } else {
        assert(exprs.drop_last().take(n) =~= exprs.take(n));
        lemma_run_token_exprs_error(tokens, exprs.drop_last(), n, m);
    }
}

/// A failure among the first `n` alternatives is the failure of them all.
pub proof fn lemma_run_token_aliases_error(
    tokens: Map<Seq<char>, ExpansionsView>,
    alts: Seq<Seq<ExprView>>,
    n: int,
    m: Machine,
)
    requires
        tokens.dom().finite(),
        0 <= n <= alts.len(),
        run_token_aliases(tokens, alts.take(n), m).res is Err,
    ensures
        run_token_aliases(tokens, alts, m) == run_token_aliases(tokens, alts.take(n), m),
    decreases alts.len(),
{
    if n == alts.len() {
        assert(alts.take(n) =~= alts);
    } else {
        assert(alts.drop_last().take(n) =~= alts.take(n));
        lemma_run_token_aliases_error(tokens, alts.drop_last(), n, m);
    }
}

/// A failure among the first `n` expressions of a rule is the failure of
/// them all.
pub proof fn lemma_run_exprs_error(d: Defs, exprs: Seq<ExprView>, n: int, m: Machine)
    requires
        d.rules.dom().finite(),
        0 <= n <= exprs.len(),
        run_exprs(d, exprs.take(n), m).res is Err,
    ensures
        run_exprs(d, exprs, m) == run_exprs(d, exprs.take(n), m),
    decreases exprs.len(),
{
    if n == exprs.len() {
        assert(exprs.take(n) =~= exprs);
    } else {
        assert(exprs.drop_last().take(n) =~= exprs.take(n));
        lemma_run_exprs_error(d, exprs.drop_last(), n, m);
    }
}

/// A failure among the first `n` alternatives of a rule is the failure of
/// them all.
pub proof fn lemma_run_aliases_error(d: Defs, alts: Seq<Seq<ExprView>>, n: int, m: Machine)
    requires
        d.rules.dom().finite(),
        0 <= n <= alts.len(),
        run_aliases(d, alts.take(n), m).res is Err,
    ensures
        run_aliases(d, alts, m) == run_aliases(d, alts.take(n), m),
    decreases alts.len(),
{
    if n == alts.len() {
        assert(alts.take(n) =~= alts);
    } else {
        assert(alts.drop_last().take(n) =~= alts.take(n));
        lemma_run_aliases_error(d, alts.drop_last(), n, m);
    }
}

/// The step has not failed for want of a rule `start`.
pub open spec fn start_not_missed<T>(step: Step<T>) -> bool {
    step.res matches Err(err) ==> err.kind != KindView::NoStartRule
}

/// No step of the compilation of tokens fails for want of a rule `start`:
/// stated of [`run_token`].
pub proof fn lemma_token_start(tokens: Map<Seq<char>, ExpansionsView>, name: Seq<char>, m: Machine)
    requires
        tokens.dom().finite(),
    ensures
        start_not_missed(run_token(tokens, name, m)),
    decreases m.token_fuel(tokens), 0nat, name,
{
    if !m.regex_ids.contains_key(name) && !m.in_progress.contains(name) && tokens.contains_key(
        name,
    ) {
        let entered = Machine { in_progress: m.in_progress.insert(name), ..m };
        assert(entered.in_progress.union(entered.regex_ids.dom()) =~= m.in_progress.union(
            m.regex_ids.dom(),
        ).insert(name));
        tokens.dom().lemma_set_insert_diff_decreases(m.in_progress.union(m.regex_ids.dom()), name);
        lemma_token_body_start(tokens, tokens[name], entered);
    }
}

/// The same of [`run_token_atom`].
pub proof fn lemma_token_atom_start(
    tokens: Map<Seq<char>, ExpansionsView>,
    atom: AtomView,
    m: Machine,
)
    requires
        tokens.dom().finite(),
    ensures
        start_not_missed(run_token_atom(tokens, atom, m)),
    decreases m.token_fuel(tokens), 2nat, atom,
{
    match atom {
        AtomView::Group(inner) => lemma_token_body_start(tokens, inner, m),
        AtomView::Maybe(inner) => lemma_token_body_start(tokens, inner, m),
        AtomView::Value(ValueView::Name(name)) => lemma_token_start(tokens, name, m),
        AtomView::Value(_) => {},
    }
}

/// The same of [`run_token_exprs`].
pub proof fn lemma_token_exprs_start(
    tokens: Map<Seq<char>, ExpansionsView>,
    exprs: Seq<ExprView>,
    m: Machine,
)
    requires
        tokens.dom().finite(),
    ensures
        start_not_missed(run_token_exprs(tokens, exprs, m)),
    decreases m.token_fuel(tokens), 2nat, exprs,
{
    if exprs.len() > 0 {
        lemma_token_exprs_start(tokens, exprs.drop_last(), m);
        let front = run_token_exprs(tokens, exprs.drop_last(), m);
        if front.res is Ok && front.state.token_fuel(tokens) <= m.token_fuel(tokens) {
            lemma_token_atom_start(tokens, exprs.last().atom, front.state);
            assert(start_not_missed(run_token_expr(tokens, exprs.last(), front.state)));
        }
    }
}

/// The same of [`run_token_aliases`].
pub proof fn lemma_token_aliases_start(
    tokens: Map<Seq<char>, ExpansionsView>,
    alts: Seq<Seq<ExprView>>,
    m: Machine,
)
    requires
        tokens.dom().finite(),
    ensures
        start_not_missed(run_token_aliases(tokens, alts, m)),
    decreases m.token_fuel(tokens), 2nat, alts,
{
    if alts.len() > 0 {
        lemma_token_aliases_start(tokens, alts.drop_last(), m);
        let front = run_token_aliases(tokens, alts.drop_last(), m);
        if front.res is Ok && front.state.token_fuel(tokens) <= m.token_fuel(tokens) {
            lemma_token_exprs_start(tokens, alts.last(), front.state);
        }
    }
}

/// The same of [`run_token_body`].
pub proof fn lemma_token_body_start(
    tokens: Map<Seq<char>, ExpansionsView>,
    body: ExpansionsView,
    m: Machine,
)
    requires
        tokens.dom().finite(),
    ensures
        start_not_missed(run_token_body(tokens, body, m)),
    decreases m.token_fuel(tokens), 2nat, body,
{
    lemma_token_aliases_start(tokens, body.alts, m);
}

/// No step of the compilation of rules fails for want of a rule `start`:
/// stated of [`run_rule`].
pub proof fn lemma_rule_start(d: Defs, name: Seq<char>, m: Machine)
    requires
        d.rules.dom().finite(),
        d.tokens.dom().finite(),
    ensures
        start_not_missed(run_rule(d, name, m)),
    decreases m.rule_fuel(d), 0nat, name,
{
    if !m.node_ids.contains_key(name) && !m.in_progress.contains(name) && d.rules.contains_key(
        name,
    ) {
        let entered = Machine { in_progress: m.in_progress.insert(name), ..m };
        assert(entered.in_progress.union(entered.node_ids.dom()) =~= m.in_progress.union(
            m.node_ids.dom(),
        ).insert(name));
        d.rules.dom().lemma_set_insert_diff_decreases(m.in_progress.union(m.node_ids.dom()), name);
        lemma_body_start(d, d.rules[name], entered);
    }
}

/// The same of [`run_atom`].
pub proof fn lemma_atom_start(d: Defs, atom: AtomView, m: Machine)
    requires
        d.rules.dom().finite(),
        d.tokens.dom().finite(),
    ensures
        start_not_missed(run_atom(d, atom, m)),
    decreases m.rule_fuel(d), 2nat, atom,
{
    match atom {
        AtomView::Group(inner) => lemma_body_start(d, inner, m),
        AtomView::Maybe(inner) => lemma_body_start(d, inner, m),
        AtomView::Value(ValueView::TemplateUsage) => {},
        AtomView::Value(ValueView::Name(name)) if d.rules.contains_key(name) => lemma_rule_start(
            d,
            name,
            m,
        ),
        AtomView::Value(ValueView::Name(name)) if !d.tokens.contains_key(name) => {},
        AtomView::Value(_) => lemma_token_atom_start(d.tokens, atom, m),
    }
}

/// The same of [`run_exprs`].
pub proof fn lemma_exprs_start(d: Defs, exprs: Seq<ExprView>, m: Machine)
    requires
        d.rules.dom().finite(),
        d.tokens.dom().finite(),
    ensures
        start_not_missed(run_exprs(d, exprs, m)),
    decreases m.rule_fuel(d), 2nat, exprs,
{
    if exprs.len() > 0 {
        lemma_exprs_start(d, exprs.drop_last(), m);
        let front = run_exprs(d, exprs.drop_last(), m);
        if front.res is Ok && front.state.rule_fuel(d) <= m.rule_fuel(d) {
            lemma_atom_start(d, exprs.last().atom, front.state);
            assert(start_not_missed(run_expr(d, exprs.last(), front.state)));
        }
    }
}

/// The same of [`run_aliases`].
pub proof fn lemma_aliases_start(d: Defs, alts: Seq<Seq<ExprView>>, m: Machine)
    requires
        d.rules.dom().finite(),
        d.tokens.dom().finite(),
    ensures
        start_not_missed(run_aliases(d, alts, m)),
    decreases m.rule_fuel(d), 2nat, alts,
{
    if alts.len() > 0 {
        lemma_aliases_start(d, alts.drop_last(), m);
        let front = run_aliases(d, alts.drop_last(), m);
        if front.res is Ok && front.state.rule_fuel(d) <= m.rule_fuel(d) {
            lemma_exprs_start(d, alts.last(), front.state);
        }
    }
}

/// The same of [`run_body`].
pub proof fn lemma_body_start(d: Defs, body: ExpansionsView, m: Machine)
    requires
        d.rules.dom().finite(),
        d.tokens.dom().finite(),
    ensures
        start_not_missed(run_body(d, body, m)),
    decreases m.rule_fuel(d), 2nat, body,
{
    lemma_aliases_start(d, body.alts, m);
}

} // verus!
