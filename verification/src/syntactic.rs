//! What the rules of a grammar mean: when a node of the graph stands for a
//! piece of a rule.

use vstd::prelude::*;
use crate::ast::{AtomView, ExpansionsView, ExprView, ValueView};
use crate::error::ErrorView;
use crate::grammar_builder::{NodeId, NodeRef, NodeView};
use crate::lexical::{Quantifier, quantifier_of, token_atom};
use crate::regex_builder::{
    RegexNodeView, Rx, lemma_term_stable, table_prefix, table_wf, term_of,
};

verus! {

/// The definitions of a grammar: the body of each rule and of each token.
pub ghost struct Defs {
    pub rules: Map<Seq<char>, ExpansionsView>,
    pub tokens: Map<Seq<char>, ExpansionsView>,
}

/// A node graph with its regex table, and the node recorded for each rule.
pub ghost struct Graph {
    pub nodes: Seq<NodeView>,
    pub fragments: Seq<RegexNodeView>,
    pub names: Map<Seq<char>, NodeRef>,
}

impl Graph {
    /// The node at `n` is a sequence or a choice.
    pub open spec fn is_composite(self, n: NodeId) -> bool {
        &&& n.0 < self.nodes.len()
        &&& (self.nodes[n.0 as int] is Join || self.nodes[n.0 as int] is Select)
    }

    /// The node at `n` stands for the rule `name`: it is the node recorded
    /// for the rule, or an alias of that node.
    pub open spec fn refers_to(self, n: NodeId, name: Seq<char>) -> bool {
        &&& n.0 < self.nodes.len()
        &&& self.names.contains_key(name)
        &&& (n.0 == self.names[name].idx || self.nodes[n.0 as int] == NodeView::Alias(
            NodeId(self.names[name].idx),
        ))
    }

    /// `later` is a later state of this graph: nodes and fragments were
    /// added, placeholders may have been resolved, and every node that stood
    /// for a rule stands for it still.
    pub open spec fn keeps(self, later: Graph) -> bool {
        &&& self.nodes.len() <= later.nodes.len()
        &&& forall|i: int|
            0 <= i < self.nodes.len() && self.nodes[i] != NodeView::Placeholder
                ==> #[trigger] later.nodes[i] == self.nodes[i]
        &&& table_wf(self.fragments)
        &&& table_prefix(self.fragments, later.fragments)
        &&& forall|n: NodeId, name: Seq<char>| #[trigger]
            self.refers_to(n, name) ==> later.refers_to(n, name)
    }
}

/// The node at `n` stands for `atom`.
pub open spec fn realizes_atom(g: Graph, d: Defs, n: NodeId, atom: AtomView) -> bool
    decreases atom,
{
    &&& n.0 < g.nodes.len()
    &&& match atom {
        AtomView::Group(inner) => realizes_expansions(g, d, n, inner),
        AtomView::Maybe(inner) => g.nodes[n.0 as int] matches NodeView::Optional(sub)
            && realizes_expansions(g, d, sub, inner),
        AtomView::Value(ValueView::TemplateUsage) => false,
        AtomView::Value(ValueView::Name(name)) if d.rules.contains_key(name) => g.refers_to(
            n,
            name,
        ),
        AtomView::Value(ValueView::Name(name)) if !d.tokens.contains_key(name) => false,
        AtomView::Value(_) => {
            &&& g.nodes[n.0 as int] matches NodeView::Lexeme { rx, contextual }
            &&& !contextual
            &&& rx.0 < g.fragments.len()
            &&& token_atom(d.tokens, atom, Set::empty()) == Ok::<Rx, ErrorView>(
                term_of(g.fragments, rx.0 as int),
            )
        },
    }
}

/// The node at `n` stands for `expr`: for its atom, under its quantifier.
pub open spec fn realizes_expr(g: Graph, d: Defs, n: NodeId, expr: ExprView) -> bool
    decreases expr,
{
    &&& n.0 < g.nodes.len()
    &&& expr.range is None
    &&& match expr.op {
        None => realizes_atom(g, d, n, expr.atom),
        Some(op) => match quantifier_of(op) {
            Some(Quantifier::ZeroOrMore) => g.nodes[n.0 as int] matches NodeView::ZeroOrMore(sub)
                && realizes_atom(g, d, sub, expr.atom),
            Some(Quantifier::OneOrMore) => g.nodes[n.0 as int] matches NodeView::OneOrMore(sub)
                && realizes_atom(g, d, sub, expr.atom),
            Some(Quantifier::Optional) => g.nodes[n.0 as int] matches NodeView::Optional(sub)
                && realizes_atom(g, d, sub, expr.atom),
            None => false,
        },
    }
}

/// The nodes at `kids` stand for `exprs`, one for one.
pub open spec fn realizes_exprs(g: Graph, d: Defs, kids: Seq<NodeId>, exprs: Seq<ExprView>) -> bool
    decreases exprs,
{
    &&& kids.len() == exprs.len()
    &&& exprs.len() > 0 ==> {
        &&& realizes_exprs(g, d, kids.drop_last(), exprs.drop_last())
        &&& realizes_expr(g, d, kids.last(), exprs.last())
    }
}

/// The node at `n` stands for the alternative `alt`: it is the sequence of
/// nodes that stand for its parts.
pub open spec fn realizes_alias(g: Graph, d: Defs, n: NodeId, alt: Seq<ExprView>) -> bool {
    &&& n.0 < g.nodes.len()
    &&& g.nodes[n.0 as int] matches NodeView::Join(kids)
    &&& realizes_exprs(g, d, kids, alt)
}

/// The nodes at `kids` stand for `aliases`, one for one.
pub open spec fn realizes_aliases(g: Graph, d: Defs, kids: Seq<NodeId>, aliases: Seq<Seq<ExprView>>)
    -> bool
    decreases aliases,
{
    &&& kids.len() == aliases.len()
    &&& aliases.len() > 0 ==> {
        &&& realizes_aliases(g, d, kids.drop_last(), aliases.drop_last())
        &&& kids.last().0 < g.nodes.len()
        &&& g.nodes[kids.last().0 as int] matches NodeView::Join(parts)
        &&& realizes_exprs(g, d, parts, aliases.last())
    }
}

/// The node at `n` stands for `body`: it is the choice among nodes that
/// stand for its alternatives or, with one alternative, the node of that
/// alternative.
pub open spec fn realizes_expansions(g: Graph, d: Defs, n: NodeId, body: ExpansionsView) -> bool
    decreases body,
{
    &&& n.0 < g.nodes.len()
    &&& if body.alts.len() == 1 {
        g.nodes[n.0 as int] matches NodeView::Join(parts) && realizes_exprs(
            g,
            d,
            parts,
            body.alts[0],
        )
    } else {
        g.nodes[n.0 as int] matches NodeView::Select(kids) && realizes_aliases(
            g,
            d,
            kids,
            body.alts,
        )
    }
}

/// What a node stands for, it stands for in every later state of the graph:
/// stated of [`realizes_atom`].
pub proof fn lemma_keeps_atom(g: Graph, h: Graph, d: Defs, n: NodeId, atom: AtomView)
    requires
        g.keeps(h),
        realizes_atom(g, d, n, atom),
    ensures
        realizes_atom(h, d, n, atom),
    decreases atom,
{
    match atom {
        AtomView::Group(inner) => lemma_keeps_expansions(g, h, d, n, inner),
        AtomView::Maybe(inner) => {
            let sub = g.nodes[n.0 as int]->Optional_0;
            lemma_keeps_expansions(g, h, d, sub, inner);
        },
        AtomView::Value(ValueView::TemplateUsage) => {},
        AtomView::Value(ValueView::Name(name)) if d.rules.contains_key(name) => {},
        AtomView::Value(ValueView::Name(name)) if !d.tokens.contains_key(name) => {},
        AtomView::Value(_) => {
            let rx = g.nodes[n.0 as int]->Lexeme_rx;
            lemma_term_stable(g.fragments, h.fragments, rx.0 as int);
        },
    }
}

/// The same of [`realizes_expr`].
pub proof fn lemma_keeps_expr(g: Graph, h: Graph, d: Defs, n: NodeId, expr: ExprView)
    requires
        g.keeps(h),
        realizes_expr(g, d, n, expr),
    ensures
        realizes_expr(h, d, n, expr),
    decreases expr,
{
    match expr.op {
        None => lemma_keeps_atom(g, h, d, n, expr.atom),
        Some(op) => match quantifier_of(op) {
            Some(Quantifier::ZeroOrMore) => lemma_keeps_atom(
                g,
                h,
                d,
                g.nodes[n.0 as int]->ZeroOrMore_0,
                expr.atom,
            ),
            Some(Quantifier::OneOrMore) => lemma_keeps_atom(
                g,
                h,
                d,
                g.nodes[n.0 as int]->OneOrMore_0,
                expr.atom,
            ),
            Some(Quantifier::Optional) => lemma_keeps_atom(
                g,
                h,
                d,
                g.nodes[n.0 as int]->Optional_0,
                expr.atom,
            ),
            None => {},
        },
    }
}

/// The same of [`realizes_exprs`].
pub proof fn lemma_keeps_exprs(g: Graph, h: Graph, d: Defs, kids: Seq<NodeId>, exprs: Seq<ExprView>)
    requires
        g.keeps(h),
        realizes_exprs(g, d, kids, exprs),
    ensures
        realizes_exprs(h, d, kids, exprs),
    decreases exprs,
{
    if exprs.len() > 0 {
        lemma_keeps_exprs(g, h, d, kids.drop_last(), exprs.drop_last());
        lemma_keeps_expr(g, h, d, kids.last(), exprs.last());
    }
}

/// The same of [`realizes_aliases`].
pub proof fn lemma_keeps_aliases(
    g: Graph,
    h: Graph,
    d: Defs,
    kids: Seq<NodeId>,
    aliases: Seq<Seq<ExprView>>,
)
    requires
        g.keeps(h),
        realizes_aliases(g, d, kids, aliases),
    ensures
        realizes_aliases(h, d, kids, aliases),
    decreases aliases,
{
    if aliases.len() > 0 {
        lemma_keeps_aliases(g, h, d, kids.drop_last(), aliases.drop_last());
        lemma_keeps_exprs(g, h, d, g.nodes[kids.last().0 as int]->Join_0, aliases.last());
    }
}

/// The same of [`realizes_expansions`].
pub proof fn lemma_keeps_expansions(g: Graph, h: Graph, d: Defs, n: NodeId, body: ExpansionsView)
    requires
        g.keeps(h),
        realizes_expansions(g, d, n, body),
    ensures
        realizes_expansions(h, d, n, body),
    decreases body,
{
    if body.alts.len() == 1 {
        lemma_keeps_exprs(g, h, d, g.nodes[n.0 as int]->Join_0, body.alts[0]);
    } else {
        lemma_keeps_aliases(g, h, d, g.nodes[n.0 as int]->Select_0, body.alts);
    }
}

} // verus!
