//! The node-graph builder and the document it produces.
//!
//! A document holds grammar-with-lexer units. The builder fills the nodes of
//! the newest unit; nodes refer to each other by their place in the unit, and
//! to regex fragments by their id in the unit's regex table.

use vstd::prelude::*;
use vstd::pervasive::unreached;
use crate::regex_builder::{RegexBuilder, RegexId, RegexNode, RegexNodeView};

verus! {

/// The place of a node in its unit.
#[derive(Clone, Copy, Debug, PartialEq, Eq, Structural)]
pub struct NodeId(pub usize);

/// A node of a unit under construction: its place, and the number of the
/// unit it belongs to.
#[derive(Clone, Copy, Debug, PartialEq, Eq, Structural)]
pub struct NodeRef {
    pub idx: usize,
    pub grammar_id: usize,
}

/// A node of the graph.
#[derive(Debug, PartialEq, Eq)]
pub enum Node {
    /// A handle that stands for a node not yet known.
    Placeholder,
    /// A former placeholder: it stands for the node it names.
    Alias(NodeId),
    /// A lexeme: text that matches a regex fragment.
    Lexeme { rx: RegexId, contextual: bool },
    /// The nodes one after the other.
    Join(Vec<NodeId>),
    /// Any one of the nodes.
    Select(Vec<NodeId>),
    /// The node, or nothing.
    Optional(NodeId),
    /// The node any number of times.
    ZeroOrMore(NodeId),
    /// The node at least once.
    OneOrMore(NodeId),
}

/// What a [`Node`] holds.
pub ghost enum NodeView {
    Placeholder,
    Alias(NodeId),
    Lexeme { rx: RegexId, contextual: bool },
    Join(Seq<NodeId>),
    Select(Seq<NodeId>),
    Optional(NodeId),
    ZeroOrMore(NodeId),
    OneOrMore(NodeId),
}

impl View for Node {
    type V = NodeView;

    open spec fn view(&self) -> NodeView {
        match *self {
            Node::Placeholder => NodeView::Placeholder,
            Node::Alias(n) => NodeView::Alias(n),
            Node::Lexeme { rx, contextual } => NodeView::Lexeme { rx, contextual },
            Node::Join(ns) => NodeView::Join(ns@),
            Node::Select(ns) => NodeView::Select(ns@),
            Node::Optional(n) => NodeView::Optional(n),
            Node::ZeroOrMore(n) => NodeView::ZeroOrMore(n),
            Node::OneOrMore(n) => NodeView::OneOrMore(n),
        }
    }
}

/// The views of the nodes of a list.
pub open spec fn node_views(nodes: Seq<Node>) -> Seq<NodeView> {
    Seq::new(nodes.len(), |i: int| nodes[i]@)
}

/// The views of the fragments of a list.
pub open spec fn fragment_views(nodes: Seq<RegexNode>) -> Seq<RegexNodeView> {
    Seq::new(nodes.len(), |i: int| nodes[i]@)
}

/// One grammar with its lexer: the node graph, the regex table, the node
/// that the grammar starts at, and the regex of what the lexer skips.
#[derive(Debug, PartialEq, Eq)]
pub struct GrammarWithLexer {
    pub nodes: Vec<Node>,
    pub rx_nodes: Vec<RegexNode>,
    pub start_node: Option<NodeId>,
    pub greedy_skip_rx: Option<RegexId>,
}

/// What a [`GrammarWithLexer`] holds.
pub ghost struct UnitView {
    pub nodes: Seq<NodeView>,
    pub rx_nodes: Seq<RegexNodeView>,
    pub start_node: Option<NodeId>,
    pub greedy_skip_rx: Option<RegexId>,
}

impl View for GrammarWithLexer {
    type V = UnitView;

    open spec fn view(&self) -> UnitView {
        UnitView {
            nodes: node_views(self.nodes@),
            rx_nodes: fragment_views(self.rx_nodes@),
            start_node: self.start_node,
            greedy_skip_rx: self.greedy_skip_rx,
        }
    }
}

impl UnitView {
    /// A unit with nothing in it.
    pub open spec fn blank() -> UnitView {
        UnitView {
            nodes: Seq::empty(),
            rx_nodes: Seq::empty(),
            start_node: None,
            greedy_skip_rx: None,
        }
    }

    /// Some node of the unit is a placeholder still.
    pub open spec fn has_placeholder(self) -> bool {
        exists|i: int| 0 <= i < self.nodes.len() && self.nodes[i] == NodeView::Placeholder
    }

    /// What keeps the unit from being complete, if anything: a placeholder
    /// that was never resolved or, with none, a start node that was never
    /// set.
    pub open spec fn defect(self) -> Option<BuilderError> {
        if self.has_placeholder() {
            Some(BuilderError::UnresolvedPlaceholder)
        } else if self.start_node is None {
            Some(BuilderError::MissingStartNode)
        } else {
            None
        }
    }
}

impl Default for GrammarWithLexer {
    fn default() -> (res: GrammarWithLexer)
        ensures
            res@ == UnitView::blank(),
            res.nodes@.len() == 0,
            res.rx_nodes@.len() == 0,
    {
        let res = GrammarWithLexer {
            nodes: Vec::new(),
            rx_nodes: Vec::new(),
            start_node: None,
            greedy_skip_rx: None,
        };
        assert(res@.nodes =~= Seq::<NodeView>::empty());
        assert(res@.rx_nodes =~= Seq::<RegexNodeView>::empty());
        res
    }
}

/// The document: the units in the order in which they were added.
#[derive(Debug, PartialEq, Eq)]
pub struct TopLevelGrammar {
    pub grammars: Vec<GrammarWithLexer>,
}

impl View for TopLevelGrammar {
    type V = Seq<UnitView>;

    open spec fn view(&self) -> Seq<UnitView> {
        Seq::new(self.grammars@.len(), |i: int| self.grammars@[i]@)
    }
}

/// Why a builder cannot hand out its document.
#[derive(Clone, Copy, Debug, PartialEq, Eq, Structural)]
pub enum BuilderError {
    /// A placeholder was never resolved.
    UnresolvedPlaceholder,
    /// A unit has no start node.
    MissingStartNode,
}

/// The defect of the first unit that has one.
pub open spec fn first_defect(units: Seq<UnitView>) -> Option<BuilderError>
    decreases units.len(),
{
    if units.len() == 0 {
        None
    } else {
        match first_defect(units.drop_last()) {
            Some(e) => Some(e),
            None => units.last().defect(),
        }
    }
}

/// The places of the nodes that `refs` name.
pub open spec fn ids_of(refs: Seq<NodeRef>) -> Seq<NodeId> {
    Seq::new(refs.len(), |k: int| NodeId(refs[k].idx))
}

/// Accumulates the nodes of the newest unit of a document.
pub struct GrammarBuilder {
    /// The units added so far. The nodes and the regex table of the newest
    /// are still in the builder.
    pub top_grammar: TopLevelGrammar,
    /// The nodes of the newest unit.
    pub nodes: Vec<Node>,
    /// The regex table of the newest unit.
    pub regex: RegexBuilder,
}

impl GrammarBuilder {
    /// The node graph of the newest unit.
    pub open spec fn graph(&self) -> Seq<NodeView> {
        node_views(self.nodes@)
    }

    /// A unit has been added.
    pub open spec fn active(&self) -> bool {
        self.top_grammar.grammars@.len() > 0
    }

    /// The start node of the newest unit.
    pub open spec fn start(&self) -> Option<NodeId> {
        self.top_grammar.grammars@.last().start_node
    }

    /// The skip regex of the newest unit.
    pub open spec fn skip(&self) -> Option<RegexId> {
        self.top_grammar.grammars@.last().greedy_skip_rx
    }

    /// The units before the newest.
    pub open spec fn closed_units(&self) -> Seq<UnitView> {
        self.top_grammar@.drop_last()
    }

    /// `node` is a node of the newest unit.
    pub open spec fn has(&self, node: NodeRef) -> bool {
        &&& self.active()
        &&& node.grammar_id + 1 == self.top_grammar.grammars@.len()
        &&& node.idx < self.nodes@.len()
    }

    /// All of `refs` are nodes of the newest unit.
    pub open spec fn has_all(&self, refs: Seq<NodeRef>) -> bool {
        forall|k: int| 0 <= k < refs.len() ==> self.has(#[trigger] refs[k])
    }

    /// The regex table is well formed and, while no unit has been added, no
    /// node exists; the newest unit keeps no nodes of its own while it is
    /// under construction.
    pub open spec fn wf(&self) -> bool {
        &&& self.regex.wf()
        &&& !self.active() ==> self.nodes@.len() == 0 && self.regex@.len() == 0
        &&& self.active() ==> {
            &&& self.top_grammar.grammars@.last().nodes@.len() == 0
            &&& self.top_grammar.grammars@.last().rx_nodes@.len() == 0
        }
    }

    /// The newest unit as it stands: the nodes and the regex table of the
    /// builder under the unit's start node and skip regex.
    pub open spec fn open_unit(&self) -> UnitView {
        UnitView {
            nodes: self.graph(),
            rx_nodes: self.regex@,
            start_node: self.start(),
            greedy_skip_rx: self.skip(),
        }
    }

    /// The units of the document as it stands.
    pub open spec fn units(&self) -> Seq<UnitView> {
        if self.active() {
            self.closed_units().push(self.open_unit())
        } else {
            Seq::empty()
        }
    }

    /// Everything but the node graph is as in `before`.
    pub open spec fn same_but_graph(&self, before: &GrammarBuilder) -> bool {
        &&& self.top_grammar == before.top_grammar
        &&& self.regex == before.regex
    }

    /// A builder with no unit.
    pub fn new() -> (res: GrammarBuilder)
        ensures
            res.wf(),
            !res.active(),
            res.units() == Seq::<UnitView>::empty(),
    {
        GrammarBuilder {
            top_grammar: TopLevelGrammar { grammars: Vec::new() },
            nodes: Vec::new(),
            regex: RegexBuilder::new(),
        }
    }

    /// Moves the nodes and the regex table into the newest unit, if there is
    /// one, and leaves the builder with none of either.
    fn shift_nodes(&mut self)
        requires
            old(self).wf(),
        ensures
            final(self).top_grammar@ == old(self).units(),
            final(self).nodes@.len() == 0,
            final(self).regex@.len() == 0,
            final(self).regex.wf(),
    {
        let mut fresh = RegexBuilder::new();
        if self.top_grammar.grammars.len() > 0 {
            let ghost before = *self;
            let mut nodes: Vec<Node> = Vec::new();
            core::mem::swap(&mut self.nodes, &mut nodes);
            core::mem::swap(&mut self.regex, &mut fresh);
            let rx_nodes = fresh.finalize();
            let last = self.top_grammar.grammars.pop();
            match last {
                Some(unit) => {
                    let closed = GrammarWithLexer {
                        nodes,
                        rx_nodes,
                        start_node: unit.start_node,
                        greedy_skip_rx: unit.greedy_skip_rx,
                    };
                    proof {
                        assert(closed@.rx_nodes =~= before.regex@);
                    }
                    self.top_grammar.grammars.push(closed);
                },
                None => {
                    unreached()
                },
            }
        }
    }

    /// Closes the newest unit, if there is one, and opens `grammar` as the
    /// unit under construction.
    pub fn add_grammar(&mut self, grammar: GrammarWithLexer)
        requires
            old(self).wf(),
            grammar.nodes@.len() == 0,
            grammar.rx_nodes@.len() == 0,
        ensures
            final(self).wf(),
            final(self).active(),
            final(self).closed_units() == old(self).units(),
            final(self).graph() == Seq::<NodeView>::empty(),
            final(self).regex@ == Seq::<RegexNodeView>::empty(),
            final(self).start() == grammar.start_node,
            final(self).skip() == grammar.greedy_skip_rx,
    {
        self.shift_nodes();
        self.top_grammar.grammars.push(grammar);
    }

    /// Adds `node` at the end of the graph.
    fn add_node(&mut self, node: Node) -> (res: NodeRef)
        requires
            old(self).wf(),
            old(self).active(),
        ensures
            final(self).wf(),
            final(self).same_but_graph(old(self)),
            final(self).graph() == old(self).graph().push(node@),
            final(self).has(res),
            res.idx == old(self).graph().len(),
    {
        let res = NodeRef {
            idx: self.nodes.len(),
            grammar_id: self.top_grammar.grammars.len() - 1,
        };
        self.nodes.push(node);
        res
    }

    /// The places of the nodes that `refs` name.
    fn child_nodes(&self, refs: &Vec<NodeRef>) -> (res: Vec<NodeId>)
        ensures
            res@ == ids_of(refs@),
    {
        let mut res: Vec<NodeId> = Vec::new();
        let mut i: usize = 0;
        while i < refs.len()
            invariant
                i <= refs.len(),
                res@.len() == i,
                forall|k: int| 0 <= k < i ==> res@[k] == NodeId(refs@[k].idx),
            decreases refs.len() - i,
        {
            res.push(NodeId(refs[i].idx));
            i += 1;
        }
        res
    }

    /// A lexeme for the regex fragment `rx`.
    pub fn lexeme(&mut self, rx: RegexId, contextual: bool) -> (res: NodeRef)
        requires
            old(self).wf(),
            old(self).active(),
            old(self).regex.has(rx),
        ensures
            final(self).wf(),
            final(self).same_but_graph(old(self)),
            final(self).graph() == old(self).graph().push(NodeView::Lexeme { rx, contextual }),
            final(self).has(res),
            res.idx == old(self).graph().len(),
    {
        self.add_node(Node::Lexeme { rx, contextual })
    }

    /// The nodes of `values` one after the other.
    pub fn join(&mut self, values: &Vec<NodeRef>) -> (res: NodeRef)
        requires
            old(self).wf(),
            old(self).active(),
            old(self).has_all(values@),
        ensures
            final(self).wf(),
            final(self).same_but_graph(old(self)),
            final(self).graph() == old(self).graph().push(NodeView::Join(ids_of(values@))),
            final(self).has(res),
            res.idx == old(self).graph().len(),
    {
        let ids = self.child_nodes(values);
        self.add_node(Node::Join(ids))
    }

    /// Any one of the nodes of `options`. One node alone is returned as it
    /// is.
    pub fn select(&mut self, options: &Vec<NodeRef>) -> (res: NodeRef)
        requires
            old(self).wf(),
            old(self).active(),
            old(self).has_all(options@),
        ensures
            final(self).wf(),
            final(self).same_but_graph(old(self)),
            final(self).has(res),
            options@.len() == 1 ==> res == options@[0] && final(self).graph() == old(self).graph(),
            options@.len() != 1 ==> res.idx == old(self).graph().len() && final(self).graph()
                == old(self).graph().push(NodeView::Select(ids_of(options@))),
    {
        if options.len() == 1 {
            return options[0];
        }
        let ids = self.child_nodes(options);
        self.add_node(Node::Select(ids))
    }

    /// The node `value`, or nothing.
    pub fn optional(&mut self, value: NodeRef) -> (res: NodeRef)
        requires
            old(self).wf(),
            old(self).has(value),
        ensures
            final(self).wf(),
            final(self).same_but_graph(old(self)),
            final(self).graph() == old(self).graph().push(NodeView::Optional(NodeId(value.idx))),
            final(self).has(res),
            res.idx == old(self).graph().len(),
    {
        self.add_node(Node::Optional(NodeId(value.idx)))
    }

    /// The node `elt` any number of times.
    pub fn zero_or_more(&mut self, elt: NodeRef) -> (res: NodeRef)
        requires
            old(self).wf(),
            old(self).has(elt),
        ensures
            final(self).wf(),
            final(self).same_but_graph(old(self)),
            final(self).graph() == old(self).graph().push(NodeView::ZeroOrMore(NodeId(elt.idx))),
            final(self).has(res),
            res.idx == old(self).graph().len(),
    {
        self.add_node(Node::ZeroOrMore(NodeId(elt.idx)))
    }

    /// The node `elt` at least once.
    pub fn one_or_more(&mut self, elt: NodeRef) -> (res: NodeRef)
        requires
            old(self).wf(),
            old(self).has(elt),
        ensures
            final(self).wf(),
            final(self).same_but_graph(old(self)),
            final(self).graph() == old(self).graph().push(NodeView::OneOrMore(NodeId(elt.idx))),
            final(self).has(res),
            res.idx == old(self).graph().len(),
    {
        self.add_node(Node::OneOrMore(NodeId(elt.idx)))
    }

    /// A handle for a node not yet known.
    pub fn placeholder(&mut self) -> (res: NodeRef)
        requires
            old(self).wf(),
            old(self).active(),
        ensures
            final(self).wf(),
            final(self).same_but_graph(old(self)),
            final(self).graph() == old(self).graph().push(NodeView::Placeholder),
            final(self).has(res),
            res.idx == old(self).graph().len(),
    {
        self.add_node(Node::Placeholder)
    }

    /// Tells whether `node` is a placeholder that has not been resolved.
    pub fn is_placeholder(&self, node: NodeRef) -> (res: bool)
        requires
            self.has(node),
        ensures
            res == (self.graph()[node.idx as int] == NodeView::Placeholder),
    {
        match &self.nodes[node.idx] {
            Node::Placeholder => true,
            _ => false,
        }
    }

    /// Makes the placeholder stand for `node`.
    pub fn set_placeholder(&mut self, placeholder: NodeRef, node: NodeRef)
        requires
            old(self).wf(),
            old(self).has(placeholder),
            old(self).has(node),
            old(self).graph()[placeholder.idx as int] == NodeView::Placeholder,
        ensures
            final(self).wf(),
            final(self).same_but_graph(old(self)),
            final(self).graph() == old(self).graph().update(
                placeholder.idx as int,
                NodeView::Alias(NodeId(node.idx)),
            ),
    {
        self.nodes.set(placeholder.idx, Node::Alias(NodeId(node.idx)));
    }

    /// Makes `node` the start node of the newest unit.
    pub fn set_start_node(&mut self, node: NodeRef)
        requires
            old(self).wf(),
            old(self).has(node),
        ensures
            final(self).wf(),
            final(self).active(),
            final(self).nodes == old(self).nodes,
            final(self).regex == old(self).regex,
            final(self).closed_units() == old(self).closed_units(),
            final(self).start() == Some(NodeId(node.idx)),
            final(self).skip() == old(self).skip(),
            final(self).top_grammar.grammars@.len() == old(self).top_grammar.grammars@.len(),
    {
        match self.top_grammar.grammars.pop() {
            Some(unit) => {
                let mut unit = unit;
                unit.start_node = Some(NodeId(node.idx));
                self.top_grammar.grammars.push(unit);
            },
            None => {
                unreached()
            },
        }
    }

    /// Makes `rx` the regex of what the lexer of the newest unit skips.
    pub fn set_greedy_skip(&mut self, rx: RegexId)
        requires
            old(self).wf(),
            old(self).active(),
            old(self).regex.has(rx),
        ensures
            final(self).wf(),
            final(self).active(),
            final(self).nodes == old(self).nodes,
            final(self).regex == old(self).regex,
            final(self).closed_units() == old(self).closed_units(),
            final(self).start() == old(self).start(),
            final(self).skip() == Some(rx),
            final(self).top_grammar.grammars@.len() == old(self).top_grammar.grammars@.len(),
    {
        match self.top_grammar.grammars.pop() {
            Some(unit) => {
                let mut unit = unit;
                unit.greedy_skip_rx = Some(rx);
                self.top_grammar.grammars.push(unit);
            },
            None => {
                unreached()
            },
        }
    }

    /// Closes the newest unit and hands out the document, unless a unit has
    /// a defect: then the defect of the first such unit is the error.
    pub fn finalize(self) -> (res: Result<TopLevelGrammar, BuilderError>)
        requires
            self.wf(),
        ensures
            match res {
                Ok(doc) => first_defect(self.units()) is None && doc@ == self.units(),
                Err(e) => first_defect(self.units()) == Some(e),
            },
    {
        let ghost units = self.units();
        let mut builder = self;
        builder.shift_nodes();
        let doc = builder.top_grammar;
        let mut i: usize = 0;
        while i < doc.grammars.len()
            invariant
                i <= doc.grammars.len(),
                doc@ == units,
                units == self.units(),
                first_defect(units.take(i as int)) is None,
            decreases doc.grammars.len() - i,
        {
            let unit = &doc.grammars[i];
            proof {
                assert(units.take(i + 1).drop_last() =~= units.take(i as int));
            }
            let mut k: usize = 0;
            while k < unit.nodes.len()
                invariant
                    k <= unit.nodes.len(),
                    0 <= i < units.len(),
                    units == self.units(),
                    first_defect(units.take(i + 1)) == unit@.defect(),
                    forall|j: int| 0 <= j < k ==> unit@.nodes[j] != NodeView::Placeholder,
                decreases unit.nodes.len() - k,
            {
                if let Node::Placeholder = &unit.nodes[k] {
                    proof {
                        assert(unit@.nodes[k as int] == NodeView::Placeholder);
                        lemma_first_defect_prefix(units, i + 1);
                    }
                    return Err(BuilderError::UnresolvedPlaceholder);
                }
                k += 1;
            }
            if unit.start_node.is_none() {
                proof {
                    lemma_first_defect_prefix(units, i + 1);
                }
                return Err(BuilderError::MissingStartNode);
            }
            i += 1;
        }
        assert(units.take(i as int) =~= units);
        Ok(doc)
    }
}

/// A defect among the first units of a document is the defect of the
/// document.
pub proof fn lemma_first_defect_prefix(units: Seq<UnitView>, n: int)
    requires
        0 <= n <= units.len(),
        first_defect(units.take(n)) is Some,
    ensures
        first_defect(units) == first_defect(units.take(n)),
    decreases units.len(),
{
    if n == units.len() {
        assert(units.take(n) =~= units);
    } else {
        assert(units.drop_last().take(n) =~= units.take(n));
        lemma_first_defect_prefix(units.drop_last(), n);
    }
}

} // verus!
