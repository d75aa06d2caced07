//! The regex builder: a table of interned regex fragments, each addressed
//! by its [`RegexId`], and the expression that each fragment stands for.

use vstd::prelude::*;

verus! {

/// The place of a fragment in a builder's table.
#[derive(Clone, Copy, Debug, PartialEq, Eq, Structural)]
pub struct RegexId(pub usize);

/// One fragment of the table. Fragments refer to earlier ones by id.
#[derive(Debug, PartialEq, Eq)]
pub enum RegexNode {
    /// A string that matches itself.
    Literal(String),
    /// A raw pattern.
    Regex(String),
    /// The fragments one after the other.
    Concat(Vec<RegexId>),
    /// Any one of the fragments.
    Or(Vec<RegexId>),
    /// The fragment at least `min` times and, with a bound, at most `max`.
    Repeat(RegexId, u32, Option<u32>),
}

/// What a [`RegexNode`] holds.
pub ghost enum RegexNodeView {
    Literal(Seq<char>),
    Regex(Seq<char>),
    Concat(Seq<RegexId>),
    Or(Seq<RegexId>),
    Repeat(RegexId, u32, Option<u32>),
}

impl View for RegexNode {
    type V = RegexNodeView;

    open spec fn view(&self) -> RegexNodeView {
        match *self {
            RegexNode::Literal(s) => RegexNodeView::Literal(s@),
            RegexNode::Regex(s) => RegexNodeView::Regex(s@),
            RegexNode::Concat(ids) => RegexNodeView::Concat(ids@),
            RegexNode::Or(ids) => RegexNodeView::Or(ids@),
            RegexNode::Repeat(id, min, max) => RegexNodeView::Repeat(id, min, max),
        }
    }
}

/// A regular expression as a tree: what an id of a table stands for once
/// every reference is followed.
pub ghost enum Rx {
    Literal(Seq<char>),
    Pattern(Seq<char>),
    Concat(Seq<Rx>),
    Or(Seq<Rx>),
    Repeat(Box<Rx>, u32, Option<u32>),
}

/// The sequence of the expressions; one expression alone stands for itself.
pub open spec fn rx_concat(parts: Seq<Rx>) -> Rx {
    if parts.len() == 1 {
        parts[0]
    } else {
        Rx::Concat(parts)
    }
}

/// The choice among the expressions; one expression alone stands for itself.
pub open spec fn rx_select(options: Seq<Rx>) -> Rx {
    if options.len() == 1 {
        options[0]
    } else {
        Rx::Or(options)
    }
}

/// The expression, or nothing.
pub open spec fn rx_optional(e: Rx) -> Rx {
    Rx::Repeat(Box::new(e), 0, Some(1u32))
}

/// The expression any number of times.
pub open spec fn rx_zero_or_more(e: Rx) -> Rx {
    Rx::Repeat(Box::new(e), 0, None)
}

/// The expression at least once.
pub open spec fn rx_one_or_more(e: Rx) -> Rx {
    Rx::Repeat(Box::new(e), 1, None)
}

/// The ids that a fragment refers to.
pub open spec fn references(node: RegexNodeView) -> Seq<RegexId> {
    match node {
        RegexNodeView::Literal(_) => Seq::empty(),
        RegexNodeView::Regex(_) => Seq::empty(),
        RegexNodeView::Concat(ids) => ids,
        RegexNodeView::Or(ids) => ids,
        RegexNodeView::Repeat(id, _, _) => seq![id],
    }
}

/// A table is well formed when every fragment refers to earlier fragments
/// only, and no fragment occurs twice.
pub open spec fn table_wf(table: Seq<RegexNodeView>) -> bool {
    &&& forall|i: int, k: int|
        0 <= i < table.len() && 0 <= k < references(table[i]).len() ==> (#[trigger] references(
            table[i],
        )[k]).0 < i
    &&& forall|i: int, j: int| 0 <= i < j < table.len() ==> table[i] != table[j]
}

/// The expression that the fragment at `id` stands for.
pub open spec fn term_of(table: Seq<RegexNodeView>, id: int) -> Rx
    decreases id,
{
    if 0 <= id < table.len() {
        match table[id] {
            RegexNodeView::Literal(s) => Rx::Literal(s),
            RegexNodeView::Regex(s) => Rx::Pattern(s),
            RegexNodeView::Concat(ids) => Rx::Concat(
                Seq::new(
                    ids.len(),
                    |k: int|
                        if 0 <= k < ids.len() && ids[k].0 < id {
                            term_of(table, ids[k].0 as int)
                        } else {
                            Rx::Or(Seq::empty())
                        },
                ),
            ),
            RegexNodeView::Or(ids) => Rx::Or(
                Seq::new(
                    ids.len(),
                    |k: int|
                        if 0 <= k < ids.len() && ids[k].0 < id {
                            term_of(table, ids[k].0 as int)
                        } else {
                            Rx::Or(Seq::empty())
                        },
                ),
            ),
            RegexNodeView::Repeat(sub, min, max) => Rx::Repeat(
                Box::new(
                    if sub.0 < id {
                        term_of(table, sub.0 as int)
                    } else {
                        Rx::Or(Seq::empty())
                    },
                ),
                min,
                max,
            ),
        }
    } else {
        Rx::Or(Seq::empty())
    }
}

/// The expressions that the fragments at `ids` stand for.
pub open spec fn terms_of(table: Seq<RegexNodeView>, ids: Seq<RegexId>) -> Seq<Rx> {
    Seq::new(ids.len(), |k: int| term_of(table, ids[k].0 as int))
}

/// Every id of `ids` is a place in a table of length `len`.
pub open spec fn all_within(ids: Seq<RegexId>, len: nat) -> bool {
    forall|k: int| 0 <= k < ids.len() ==> (#[trigger] ids[k]).0 < len
}

/// `small` is the start of `big`.
pub open spec fn table_prefix(small: Seq<RegexNodeView>, big: Seq<RegexNodeView>) -> bool {
    &&& small.len() <= big.len()
    &&& forall|i: int| 0 <= i < small.len() ==> small[i] == big[i]
}

/// The table after `node` has been interned in it, and the id of `node`
/// there: the table is unchanged where it holds the node already.
pub open spec fn interned(table: Seq<RegexNodeView>, node: RegexNodeView) -> (
    Seq<RegexNodeView>,
    RegexId,
) {
    if exists|j: int| 0 <= j < table.len() && table[j] == node {
        let j = choose|j: int| 0 <= j < table.len() && table[j] == node;
        (table, RegexId(j as usize))
    } else {
        (table.push(node), RegexId(table.len() as usize))
    }
}

/// What a fragment stands for does not change when the table grows.
pub proof fn lemma_term_stable(small: Seq<RegexNodeView>, big: Seq<RegexNodeView>, id: int)
    requires
        table_wf(small),
        table_prefix(small, big),
        0 <= id < small.len(),
    ensures
        term_of(big, id) == term_of(small, id),
    decreases id,
{
    match small[id] {
        RegexNodeView::Literal(_) => {},
        RegexNodeView::Regex(_) => {},
        RegexNodeView::Concat(ids) => {
            assert(references(small[id]) == ids);
            assert forall|k: int| 0 <= k < ids.len() implies term_of(
                big,
                (#[trigger] ids[k]).0 as int,
            ) == term_of(small, ids[k].0 as int) && ids[k].0 < id by {
                lemma_term_stable(small, big, ids[k].0 as int);
            }
            assert(term_of(big, id)->Concat_0 =~= term_of(small, id)->Concat_0);
        },
        RegexNodeView::Or(ids) => {
            assert(references(small[id]) == ids);
            assert forall|k: int| 0 <= k < ids.len() implies term_of(
                big,
                (#[trigger] ids[k]).0 as int,
            ) == term_of(small, ids[k].0 as int) && ids[k].0 < id by {
                lemma_term_stable(small, big, ids[k].0 as int);
            }
            assert(term_of(big, id)->Or_0 =~= term_of(small, id)->Or_0);
        },
        RegexNodeView::Repeat(sub, _, _) => {
            assert(references(small[id])[0] == sub);
            lemma_term_stable(small, big, sub.0 as int);
        },
    }
}

/// What fragments stand for does not change when the table grows.
pub proof fn lemma_terms_stable(
    small: Seq<RegexNodeView>,
    big: Seq<RegexNodeView>,
    ids: Seq<RegexId>,
)
    requires
        table_wf(small),
        table_prefix(small, big),
        all_within(ids, small.len()),
    ensures
        terms_of(big, ids) == terms_of(small, ids),
{
    assert forall|k: int| 0 <= k < ids.len() implies term_of(big, (#[trigger] ids[k]).0 as int)
        == term_of(small, ids[k].0 as int) by {
        lemma_term_stable(small, big, ids[k].0 as int);
    }
}

/// In a well-formed table a concatenation stands for the concatenation of
/// what its parts stand for; likewise a choice and a repetition.
pub proof fn lemma_term_unfold(table: Seq<RegexNodeView>, id: int)
    requires
        table_wf(table),
        0 <= id < table.len(),
    ensures
        table[id] matches RegexNodeView::Concat(ids) ==> term_of(table, id) == Rx::Concat(
            terms_of(table, ids),
        ),
        table[id] matches RegexNodeView::Or(ids) ==> term_of(table, id) == Rx::Or(
            terms_of(table, ids),
        ),
        table[id] matches RegexNodeView::Repeat(sub, min, max) ==> term_of(table, id)
            == Rx::Repeat(Box::new(term_of(table, sub.0 as int)), min, max),
{
    match table[id] {
        RegexNodeView::Concat(ids) => {
            assert(references(table[id]) == ids);
            assert(term_of(table, id)->Concat_0 =~= terms_of(table, ids));
        },
        RegexNodeView::Or(ids) => {
            assert(references(table[id]) == ids);
            assert(term_of(table, id)->Or_0 =~= terms_of(table, ids));
        },
        RegexNodeView::Repeat(sub, _, _) => {
            assert(references(table[id])[0] == sub);
        },
        _ => {},
    }
}

/// Tells whether two lists of ids are the same.
fn same_ids(a: &Vec<RegexId>, b: &Vec<RegexId>) -> (res: bool)
    ensures
        res == (a@ == b@),
{
    if a.len() != b.len() {
        return false;
    }
    let mut i: usize = 0;
    while i < a.len()
        invariant
            i <= a.len(),
            a.len() == b.len(),
            forall|k: int| 0 <= k < i ==> a@[k] == b@[k],
        decreases a.len() - i,
    {
        if a[i] != b[i] {
            return false;
        }
        i += 1;
    }
    assert(a@ =~= b@);
    true
}

/// Tells whether two fragments hold the same.
fn same_node(a: &RegexNode, b: &RegexNode) -> (res: bool)
    ensures
        res == (a@ == b@),
{
    match (a, b) {
        (RegexNode::Literal(x), RegexNode::Literal(y)) => *x == *y,
        (RegexNode::Regex(x), RegexNode::Regex(y)) => *x == *y,
        (RegexNode::Concat(x), RegexNode::Concat(y)) => same_ids(x, y),
        (RegexNode::Or(x), RegexNode::Or(y)) => same_ids(x, y),
        (RegexNode::Repeat(x, xmin, xmax), RegexNode::Repeat(y, ymin, ymax)) => {
            let same_max = match (xmax, ymax) {
                (Some(p), Some(q)) => *p == *q,
                (None, None) => true,
                _ => false,
            };
            *x == *y && *xmin == *ymin && same_max
        },
        _ => false,
    }
}

/// Accumulates regex fragments. Each operation returns the id of a
/// fragment; a fragment that the table holds already is not added again.
pub struct RegexBuilder {
    nodes: Vec<RegexNode>,
}

impl View for RegexBuilder {
    type V = Seq<RegexNodeView>;

    closed spec fn view(&self) -> Seq<RegexNodeView> {
        Seq::new(self.nodes.len() as nat, |i: int| self.nodes[i]@)
    }
}

impl RegexBuilder {
    /// The table is well formed.
    pub open spec fn wf(&self) -> bool {
        table_wf(self@)
    }

    /// `id` is a place in the table.
    pub open spec fn has(&self, id: RegexId) -> bool {
        id.0 < self@.len()
    }

    /// All of `ids` are places in the table.
    pub open spec fn has_all(&self, ids: Seq<RegexId>) -> bool {
        all_within(ids, self@.len())
    }

    /// The expression that `id` stands for.
    pub open spec fn term(&self, id: RegexId) -> Rx {
        term_of(self@, id.0 as int)
    }

    /// The expressions that `ids` stand for.
    pub open spec fn terms(&self, ids: Seq<RegexId>) -> Seq<Rx> {
        terms_of(self@, ids)
    }

    /// The table of `self` starts with all of the table of `before`.
    pub open spec fn extends(&self, before: &RegexBuilder) -> bool {
        table_prefix(before@, self@)
    }

    /// A builder with an empty table.
    pub fn new() -> (res: RegexBuilder)
        ensures
            res@ == Seq::<RegexNodeView>::empty(),
            res.wf(),
    {
        let res = RegexBuilder { nodes: Vec::new() };
        res
    }

    /// The number of fragments in the table.
    pub fn len(&self) -> (res: usize)
        ensures
            res == self@.len(),
    {
        self.nodes.len()
    }

    /// Interns `node`: returns the id of the fragment that holds the same, and
    /// adds the node at the end where there is none.
    fn add_node(&mut self, node: RegexNode) -> (id: RegexId)
        requires
            old(self).wf(),
            all_within(references(node@), old(self)@.len()),
        ensures
            (final(self)@, id) == interned(old(self)@, node@),
            final(self).wf(),
            final(self).extends(old(self)),
            final(self).has(id),
            final(self)@[id.0 as int] == node@,
    {
        let mut i: usize = 0;
        while i < self.nodes.len()
            invariant
                i <= self.nodes.len(),
                *self == *old(self),
                self.wf(),
                forall|j: int| 0 <= j < i ==> self@[j] != node@,
            decreases self.nodes.len() - i,
        {
            if same_node(&self.nodes[i], &node) {
                proof {
                    let table = self@;
                    assert(0 <= i < table.len() && table[i as int] == node@);
                }
                return RegexId(i);
            }
            i += 1;
        }
        let id = RegexId(self.nodes.len());
        let ghost before = self@;
        let ghost view = node@;
        self.nodes.push(node);
        proof {
            assert(self@ =~= before.push(view));
        }
        id
    }

    /// The fragment that matches the string `s` and nothing else.
    pub fn literal(&mut self, s: String) -> (id: RegexId)
        requires
            old(self).wf(),
        ensures
            (final(self)@, id) == interned(old(self)@, RegexNodeView::Literal(s@)),
            final(self).wf(),
            final(self).extends(old(self)),
            final(self).has(id),
            final(self).term(id) == Rx::Literal(s@),
    {
        self.add_node(RegexNode::Literal(s))
    }

    /// The fragment for the raw pattern `rx`.
    pub fn regex(&mut self, rx: String) -> (id: RegexId)
        requires
            old(self).wf(),
        ensures
            (final(self)@, id) == interned(old(self)@, RegexNodeView::Regex(rx@)),
            final(self).wf(),
            final(self).extends(old(self)),
            final(self).has(id),
            final(self).term(id) == Rx::Pattern(rx@),
    {
        self.add_node(RegexNode::Regex(rx))
    }

    /// The fragments of `ids` one after the other. One fragment alone is
    /// returned as it is.
    pub fn concat(&mut self, ids: Vec<RegexId>) -> (id: RegexId)
        requires
            old(self).wf(),
            old(self).has_all(ids@),
        ensures
            (final(self)@, id) == if ids@.len() == 1 {
                (old(self)@, ids@[0])
            } else {
                interned(old(self)@, RegexNodeView::Concat(ids@))
            },
            final(self).wf(),
            final(self).extends(old(self)),
            final(self).has(id),
            final(self).term(id) == rx_concat(old(self).terms(ids@)),
    {
        if ids.len() == 1 {
            return ids[0];
        }
        let ghost before = self@;
        let ghost seq = ids@;
        let id = self.add_node(RegexNode::Concat(ids));
        proof {
            lemma_term_unfold(self@, id.0 as int);
            assert forall|k: int| 0 <= k < seq.len() implies term_of(self@, seq[k].0 as int)
                == term_of(before, seq[k].0 as int) by {
                lemma_term_stable(before, self@, seq[k].0 as int);
            }
            assert(terms_of(self@, seq) =~= terms_of(before, seq));
        }
        id
    }

    /// Any one of the fragments of `ids`. One fragment alone is returned as
    /// it is.
    pub fn select(&mut self, ids: Vec<RegexId>) -> (id: RegexId)
        requires
            old(self).wf(),
            old(self).has_all(ids@),
        ensures
            (final(self)@, id) == if ids@.len() == 1 {
                (old(self)@, ids@[0])
            } else {
                interned(old(self)@, RegexNodeView::Or(ids@))
            },
            final(self).wf(),
            final(self).extends(old(self)),
            final(self).has(id),
            final(self).term(id) == rx_select(old(self).terms(ids@)),
    {
        if ids.len() == 1 {
            return ids[0];
        }
        let ghost before = self@;
        let ghost seq = ids@;
        let id = self.add_node(RegexNode::Or(ids));
        proof {
            lemma_term_unfold(self@, id.0 as int);
            assert forall|k: int| 0 <= k < seq.len() implies term_of(self@, seq[k].0 as int)
                == term_of(before, seq[k].0 as int) by {
                lemma_term_stable(before, self@, seq[k].0 as int);
            }
            assert(terms_of(self@, seq) =~= terms_of(before, seq));
        }
        id
    }

    /// The fragment `sub` at least `min` times and, where `max` is given, at
    /// most `max` times.
    pub fn repeat(&mut self, sub: RegexId, min: u32, max: Option<u32>) -> (id: RegexId)
        requires
            old(self).wf(),
            old(self).has(sub),
        ensures
            (final(self)@, id) == interned(old(self)@, RegexNodeView::Repeat(sub, min, max)),
            final(self).wf(),
            final(self).extends(old(self)),
            final(self).has(id),
            final(self).term(id) == Rx::Repeat(Box::new(old(self).term(sub)), min, max),
    {
        let ghost before = self@;
        let id = self.add_node(RegexNode::Repeat(sub, min, max));
        proof {
            lemma_term_unfold(self@, id.0 as int);
            lemma_term_stable(before, self@, sub.0 as int);
        }
        id
    }

    /// The fragment `sub`, or nothing.
    pub fn optional(&mut self, sub: RegexId) -> (id: RegexId)
        requires
            old(self).wf(),
            old(self).has(sub),
        ensures
            (final(self)@, id) == interned(
                old(self)@,
                RegexNodeView::Repeat(sub, 0, Some(1u32)),
            ),
            final(self).wf(),
            final(self).extends(old(self)),
            final(self).has(id),
            final(self).term(id) == rx_optional(old(self).term(sub)),
    {
        self.repeat(sub, 0, Some(1))
    }

    /// The fragment `sub` any number of times.
    pub fn zero_or_more(&mut self, sub: RegexId) -> (id: RegexId)
        requires
            old(self).wf(),
            old(self).has(sub),
        ensures
            (final(self)@, id) == interned(old(self)@, RegexNodeView::Repeat(sub, 0, None)),
            final(self).wf(),
            final(self).extends(old(self)),
            final(self).has(id),
            final(self).term(id) == rx_zero_or_more(old(self).term(sub)),
    {
        self.repeat(sub, 0, None)
    }

    /// The fragment `sub` at least once.
    pub fn one_or_more(&mut self, sub: RegexId) -> (id: RegexId)
        requires
            old(self).wf(),
            old(self).has(sub),
        ensures
            (final(self)@, id) == interned(old(self)@, RegexNodeView::Repeat(sub, 1, None)),
            final(self).wf(),
            final(self).extends(old(self)),
            final(self).has(id),
            final(self).term(id) == rx_one_or_more(old(self).term(sub)),
    {
        self.repeat(sub, 1, None)
    }

    /// Hands out the table.
    pub fn finalize(self) -> (nodes: Vec<RegexNode>)
        ensures
            nodes@.len() == self@.len(),
            forall|i: int| 0 <= i < nodes@.len() ==> (#[trigger] nodes@[i])@ == self@[i],
    {
        self.nodes
    }
}

} // verus!
