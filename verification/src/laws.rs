//! Laws of the compiler, stated over what a grammar means and proved from
//! the definitions.

use vstd::prelude::*;
use crate::ast::{ExpansionsView, ItemView, Location, StatementView, ValueView};
use crate::byte_tokenizer::{byte_char, char_map, lemma_char_map_inverts};
use crate::census::{census, lemma_census_finite, lemma_census_start, statement_imports};
use crate::common::common_regex;
use crate::error::{ErrorView, KindView, PatternOrigin};
use crate::grammar_builder::{NodeView, UnitView};
use crate::lexical::{
    lemma_chain_end_is_free, pattern_term, refers_along, token_expansions, token_named,
    token_value,
};
use crate::pattern::range_pattern;
use crate::regex_builder::{Rx, term_of};
use crate::machine::{Machine, lemma_rule_start, run_rule, run_token, run_token_value};
use crate::syntactic::Defs;
use crate::grammar::{
    document_of, grammar_outcome, initial_machine, lemma_skips_start, run_skips, skip_terms,
    start_name,
};

verus! {

/// A reference to a token whose name is in progress, and which is not
/// done, is a circular definition, whatever the table of tokens holds; and
/// nothing changes.
pub proof fn law_token_reentry_fails(
    tokens: Map<Seq<char>, ExpansionsView>,
    name: Seq<char>,
    m: Machine,
)
    requires
        tokens.dom().finite(),
        m.in_progress.contains(name),
        !m.regex_ids.contains_key(name),
    ensures
        run_token(tokens, name, m) == m.fail::<crate::regex_builder::RegexId>(
            KindView::CircularToken(name),
        ),
{
}

/// A token whose definition refers to itself, directly or through other
/// tokens, has no expression: its compilation fails, whichever tokens are
/// being compiled.
pub proof fn law_token_cycle_fails(
    tokens: Map<Seq<char>, ExpansionsView>,
    chain: Seq<Seq<char>>,
    busy: Set<Seq<char>>,
)
    requires
        tokens.dom().finite(),
        chain.len() >= 2,
        chain.first() == chain.last(),
        refers_along(tokens, chain),
    ensures
        token_named(tokens, chain[0], busy) is Err,
{
    if token_named(tokens, chain[0], busy) is Ok {
        lemma_chain_end_is_free(tokens, chain, 0, busy);
    }
}

/// A reference to a rule whose name is in progress is no error: rules may
/// refer to themselves. The first such reference gets a fresh placeholder,
/// which is recorded for the rule, and every later one the node recorded.
pub proof fn law_rule_reentry_is_no_error(d: Defs, name: Seq<char>, m: Machine)
    requires
        d.rules.dom().finite(),
        m.in_progress.contains(name),
    ensures
        run_rule(d, name, m).res is Ok,
        m.node_ids.contains_key(name) ==> run_rule(d, name, m) == m.done(m.node_ids[name]),
        !m.node_ids.contains_key(name) ==> {
            let after = run_rule(d, name, m);
            &&& after.res == Ok::<crate::grammar_builder::NodeRef, ErrorView>(m.next_node())
            &&& after.state.nodes == m.nodes.push(NodeView::Placeholder)
            &&& after.state.node_ids == m.node_ids.insert(name, m.next_node())
        },
{
}

/// The document of a grammar holds no placeholder.
pub proof fn law_no_placeholder_left(units: Seq<UnitView>, items: Seq<ItemView>)
    requires
        document_of(units, items),
    ensures
        forall|u: int, i: int|
            0 <= u < units.len() && 0 <= i < units[u].nodes.len() ==> !(
            #[trigger] units[u].nodes[i] is Placeholder),
{
}

/// A grammar without a rule named `start` is refused for that reason,
/// whatever else it holds, once its items have been gathered.
pub proof fn law_missing_start(items: Seq<ItemView>)
    requires
        census(items) matches Ok(c) && !c.defs.rules.contains_key(start_name()),
    ensures
        grammar_outcome(items) == Err::<UnitView, ErrorView>(
            ErrorView::bare(KindView::NoStartRule),
        ),
{
}

/// A grammar is refused for want of a rule `start` just when its items are
/// gathered without error and no rule among them is named `start`: a
/// token or an import of that name does not count, and no other failure is
/// reported as this one.
pub proof fn law_start_rule_decides(items: Seq<ItemView>)
    ensures
        (grammar_outcome(items) matches Err(err) && err.kind == KindView::NoStartRule) <==> (
        census(items) matches Ok(c) && !c.defs.rules.contains_key(start_name())),
{
    lemma_census_start(items);
    let c = census(items)->Ok_0;
    if census(items) is Ok && c.defs.rules.contains_key(start_name()) {
        lemma_census_finite(items);
        lemma_skips_start(c.defs.tokens, c.ignore, initial_machine());
        let skips = run_skips(c.defs.tokens, c.ignore, initial_machine());
        if skips.res is Ok {
            lemma_rule_start(c.defs, start_name(), skips.state);
        }
    }
}

/// A character range whose start lies behind its end is refused, and
/// nothing changes; one whose start does not lie behind its end is checked
/// and registered as the class from the one to the other.
pub proof fn law_range_order(
    tokens: Map<Seq<char>, ExpansionsView>,
    start: char,
    end: char,
    m: Machine,
)
    requires
        tokens.dom().finite(),
    ensures
        start > end ==> run_token_value(
            tokens,
            ValueView::LiteralRange(seq![start], seq![end]),
            m,
        ) == m.fail::<crate::regex_builder::RegexId>(KindView::InvalidRangeOrder(start, end)),
        start <= end ==> run_token_value(
            tokens,
            ValueView::LiteralRange(seq![start], seq![end]),
            m,
        ) == m.register(PatternOrigin::Range, range_pattern(seq![start], seq![end])),
        start <= end ==> token_value(
            tokens,
            ValueView::LiteralRange(seq![start], seq![end]),
            Set::empty(),
        ) == pattern_term(PatternOrigin::Range, range_pattern(seq![start], seq![end])),
{
}

/// With no ignore statement the unit of the document has no skip regex;
/// with two, its skip regex is the choice between the two ignored bodies.
pub proof fn law_skip_regex(units: Seq<UnitView>, items: Seq<ItemView>)
    requires
        document_of(units, items),
    ensures
        census(items)->Ok_0.ignore.len() == 0 ==> units[0].greedy_skip_rx is None,
        census(items)->Ok_0.ignore.len() == 2 ==> {
            let c = census(items)->Ok_0;
            &&& units[0].greedy_skip_rx matches Some(rx)
            &&& token_expansions(c.defs.tokens, c.ignore[0], Set::empty()) matches Ok(first)
            &&& token_expansions(c.defs.tokens, c.ignore[1], Set::empty()) matches Ok(second)
            &&& term_of(units[0].rx_nodes, rx.0 as int) == Rx::Or(seq![first, second])
        },
{
    let c = census(items)->Ok_0;
    let terms = skip_terms(c.defs.tokens, c.ignore)->Ok_0;
    lemma_census_finite(items);
    if c.ignore.len() == 2 {
        let one = c.ignore.drop_last();
        assert(skip_terms(c.defs.tokens, one.drop_last()) == Ok::<Seq<Rx>, ErrorView>(
            Seq::empty(),
        ));
        let first = token_expansions(c.defs.tokens, c.ignore[0], Set::empty())->Ok_0;
        let second = token_expansions(c.defs.tokens, c.ignore[1], Set::empty())->Ok_0;
        assert(skip_terms(c.defs.tokens, one) is Ok);
        assert(terms =~= seq![first, second]);
    }
}

/// An import of a path that the catalogue does not hold is refused: no
/// pattern stands in for the missing one.
pub proof fn law_unknown_import(loc: Location, path: Seq<char>, alias: Option<Seq<char>>)
    requires
        common_regex(path) is None,
    ensures
        statement_imports(loc, StatementView::Import { path, alias }) == Err::<
            Seq<crate::census::Imported>,
            ErrorView,
        >(ErrorView::bare(KindView::UnknownCommonRegex(path))),
{
}

/// The character map of a byte-level vocabulary takes the character of
/// every byte back to that byte: no two bytes share a character.
pub proof fn law_char_map_inverts(b: u8)
    ensures
        char_map(256).contains_key(byte_char(b)),
        char_map(256)[byte_char(b)] == b,
{
    lemma_char_map_inverts(256, b);
}

} // verus!
