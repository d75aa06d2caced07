//! What a token definition means: the regular expression that its body
//! stands for, or the error that refuses it.
//!
//! The functions here take the table of tokens and the set of names that
//! may not be entered: a reference to one of them is a circular definition.

use vstd::prelude::*;
use crate::ast::{AtomView, ExpansionsView, ExprView, ValueView};
use crate::error::{ErrorView, KindView, PatternOrigin};
use crate::pattern::{flagged_pattern, insensitive_pattern, pattern_rejection, range_pattern};
use crate::regex_builder::{Rx, rx_concat, rx_one_or_more, rx_optional, rx_select, rx_zero_or_more};

verus! {

/// The three quantifiers.
#[derive(Clone, Copy, Debug, PartialEq, Eq, Structural)]
pub enum Quantifier {
    ZeroOrMore,
    OneOrMore,
    Optional,
}

/// The quantifier that an operator's text names, if any.
pub open spec fn quantifier_of(op: Seq<char>) -> Option<Quantifier> {
    if op == seq!['*'] {
        Some(Quantifier::ZeroOrMore)
    } else if op == seq!['+'] {
        Some(Quantifier::OneOrMore)
    } else if op == seq!['?'] {
        Some(Quantifier::Optional)
    } else {
        None
    }
}

/// The expression under a quantifier.
pub open spec fn rx_quantified(e: Rx, q: Quantifier) -> Rx {
    match q {
        Quantifier::ZeroOrMore => rx_zero_or_more(e),
        Quantifier::OneOrMore => rx_one_or_more(e),
        Quantifier::Optional => rx_optional(e),
    }
}

/// A raw pattern as an expression, where the syntax check accepts it.
pub open spec fn pattern_term(origin: PatternOrigin, pattern: Seq<char>) -> Result<
    Rx,
    ErrorView,
> {
    match pattern_rejection(pattern) {
        None => Ok(Rx::Pattern(pattern)),
        Some(reason) => Err(ErrorView::bare(KindView::InvalidRegex { pattern, origin, reason })),
    }
}

/// The expression of an atom under its quantifier or repeat range.
pub open spec fn token_suffix(e: Rx, op: Option<Seq<char>>, range: Option<(i32, i32)>) -> Result<
    Rx,
    ErrorView,
> {
    match range {
        Some((lo, hi)) => {
            if op is Some {
                Err(ErrorView::bare(KindView::RangeWithOperator))
            } else if lo < 0 {
                Err(ErrorView::bare(KindView::RangeStartNegative))
            } else if hi < lo {
                Err(ErrorView::bare(KindView::RangeEndBeforeStart))
            } else {
                Ok(Rx::Repeat(Box::new(e), lo as u32, Some(hi as u32)))
            }
        },
        None => match op {
            None => Ok(e),
            Some(op) => match quantifier_of(op) {
                Some(q) => Ok(rx_quantified(e, q)),
                None => Err(ErrorView::bare(KindView::UnsupportedOperator(op))),
            },
        },
    }
}

/// The expression of the token `name`. The names in `busy` may not be
/// entered.
pub open spec fn token_named(
    tokens: Map<Seq<char>, ExpansionsView>,
    name: Seq<char>,
    busy: Set<Seq<char>>,
) -> Result<Rx, ErrorView>
    decreases tokens.dom().difference(busy).len(), 0nat, name,
    when tokens.dom().finite()
{
    if busy.contains(name) {
        Err(ErrorView::bare(KindView::CircularToken(name)))
    } else if !tokens.contains_key(name) {
        Err(ErrorView::bare(KindView::TokenNotFound(name)))
    } else {
        proof {
            tokens.dom().lemma_set_insert_diff_decreases(busy, name);
        }
        token_expansions(tokens, tokens[name], busy.insert(name))
    }
}

/// The expression of a value.
pub open spec fn token_value(
    tokens: Map<Seq<char>, ExpansionsView>,
    value: ValueView,
    busy: Set<Seq<char>>,
) -> Result<Rx, ErrorView>
    decreases tokens.dom().difference(busy).len(), 1nat, value,
    when tokens.dom().finite()
{
    match value {
        ValueView::LiteralRange(start, end) => {
            if start.len() != 1 {
                Err(ErrorView::bare(KindView::RangeStartNotSingleChar))
            } else if end.len() != 1 {
                Err(ErrorView::bare(KindView::RangeEndNotSingleChar))
            } else if start[0] <= end[0] {
                pattern_term(PatternOrigin::Range, range_pattern(start, end))
            } else {
                Err(ErrorView::bare(KindView::InvalidRangeOrder(start[0], end[0])))
            }
        },
        ValueView::Name(name) => token_named(tokens, name, busy),
        ValueView::LiteralString(text, flags) => {
            if flags.contains('i') {
                pattern_term(PatternOrigin::StringWithIFlag, insensitive_pattern(text))
            } else {
                Ok(Rx::Literal(text))
            }
        },
        ValueView::LiteralRegex(pattern, flags) => {
            if flags.contains('l') {
                Err(ErrorView::bare(KindView::LiteralFlagNotSupported))
            } else {
                pattern_term(PatternOrigin::Regex, flagged_pattern(pattern, flags))
            }
        },
        ValueView::TemplateUsage => Err(ErrorView::bare(KindView::TemplateNotSupported)),
    }
}

/// The expression of an atom.
pub open spec fn token_atom(
    tokens: Map<Seq<char>, ExpansionsView>,
    atom: AtomView,
    busy: Set<Seq<char>>,
) -> Result<Rx, ErrorView>
    decreases tokens.dom().difference(busy).len(), 2nat, atom,
    when tokens.dom().finite()
{
    match atom {
        AtomView::Group(inner) => token_expansions(tokens, inner, busy),
        AtomView::Maybe(inner) => match token_expansions(tokens, inner, busy) {
            Ok(e) => Ok(rx_optional(e)),
            Err(err) => Err(err),
        },
        AtomView::Value(value) => token_value(tokens, value, busy),
    }
}

/// The expression of an atom with its quantifier or repeat range. An error
/// of the atom comes before one of the quantifier or range.
pub open spec fn token_expr(
    tokens: Map<Seq<char>, ExpansionsView>,
    expr: ExprView,
    busy: Set<Seq<char>>,
) -> Result<Rx, ErrorView>
    decreases tokens.dom().difference(busy).len(), 2nat, expr,
    when tokens.dom().finite()
{
    match token_atom(tokens, expr.atom, busy) {
        Ok(e) => token_suffix(e, expr.op, expr.range),
        Err(err) => Err(err),
    }
}

/// The expressions of a sequence of `exprs`, or the first error from the
/// left.
pub open spec fn token_exprs(
    tokens: Map<Seq<char>, ExpansionsView>,
    exprs: Seq<ExprView>,
    busy: Set<Seq<char>>,
) -> Result<Seq<Rx>, ErrorView>
    decreases tokens.dom().difference(busy).len(), 2nat, exprs,
    when tokens.dom().finite()
{
    if exprs.len() == 0 {
        Ok(Seq::empty())
    } else {
        match token_exprs(tokens, exprs.drop_last(), busy) {
            Ok(front) => match token_expr(tokens, exprs.last(), busy) {
                Ok(e) => Ok(front.push(e)),
                Err(err) => Err(err),
            },
            Err(err) => Err(err),
        }
    }
}

/// The expression of one alternative: the sequence of its parts.
pub open spec fn token_alias(
    tokens: Map<Seq<char>, ExpansionsView>,
    alt: Seq<ExprView>,
    busy: Set<Seq<char>>,
) -> Result<Rx, ErrorView> {
    match token_exprs(tokens, alt, busy) {
        Ok(parts) => Ok(rx_concat(parts)),
        Err(err) => Err(err),
    }
}

/// The expressions of the alternatives, or the first error from the left.
pub open spec fn token_aliases(
    tokens: Map<Seq<char>, ExpansionsView>,
    aliases: Seq<Seq<ExprView>>,
    busy: Set<Seq<char>>,
) -> Result<Seq<Rx>, ErrorView>
    decreases tokens.dom().difference(busy).len(), 2nat, aliases,
    when tokens.dom().finite()
{
    if aliases.len() == 0 {
        Ok(Seq::empty())
    } else {
        match token_aliases(tokens, aliases.drop_last(), busy) {
            Ok(front) => match token_exprs(tokens, aliases.last(), busy) {
                Ok(parts) => Ok(front.push(rx_concat(parts))),
                Err(err) => Err(err),
            },
            Err(err) => Err(err),
        }
    }
}

/// The expression of a body: the choice among its alternatives. An error
/// from inside is noted at the place of the body.
pub open spec fn token_expansions(
    tokens: Map<Seq<char>, ExpansionsView>,
    body: ExpansionsView,
    busy: Set<Seq<char>>,
) -> Result<Rx, ErrorView>
    decreases tokens.dom().difference(busy).len(), 2nat, body,
    when tokens.dom().finite()
{
    match token_aliases(tokens, body.alts, busy) {
        Ok(options) => Ok(rx_select(options)),
        Err(err) => Err(err.at(body.loc)),
    }
}

/// Leaving names out of `busy` does not change a result that is no error:
/// stated of [`token_named`].
pub proof fn lemma_token_named_shrink(
    tokens: Map<Seq<char>, ExpansionsView>,
    name: Seq<char>,
    busy: Set<Seq<char>>,
    fewer: Set<Seq<char>>,
)
    requires
        tokens.dom().finite(),
        fewer.subset_of(busy),
        token_named(tokens, name, busy) is Ok,
    ensures
        token_named(tokens, name, fewer) == token_named(tokens, name, busy),
    decreases tokens.dom().difference(busy).len(), 0nat, name,
{
    tokens.dom().lemma_set_insert_diff_decreases(busy, name);
    lemma_token_expansions_shrink(
        tokens,
        tokens[name],
        busy.insert(name),
        fewer.insert(name),
    );
}

/// The same of [`token_value`].
pub proof fn lemma_token_value_shrink(
    tokens: Map<Seq<char>, ExpansionsView>,
    value: ValueView,
    busy: Set<Seq<char>>,
    fewer: Set<Seq<char>>,
)
    requires
        tokens.dom().finite(),
        fewer.subset_of(busy),
        token_value(tokens, value, busy) is Ok,
    ensures
        token_value(tokens, value, fewer) == token_value(tokens, value, busy),
    decreases tokens.dom().difference(busy).len(), 1nat, value,
{
    match value {
        ValueView::Name(name) => lemma_token_named_shrink(tokens, name, busy, fewer),
        _ => {},
    }
}

/// The same of [`token_atom`].
pub proof fn lemma_token_atom_shrink(
    tokens: Map<Seq<char>, ExpansionsView>,
    atom: AtomView,
    busy: Set<Seq<char>>,
    fewer: Set<Seq<char>>,
)
    requires
        tokens.dom().finite(),
        fewer.subset_of(busy),
        token_atom(tokens, atom, busy) is Ok,
    ensures
        token_atom(tokens, atom, fewer) == token_atom(tokens, atom, busy),
    decreases tokens.dom().difference(busy).len(), 2nat, atom,
{
    match atom {
        AtomView::Group(inner) => lemma_token_expansions_shrink(tokens, inner, busy, fewer),
        AtomView::Maybe(inner) => lemma_token_expansions_shrink(tokens, inner, busy, fewer),
        AtomView::Value(value) => lemma_token_value_shrink(tokens, value, busy, fewer),
    }
}

/// The same of [`token_expr`].
pub proof fn lemma_token_expr_shrink(
    tokens: Map<Seq<char>, ExpansionsView>,
    expr: ExprView,
    busy: Set<Seq<char>>,
    fewer: Set<Seq<char>>,
)
    requires
        tokens.dom().finite(),
        fewer.subset_of(busy),
        token_expr(tokens, expr, busy) is Ok,
    ensures
        token_expr(tokens, expr, fewer) == token_expr(tokens, expr, busy),
    decreases tokens.dom().difference(busy).len(), 2nat, expr,
{
    lemma_token_atom_shrink(tokens, expr.atom, busy, fewer);
}

/// The same of [`token_exprs`].
pub proof fn lemma_token_exprs_shrink(
    tokens: Map<Seq<char>, ExpansionsView>,
    exprs: Seq<ExprView>,
    busy: Set<Seq<char>>,
    fewer: Set<Seq<char>>,
)
    requires
        tokens.dom().finite(),
        fewer.subset_of(busy),
        token_exprs(tokens, exprs, busy) is Ok,
    ensures
        token_exprs(tokens, exprs, fewer) == token_exprs(tokens, exprs, busy),
    decreases tokens.dom().difference(busy).len(), 2nat, exprs,
{
    if exprs.len() > 0 {
        lemma_token_exprs_shrink(tokens, exprs.drop_last(), busy, fewer);
        lemma_token_expr_shrink(tokens, exprs.last(), busy, fewer);
    }
}

/// The same of [`token_aliases`].
pub proof fn lemma_token_aliases_shrink(
    tokens: Map<Seq<char>, ExpansionsView>,
    aliases: Seq<Seq<ExprView>>,
    busy: Set<Seq<char>>,
    fewer: Set<Seq<char>>,
)
    requires
        tokens.dom().finite(),
        fewer.subset_of(busy),
        token_aliases(tokens, aliases, busy) is Ok,
    ensures
        token_aliases(tokens, aliases, fewer) == token_aliases(tokens, aliases, busy),
    decreases tokens.dom().difference(busy).len(), 2nat, aliases,
{
    if aliases.len() > 0 {
        lemma_token_aliases_shrink(tokens, aliases.drop_last(), busy, fewer);
        lemma_token_exprs_shrink(tokens, aliases.last(), busy, fewer);
    }
}

/// The same of [`token_expansions`].
pub proof fn lemma_token_expansions_shrink(
    tokens: Map<Seq<char>, ExpansionsView>,
    body: ExpansionsView,
    busy: Set<Seq<char>>,
    fewer: Set<Seq<char>>,
)
    requires
        tokens.dom().finite(),
        fewer.subset_of(busy),
        token_expansions(tokens, body, busy) is Ok,
    ensures
        token_expansions(tokens, body, fewer) == token_expansions(tokens, body, busy),
    decreases tokens.dom().difference(busy).len(), 2nat, body,
{
    lemma_token_aliases_shrink(tokens, body.alts, busy, fewer);
}

/// The atom holds a reference to `name`.
pub open spec fn atom_mentions(atom: AtomView, name: Seq<char>) -> bool
    decreases atom,
{
    match atom {
        AtomView::Group(inner) => alts_mention(inner.alts, name),
        AtomView::Maybe(inner) => alts_mention(inner.alts, name),
        AtomView::Value(ValueView::Name(n)) => n == name,
        AtomView::Value(_) => false,
    }
}

/// One of the expressions holds a reference to `name`.
pub open spec fn exprs_mention(exprs: Seq<ExprView>, name: Seq<char>) -> bool
    decreases exprs,
{
    exprs.len() > 0 && (exprs_mention(exprs.drop_last(), name) || atom_mentions(
        exprs.last().atom,
        name,
    ))
}

/// One of the alternatives holds a reference to `name`.
pub open spec fn alts_mention(alts: Seq<Seq<ExprView>>, name: Seq<char>) -> bool
    decreases alts,
{
    alts.len() > 0 && (alts_mention(alts.drop_last(), name) || exprs_mention(alts.last(), name))
}

/// Each token of the chain but the last is defined, and its definition
/// holds a reference to the next.
pub open spec fn refers_along(tokens: Map<Seq<char>, ExpansionsView>, chain: Seq<Seq<char>>)
    -> bool {
    forall|i: int|
        0 <= i < chain.len() - 1 ==> tokens.contains_key(#[trigger] chain[i]) && alts_mention(
            tokens[chain[i]].alts,
            chain[i + 1],
        )
}

/// Where an atom has an expression, so has every token it refers to.
pub proof fn lemma_atom_mention_ok(
    tokens: Map<Seq<char>, ExpansionsView>,
    atom: AtomView,
    name: Seq<char>,
    busy: Set<Seq<char>>,
)
    requires
        tokens.dom().finite(),
        token_atom(tokens, atom, busy) is Ok,
        atom_mentions(atom, name),
    ensures
        token_named(tokens, name, busy) is Ok,
    decreases atom,
{
    match atom {
        AtomView::Group(inner) => lemma_alts_mention_ok(tokens, inner.alts, name, busy),
        AtomView::Maybe(inner) => lemma_alts_mention_ok(tokens, inner.alts, name, busy),
        AtomView::Value(_) => {},
    }
}

/// Where expressions have expressions, so has every token they refer to.
pub proof fn lemma_exprs_mention_ok(
    tokens: Map<Seq<char>, ExpansionsView>,
    exprs: Seq<ExprView>,
    name: Seq<char>,
    busy: Set<Seq<char>>,
)
    requires
        tokens.dom().finite(),
        token_exprs(tokens, exprs, busy) is Ok,
        exprs_mention(exprs, name),
    ensures
        token_named(tokens, name, busy) is Ok,
    decreases exprs,
{
    if exprs_mention(exprs.drop_last(), name) {
        lemma_exprs_mention_ok(tokens, exprs.drop_last(), name, busy);
    } else {
        assert(token_expr(tokens, exprs.last(), busy) is Ok);
        lemma_atom_mention_ok(tokens, exprs.last().atom, name, busy);
    }
}

/// Where alternatives have expressions, so has every token they refer to.
pub proof fn lemma_alts_mention_ok(
    tokens: Map<Seq<char>, ExpansionsView>,
    alts: Seq<Seq<ExprView>>,
    name: Seq<char>,
    busy: Set<Seq<char>>,
)
    requires
        tokens.dom().finite(),
        token_aliases(tokens, alts, busy) is Ok,
        alts_mention(alts, name),
    ensures
        token_named(tokens, name, busy) is Ok,
    decreases alts,
{
    if alts_mention(alts.drop_last(), name) {
        lemma_alts_mention_ok(tokens, alts.drop_last(), name, busy);
    } else {
        lemma_exprs_mention_ok(tokens, alts.last(), name, busy);
    }
}

/// Where the token at place `i` of a chain of references has an
/// expression, the last token of the chain is neither forbidden nor, unless
/// `i` is the last place, the token at `i`.
pub proof fn lemma_chain_end_is_free(
    tokens: Map<Seq<char>, ExpansionsView>,
    chain: Seq<Seq<char>>,
    i: int,
    busy: Set<Seq<char>>,
)
    requires
        tokens.dom().finite(),
        refers_along(tokens, chain),
        0 <= i < chain.len(),
        token_named(tokens, chain[i], busy) is Ok,
    ensures
        !busy.contains(chain.last()),
        i < chain.len() - 1 ==> chain.last() != chain[i],
    decreases chain.len() - i,
{
    if i < chain.len() - 1 {
        lemma_alts_mention_ok(
            tokens,
            tokens[chain[i]].alts,
            chain[i + 1],
            busy.insert(chain[i]),
        );
        lemma_chain_end_is_free(tokens, chain, i + 1, busy.insert(chain[i]));
    }
}

} // verus!
