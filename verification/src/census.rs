//! The first phase of a compilation: from the items of a grammar to the
//! tables of its rules and tokens and the list of what the lexer skips.

use vstd::prelude::*;
use crate::ast::{
    AtomView, ExpansionsView, ExprView, ItemView, Location, StatementView, ValueView,
};
use crate::common::common_regex;
use crate::error::{ErrorView, KindView};
use crate::syntactic::Defs;
use crate::text::last_segment;

verus! {

/// What the first phase gathers.
pub ghost struct Census {
    /// The body of each rule and token.
    pub defs: Defs,
    /// The bodies of the ignore statements, in their order.
    pub ignore: Seq<ExpansionsView>,
}

/// A token that an import brings: its local name and its body.
pub ghost struct Imported {
    pub name: Seq<char>,
    pub body: ExpansionsView,
}

/// The body of an imported token: one alternative that holds one regular
/// expression without flags, at the place of the import.
pub open spec fn import_body(loc: Location, regex: Seq<char>) -> ExpansionsView {
    ExpansionsView {
        loc,
        alts: seq![
            seq![
                ExprView {
                    atom: AtomView::Value(ValueView::LiteralRegex(regex, Seq::empty())),
                    op: None,
                    range: None,
                },
            ],
        ],
    }
}

/// The dotted path of `name` under `path`.
pub open spec fn qualified(path: Seq<char>, name: Seq<char>) -> Seq<char> {
    path + seq!['.'] + name
}

/// The token that an import of `path` under the local name `name` brings,
/// or the error of a path that the catalogue does not hold.
pub open spec fn imported(loc: Location, path: Seq<char>, name: Seq<char>) -> Result<
    Imported,
    ErrorView,
> {
    match common_regex(path) {
        Some(regex) => Ok(Imported { name, body: import_body(loc, regex) }),
        None => Err(ErrorView::bare(KindView::UnknownCommonRegex(path))),
    }
}

/// The tokens that an import of several `names` from under `path` brings,
/// or the first error from the left.
pub open spec fn multi_imported(loc: Location, path: Seq<char>, names: Seq<Seq<char>>) -> Result<
    Seq<Imported>,
    ErrorView,
>
    decreases names.len(),
{
    if names.len() == 0 {
        Ok(Seq::empty())
    } else {
        match multi_imported(loc, path, names.drop_last()) {
            Ok(front) => match imported(loc, qualified(path, names.last()), names.last()) {
                Ok(def) => Ok(front.push(def)),
                Err(err) => Err(err),
            },
            Err(err) => Err(err),
        }
    }
}

/// The tokens that a statement brings, or the error that refuses it.
pub open spec fn statement_imports(loc: Location, statement: StatementView) -> Result<
    Seq<Imported>,
    ErrorView,
> {
    match statement {
        StatementView::Ignore(_) => Ok(Seq::empty()),
        StatementView::Import { path, alias } => match imported(
            loc,
            path,
            match alias {
                Some(name) => name,
                None => last_segment(path),
            },
        ) {
            Ok(def) => Ok(seq![def]),
            Err(err) => Err(err),
        },
        StatementView::MultiImport { path, names } => multi_imported(loc, path, names),
        StatementView::OverrideRule => Err(ErrorView::bare(KindView::OverrideNotSupported)),
        StatementView::Declare => Err(ErrorView::bare(KindView::DeclareNotSupported)),
    }
}

/// The list of what the lexer skips after a statement.
pub open spec fn statement_ignore(ignore: Seq<ExpansionsView>, statement: StatementView) -> Seq<
    ExpansionsView,
> {
    match statement {
        StatementView::Ignore(body) => ignore.push(body),
        _ => ignore,
    }
}

/// The table of tokens after the imported tokens have been added from the
/// left, or the error of the first that brings a name that a token has.
pub open spec fn add_imported(tokens: Map<Seq<char>, ExpansionsView>, defs: Seq<Imported>)
    -> Result<Map<Seq<char>, ExpansionsView>, ErrorView>
    decreases defs.len(),
{
    if defs.len() == 0 {
        Ok(tokens)
    } else {
        match add_imported(tokens, defs.drop_last()) {
            Ok(front) => {
                if front.contains_key(defs.last().name) {
                    Err(ErrorView::bare(KindView::DuplicateImportedToken(defs.last().name)))
                } else {
                    Ok(front.insert(defs.last().name, defs.last().body))
                }
            },
            Err(err) => Err(err),
        }
    }
}

/// The table of tokens after the imported tokens have been added from the
/// left, up to the first that brings a name that a token has.
pub open spec fn imported_so_far(tokens: Map<Seq<char>, ExpansionsView>, defs: Seq<Imported>)
    -> Map<Seq<char>, ExpansionsView>
    decreases defs.len(),
{
    if defs.len() == 0 {
        tokens
    } else {
        match add_imported(tokens, defs.drop_last()) {
            Err(_) => imported_so_far(tokens, defs.drop_last()),
            Ok(front) => {
                if front.contains_key(defs.last().name) {
                    front
                } else {
                    front.insert(defs.last().name, defs.last().body)
                }
            },
        }
    }
}

/// Where a name is brought twice among the first `n` imported tokens, the
/// table up to the first refusal is the table that the first `n` leave.
pub proof fn lemma_imported_so_far_prefix(
    tokens: Map<Seq<char>, ExpansionsView>,
    defs: Seq<Imported>,
    n: int,
)
    requires
        0 <= n <= defs.len(),
        add_imported(tokens, defs.take(n)) is Err,
    ensures
        imported_so_far(tokens, defs) == imported_so_far(tokens, defs.take(n)),
    decreases defs.len(),
{
    if n == defs.len() {
        assert(defs.take(n) =~= defs);
    } else {
        assert(defs.drop_last().take(n) =~= defs.take(n));
        lemma_add_imported_error(tokens, defs.drop_last(), n);
        lemma_imported_so_far_prefix(tokens, defs.drop_last(), n);
    }
}

/// What has been gathered after one more item, or the error that refuses
/// the item. An error of a statement is noted at the place of the statement,
/// unless it is a name brought twice.
pub open spec fn add_item(census: Census, item: ItemView) -> Result<Census, ErrorView> {
    match item {
        ItemView::Rule { name, params, priority, body } => {
            if params {
                Err(ErrorView::bare(KindView::ParamsNotSupported))
            } else if priority {
                Err(ErrorView::bare(KindView::PriorityNotSupported))
            } else if census.defs.rules.contains_key(name) {
                Err(ErrorView::bare(KindView::DuplicateRule(name)))
            } else {
                Ok(
                    Census {
                        defs: Defs {
                            rules: census.defs.rules.insert(name, body),
                            tokens: census.defs.tokens,
                        },
                        ignore: census.ignore,
                    },
                )
            }
        },
        ItemView::Token { name, params, priority, body } => {
            if params {
                Err(ErrorView::bare(KindView::ParamsNotSupported))
            } else if priority {
                Err(ErrorView::bare(KindView::PriorityNotSupported))
            } else if census.defs.tokens.contains_key(name) {
                Err(ErrorView::bare(KindView::DuplicateToken(name)))
            } else {
                Ok(
                    Census {
                        defs: Defs {
                            rules: census.defs.rules,
                            tokens: census.defs.tokens.insert(name, body),
                        },
                        ignore: census.ignore,
                    },
                )
            }
        },
        ItemView::Statement(loc, statement) => match statement_imports(loc, statement) {
            Err(err) => Err(err.at(loc)),
            Ok(defs) => match add_imported(census.defs.tokens, defs) {
                Err(err) => Err(err),
                Ok(tokens) => Ok(
                    Census {
                        defs: Defs { rules: census.defs.rules, tokens },
                        ignore: statement_ignore(census.ignore, statement),
                    },
                ),
            },
        },
    }
}

/// Nothing gathered.
pub open spec fn empty_census() -> Census {
    Census { defs: Defs { rules: Map::empty(), tokens: Map::empty() }, ignore: Seq::empty() }
}

/// What the items of a grammar amount to, taken from the left, or the error
/// of the first item that is refused.
pub open spec fn census(items: Seq<ItemView>) -> Result<Census, ErrorView>
    decreases items.len(),
{
    if items.len() == 0 {
        Ok(empty_census())
    } else {
        match census(items.drop_last()) {
            Ok(front) => add_item(front, items.last()),
            Err(err) => Err(err),
        }
    }
}

/// An error among the first `n` items is the error of them all.
pub proof fn lemma_census_error(items: Seq<ItemView>, n: int)
    requires
        0 <= n <= items.len(),
        census(items.take(n)) is Err,
    ensures
        census(items) == census(items.take(n)),
    decreases items.len(),
{
    if n == items.len() {
        assert(items.take(n) =~= items);
    } else {
        assert(items.drop_last().take(n) =~= items.take(n));
        lemma_census_error(items.drop_last(), n);
    }
}

/// An error among the first `n` names of an import is the error of them
/// all.
pub proof fn lemma_multi_imported_error(
    loc: Location,
    path: Seq<char>,
    names: Seq<Seq<char>>,
    n: int,
)
    requires
        0 <= n <= names.len(),
        multi_imported(loc, path, names.take(n)) is Err,
    ensures
        multi_imported(loc, path, names) == multi_imported(loc, path, names.take(n)),
    decreases names.len(),
{
    if n == names.len() {
        assert(names.take(n) =~= names);
    } else {
        assert(names.drop_last().take(n) =~= names.take(n));
        lemma_multi_imported_error(loc, path, names.drop_last(), n);
    }
}

/// A name brought twice among the first `n` imported tokens is the error
/// of them all.
pub proof fn lemma_add_imported_error(
    tokens: Map<Seq<char>, ExpansionsView>,
    defs: Seq<Imported>,
    n: int,
)
    requires
        0 <= n <= defs.len(),
        add_imported(tokens, defs.take(n)) is Err,
    ensures
        add_imported(tokens, defs) == add_imported(tokens, defs.take(n)),
    decreases defs.len(),
{
    if n == defs.len() {
        assert(defs.take(n) =~= defs);
    } else {
        assert(defs.drop_last().take(n) =~= defs.take(n));
        lemma_add_imported_error(tokens, defs.drop_last(), n);
    }
}

/// Adding imported tokens to a finite table gives a finite table.
pub proof fn lemma_add_imported_finite(tokens: Map<Seq<char>, ExpansionsView>, defs: Seq<Imported>)
    requires
        tokens.dom().finite(),
        add_imported(tokens, defs) is Ok,
    ensures
        add_imported(tokens, defs)->Ok_0.dom().finite(),
    decreases defs.len(),
{
    if defs.len() > 0 {
        lemma_add_imported_finite(tokens, defs.drop_last());
    }
}

/// The tables that the items of a grammar amount to are finite.
pub proof fn lemma_census_finite(items: Seq<ItemView>)
    requires
        census(items) is Ok,
    ensures
        census(items)->Ok_0.defs.rules.dom().finite(),
        census(items)->Ok_0.defs.tokens.dom().finite(),
    decreases items.len(),
{
    if items.len() > 0 {
        lemma_census_finite(items.drop_last());
        let front = census(items.drop_last())->Ok_0;
        match items.last() {
            ItemView::Statement(loc, statement) => {
                lemma_add_imported_finite(
                    front.defs.tokens,
                    statement_imports(loc, statement)->Ok_0,
                );
            },
            _ => {},
        }
    }
}

/// No import fails for want of a rule `start`.
pub proof fn lemma_multi_imported_start(loc: Location, path: Seq<char>, names: Seq<Seq<char>>)
    ensures
        multi_imported(loc, path, names) matches Err(err) ==> err.kind != KindView::NoStartRule,
    decreases names.len(),
{
    if names.len() > 0 {
        lemma_multi_imported_start(loc, path, names.drop_last());
    }
}

/// No imported token is refused for want of a rule `start`.
pub proof fn lemma_add_imported_start(tokens: Map<Seq<char>, ExpansionsView>, defs: Seq<Imported>)
    ensures
        add_imported(tokens, defs) matches Err(err) ==> err.kind != KindView::NoStartRule,
    decreases defs.len(),
{
    if defs.len() > 0 {
        lemma_add_imported_start(tokens, defs.drop_last());
    }
}

/// The first phase does not fail for want of a rule `start`.
pub proof fn lemma_census_start(items: Seq<ItemView>)
    ensures
        census(items) matches Err(err) ==> err.kind != KindView::NoStartRule,
    decreases items.len(),
{
    if items.len() > 0 {
        lemma_census_start(items.drop_last());
        match items.last() {
            ItemView::Statement(loc, statement) => {
                match statement {
                    StatementView::MultiImport { path, names } => {
                        lemma_multi_imported_start(loc, path, names);
                    },
                    _ => {},
                }
                if statement_imports(loc, statement) is Ok && census(items.drop_last()) is Ok {
                    lemma_add_imported_start(
                        census(items.drop_last())->Ok_0.defs.tokens,
                        statement_imports(loc, statement)->Ok_0,
                    );
                }
            },
            _ => {},
        }
    }
}

} // verus!
