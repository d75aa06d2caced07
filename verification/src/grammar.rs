//! The whole compilation: from the items of a grammar to its document.

use vstd::prelude::*;
use vstd::hash_map::StringHashMap;
use vstd::hash_set::StringHashSet;
use vstd::pervasive::unreached;
use crate::ast::{
    Alias, Atom, Expansion, Expansions, ExpansionsView, Expr, Item, ItemView, Location, Statement,
    StatementView, TokenDef, Value, view_items, view_names,
};
use crate::census::{
    Census, Imported, add_imported, add_item, census, empty_census, import_body,
    imported_so_far, lemma_imported_so_far_prefix,
    lemma_add_imported_error,
    lemma_census_error, lemma_multi_imported_error, multi_imported, qualified, statement_ignore,
    statement_imports,
};
use crate::common::lookup_common_regex;
use crate::compiler::{Compiler, Tables};
use crate::error::{CompileError, ErrorKind, ErrorView, KindView};
use crate::grammar_builder::{
    GrammarBuilder, GrammarWithLexer, NodeId, NodeRef, NodeView, TopLevelGrammar, UnitView,
    first_defect,
};
use crate::lexical::{lemma_token_expansions_shrink, token_expansions};
use crate::machine::{
    Machine, Step, lemma_token_body_start, run_rule, run_token_body, start_not_missed,
};
use crate::regex_builder::{RegexId, Rx, lemma_terms_stable, rx_select, term_of};
use crate::syntactic::{Defs, Graph, lemma_keeps_expansions, realizes_expansions};
use crate::text::last_path_segment;

verus! {

/// The name of the rule that a grammar starts at.
pub open spec fn start_name() -> Seq<char> {
    seq!['s', 't', 'a', 'r', 't']
}

/// The expressions of what the lexer skips: one for each ignore statement,
/// or the first error from the left.
pub open spec fn skip_terms(tokens: Map<Seq<char>, ExpansionsView>, ignore: Seq<ExpansionsView>)
    -> Result<Seq<Rx>, ErrorView>
    decreases ignore.len(),
{
    if ignore.len() == 0 {
        Ok(Seq::empty())
    } else {
        match skip_terms(tokens, ignore.drop_last()) {
            Ok(front) => match token_expansions(tokens, ignore.last(), Set::empty()) {
                Ok(e) => Ok(front.push(e)),
                Err(err) => Err(err),
            },
            Err(err) => Err(err),
        }
    }
}

/// The state in which the one unit of a document is opened.
pub open spec fn initial_machine() -> Machine {
    Machine {
        fragments: Seq::empty(),
        nodes: Seq::empty(),
        unit: 0,
        regex_ids: Map::empty(),
        node_ids: Map::empty(),
        in_progress: Set::empty(),
    }
}

/// Compiling the ignored bodies from the left, up to the first that fails.
pub open spec fn run_skips(
    tokens: Map<Seq<char>, ExpansionsView>,
    ignore: Seq<ExpansionsView>,
    m: Machine,
) -> Step<Seq<RegexId>>
    decreases ignore.len(),
{
    if ignore.len() == 0 {
        m.done(Seq::empty())
    } else {
        let front = run_skips(tokens, ignore.drop_last(), m);
        match front.res {
            Err(_) => front,
            Ok(ids) => {
                let last = run_token_body(tokens, ignore.last(), front.state);
                match last.res {
                    Err(err) => Step { state: last.state, res: Err(err) },
                    Ok(id) => last.state.done(ids.push(id)),
                }
            },
        }
    }
}

/// What the second phase hands over: the fragments of the ignored bodies and
/// the node of the rule `start`.
pub ghost struct Compiled {
    pub skips: Seq<RegexId>,
    pub start: NodeRef,
}

/// Compiling what the first phase gathered: the ignored bodies, then the
/// rules from `start`.
pub open spec fn run_grammar(c: Census, m: Machine) -> Step<Compiled> {
    let skips = run_skips(c.defs.tokens, c.ignore, m);
    match skips.res {
        Err(err) => Step { state: skips.state, res: Err(err) },
        Ok(ids) => {
            let start = run_rule(c.defs, start_name(), skips.state);
            match start.res {
                Err(err) => Step { state: start.state, res: Err(err) },
                Ok(node) => start.state.done(Compiled { skips: ids, start: node }),
            }
        },
    }
}

/// The unit that a compilation ends with: the graph and the regex table of
/// its last state, the start node, and the choice among the fragments of
/// the ignored bodies as the skip regex, where there are any.
pub open spec fn sealed(m: Machine, done: Compiled) -> UnitView {
    if done.skips.len() > 0 {
        let skip = m.select(done.skips);
        UnitView {
            nodes: m.nodes,
            rx_nodes: skip.state.fragments,
            start_node: Some(NodeId(done.start.idx)),
            greedy_skip_rx: Some(skip.res->Ok_0),
        }
    } else {
        UnitView {
            nodes: m.nodes,
            rx_nodes: m.fragments,
            start_node: Some(NodeId(done.start.idx)),
            greedy_skip_rx: None,
        }
    }
}

/// What compiling a grammar gives: the one unit of its document, or the
/// first error on the way. The items are gathered; a rule `start` must be
/// among them; then the ignored bodies and the rules from `start` are
/// compiled.
pub open spec fn grammar_outcome(items: Seq<ItemView>) -> Result<UnitView, ErrorView> {
    match census(items) {
        Err(err) => Err(err),
        Ok(c) => {
            if !c.defs.rules.contains_key(start_name()) {
                Err(ErrorView::bare(KindView::NoStartRule))
            } else {
                let run = run_grammar(c, initial_machine());
                match run.res {
                    Err(err) => Err(err),
                    Ok(done) => Ok(sealed(run.state, done)),
                }
            }
        },
    }
}

/// What the items of a grammar amount to up to the first that is refused.
pub open spec fn gathered(items: Seq<ItemView>) -> Census
    decreases items.len(),
{
    if items.len() == 0 {
        empty_census()
    } else {
        match census(items.drop_last()) {
            Err(_) => gathered(items.drop_last()),
            Ok(front) => match add_item(front, items.last()) {
                Ok(c) => c,
                Err(_) => front,
            },
        }
    }
}

/// Where the first `n` items are refused, what all the items amount to up
/// to the first refusal is what the first `n` do.
pub proof fn lemma_gathered_prefix(items: Seq<ItemView>, n: int)
    requires
        0 <= n <= items.len(),
        census(items.take(n)) is Err,
    ensures
        gathered(items) == gathered(items.take(n)),
    decreases items.len(),
{
    if n == items.len() {
        assert(items.take(n) =~= items);
    } else {
        assert(items.drop_last().take(n) =~= items.take(n));
        lemma_census_error(items.drop_last(), n);
        lemma_gathered_prefix(items.drop_last(), n);
    }
}

/// A failure among the first `n` ignored bodies is the failure of them all.
pub proof fn lemma_run_skips_error(
    tokens: Map<Seq<char>, ExpansionsView>,
    ignore: Seq<ExpansionsView>,
    n: int,
    m: Machine,
)
    requires
        0 <= n <= ignore.len(),
        run_skips(tokens, ignore.take(n), m).res is Err,
    ensures
        run_skips(tokens, ignore, m) == run_skips(tokens, ignore.take(n), m),
    decreases ignore.len(),
{
    if n == ignore.len() {
        assert(ignore.take(n) =~= ignore);
    } else {
        assert(ignore.drop_last().take(n) =~= ignore.take(n));
        lemma_run_skips_error(tokens, ignore.drop_last(), n, m);
    }
}

/// The ignored bodies are not refused for want of a rule `start`.
pub proof fn lemma_skips_start(
    tokens: Map<Seq<char>, ExpansionsView>,
    ignore: Seq<ExpansionsView>,
    m: Machine,
)
    requires
        tokens.dom().finite(),
    ensures
        start_not_missed(run_skips(tokens, ignore, m)),
    decreases ignore.len(),
{
    if ignore.len() > 0 {
        lemma_skips_start(tokens, ignore.drop_last(), m);
        lemma_token_body_start(
            tokens,
            ignore.last(),
            run_skips(tokens, ignore.drop_last(), m).state,
        );
    }
}

/// The graph stands for the grammar: each rule with a node recorded is
/// defined, its node is a sequence or a choice that stands for its body,
/// and the node of `start` is `start`.
pub open spec fn models(g: Graph, d: Defs, start: NodeId) -> bool {
    &&& g.names.contains_key(start_name())
    &&& g.names[start_name()].idx == start.0
    &&& forall|r: Seq<char>| #[trigger]
        g.names.contains_key(r) ==> {
            &&& d.rules.contains_key(r)
            &&& g.is_composite(NodeId(g.names[r].idx))
            &&& realizes_expansions(g, d, NodeId(g.names[r].idx), d.rules[r])
        }
}

/// The graph of the unit stands for the grammar from `start`, with some
/// choice of the node recorded for each rule.
pub open spec fn stands_for(unit: UnitView, d: Defs, start: NodeId) -> bool {
    exists|names: Map<Seq<char>, NodeRef>| #[trigger]
        models(Graph { nodes: unit.nodes, fragments: unit.rx_nodes, names }, d, start)
}

/// The unit is the compiled form of what the first phase gathered: no
/// placeholder is left in it; its graph stands for the grammar from its
/// start node; and its skip regex is there just when something is ignored,
/// and then stands for the choice among the ignored bodies.
pub open spec fn unit_of(unit: UnitView, c: Census) -> bool {
    &&& !unit.has_placeholder()
    &&& unit.start_node matches Some(start)
    &&& stands_for(unit, c.defs, start)
    &&& skip_terms(c.defs.tokens, c.ignore) matches Ok(terms)
    &&& if terms.len() == 0 {
        unit.greedy_skip_rx is None
    } else {
        &&& unit.greedy_skip_rx matches Some(rx)
        &&& rx.0 < unit.rx_nodes.len()
        &&& term_of(unit.rx_nodes, rx.0 as int) == rx_select(terms)
    }
}

/// The units are the document of the grammar: one unit, the compiled form
/// of what the items amount to.
pub open spec fn document_of(units: Seq<UnitView>, items: Seq<ItemView>) -> bool {
    &&& census(items) matches Ok(c)
    &&& units.len() == 1
    &&& unit_of(units[0], c)
}

/// The views of the bodies of a list.
pub open spec fn view_bodies(bodies: Seq<Expansions>) -> Seq<ExpansionsView> {
    Seq::new(bodies.len(), |i: int| bodies[i]@)
}

/// The imported tokens that a list of definitions holds.
pub open spec fn imports_of(defs: Seq<TokenDef>) -> Seq<Imported> {
    Seq::new(defs.len(), |i: int| Imported { name: defs[i].name@, body: defs[i].expansions@ })
}

/// Turns a list round.
pub fn reversed<T>(list: Vec<T>) -> (res: Vec<T>)
    ensures
        res@.len() == list@.len(),
        forall|k: int| 0 <= k < res@.len() ==> res@[k] == list@[list@.len() - 1 - k],
{
    let mut rest = list;
    let mut res: Vec<T> = Vec::new();
    loop
        invariant
            rest@.len() + res@.len() == list@.len(),
            forall|k: int| 0 <= k < rest@.len() ==> rest@[k] == list@[k],
            forall|k: int| 0 <= k < res@.len() ==> res@[k] == list@[list@.len() - 1 - k],
        ensures
            rest@.len() == 0,
        decreases rest@.len(),
    {
        match rest.pop() {
            Some(x) => {
                res.push(x);
            },
            None => {
                break ;
            },
        }
    }
    res
}

impl Compiler {
    /// Nothing has been compiled yet: the builder has no unit, no id is
    /// recorded, nothing is in progress and nothing is ignored.
    pub open spec fn is_new(&self) -> bool {
        &&& self.builder.wf()
        &&& !self.builder.active()
        &&& self.node_ids@ == Map::<Seq<char>, NodeRef>::empty()
        &&& self.regex_ids@ == Map::<Seq<char>, RegexId>::empty()
        &&& self.in_progress@ == Set::<Seq<char>>::empty()
        &&& self.ignore@.len() == 0
    }

    /// A compiler that has compiled nothing.
    pub fn new() -> (res: Compiler)
        ensures
            res.is_new(),
    {
        Compiler {
            builder: GrammarBuilder::new(),
            node_ids: StringHashMap::new(),
            regex_ids: StringHashMap::new(),
            in_progress: StringHashSet::new(),
            ignore: Vec::new(),
        }
    }

    /// The definition of an imported token: under `local_name`, one
    /// alternative that holds the regular expression `regex` without flags,
    /// at the place `loc`.
    pub fn mk_token_def(loc: &Location, local_name: String, regex: &str) -> (res: TokenDef)
        ensures
            res.name@ == local_name@,
            res.params is None,
            res.priority is None,
            res.expansions@ == import_body(*loc, regex@),
            res.expansions.1@.len() == 1,
            res.expansions.1@[0].alias is None,
    {
        let expr = Expr {
            atom: Atom::Value(Value::LiteralRegex(regex.to_owned(), String::new())),
            op: None,
            range: None,
        };
        let ghost expr_view = expr@;
        let mut exprs: Vec<Expr> = Vec::new();
        exprs.push(expr);
        let alias = Alias { expansion: Expansion(exprs), alias: None };
        let ghost alias_view = alias@;
        let mut aliases: Vec<Alias> = Vec::new();
        aliases.push(alias);
        let res = TokenDef {
            name: local_name,
            params: None,
            priority: None,
            expansions: Expansions(*loc, aliases),
        };
        proof {
            assert(alias_view =~= seq![expr_view]);
            assert(res.expansions@.alts =~= seq![alias_view]);
        }
        res
    }

    /// Handles a statement. An ignore statement adds its body to what the
    /// lexer skips; an import brings the definitions of the tokens it names;
    /// an override and a declaration are refused.
    pub fn do_statement(&mut self, loc: &Location, statement: Statement) -> (res: Result<
        Vec<TokenDef>,
        CompileError,
    >)
        ensures
            match statement_imports(*loc, statement@) {
                Ok(defs) => {
                    &&& res matches Ok(list)
                    &&& imports_of(list@) == defs
                    &&& view_bodies(final(self).ignore@) == statement_ignore(
                        view_bodies(old(self).ignore@),
                        statement@,
                    )
                },
                Err(err) => res matches Err(e) && e@ == err && *final(self) == *old(self),
            },
            final(self).builder == old(self).builder,
            final(self).node_ids == old(self).node_ids,
            final(self).regex_ids == old(self).regex_ids,
            final(self).in_progress == old(self).in_progress,
    {
        let mut defs: Vec<TokenDef> = Vec::new();
        match statement {
            Statement::Ignore(body) => {
                self.ignore.push(body);
            },
            Statement::Import { path, alias } => {
                let regex = match lookup_common_regex(path.as_str()) {
                    Ok(regex) => regex,
                    Err(e) => {
                        return Err(e);
                    },
                };
                let local_name = match alias {
                    Some(name) => name,
                    None => last_path_segment(path.as_str()),
                };
                let def = Compiler::mk_token_def(loc, local_name, regex);
                defs.push(def);
            },
            Statement::MultiImport { path, names } => {
                let mut i: usize = 0;
                proof {
                    assert(imports_of(defs@) =~= Seq::<Imported>::empty());
                }
                while i < names.len()
                    invariant
                        i <= names.len(),
                        *self == *old(self),
                        statement@ == (StatementView::MultiImport {
                            path: path@,
                            names: view_names(names@),
                        }),
                        multi_imported(*loc, path@, view_names(names@).take(i as int)) == Ok::<
                            Seq<Imported>,
                            ErrorView,
                        >(imports_of(defs@)),
                    decreases names.len() - i,
                {
                    proof {
                        reveal_strlit(".");
                        assert(view_names(names@).take(i + 1).drop_last() =~= view_names(
                            names@,
                        ).take(i as int));
                    }
                    let mut qname = path.clone();
                    qname.append(".");
                    qname.append(names[i].as_str());
                    assert(qname@ =~= qualified(path@, names@[i as int]@));
                    let regex = match lookup_common_regex(qname.as_str()) {
                        Ok(regex) => regex,
                        Err(e) => {
                            proof {
                                lemma_multi_imported_error(
                                    *loc,
                                    path@,
                                    view_names(names@),
                                    i + 1,
                                );
                            }
                            return Err(e);
                        },
                    };
                    let ghost before = imports_of(defs@);
                    let def = Compiler::mk_token_def(loc, names[i].clone(), regex);
                    let ghost name = def.name@;
                    defs.push(def);
                    proof {
                        assert(imports_of(defs@) =~= before.push(
                            Imported { name, body: import_body(*loc, regex@) },
                        ));
                    }
                    i += 1;
                }
                assert(view_names(names@).take(i as int) =~= view_names(names@));
            },
            Statement::OverrideRule(_) => {
                return Err(CompileError::new(ErrorKind::OverrideNotSupported));
            },
            Statement::Declare(_) => {
                return Err(CompileError::new(ErrorKind::DeclareNotSupported));
            },
        }
        Ok(defs)
    }

    /// Adds imported tokens to the table, from the left. A name that a
    /// token has already is an error: the tokens before it stay added.
    pub fn add_defs(tables: &mut Tables, defs: Vec<TokenDef>) -> (res: Result<(), CompileError>)
        requires
            old(tables).wf(),
        ensures
            match add_imported(old(tables)@.tokens, imports_of(defs@)) {
                Ok(tokens) => {
                    &&& res is Ok
                    &&& final(tables)@.tokens == tokens
                    &&& final(tables)@.rules == old(tables)@.rules
                    &&& final(tables).wf()
                },
                Err(err) => res matches Err(e) && e@ == err,
            },
            final(tables)@.tokens == imported_so_far(old(tables)@.tokens, imports_of(defs@)),
            final(tables)@.rules == old(tables)@.rules,
            final(tables).wf(),
    {
        let ghost all = imports_of(defs@);
        let ghost start = tables@.tokens;
        let n = defs.len();
        let mut rest = reversed(defs);
        let mut i: usize = 0;
        while i < n
            invariant
                i <= n,
                n == all.len(),
                all == imports_of(defs@),
                start == old(tables)@.tokens,
                rest@.len() + i == n,
                forall|k: int|
                    0 <= k < rest@.len() ==> all[n - 1 - k] == (Imported {
                        name: (#[trigger] rest@[k]).name@,
                        body: rest@[k].expansions@,
                    }),
                add_imported(start, all.take(i as int)) == Ok::<
                    Map<Seq<char>, ExpansionsView>,
                    ErrorView,
                >(tables@.tokens),
                imported_so_far(start, all.take(i as int)) == tables@.tokens,
                tables@.rules == old(tables)@.rules,
                tables.wf(),
            decreases n - i,
        {
            proof {
                assert(all.take(i + 1).drop_last() =~= all.take(i as int));
            }
            let def = match rest.pop() {
                Some(def) => def,
                None => unreached(),
            };
            if tables.tokens.contains_key(def.name.as_str()) {
                proof {
                    lemma_add_imported_error(start, all, i + 1);
                    lemma_imported_so_far_prefix(start, all, i + 1);
                }
                return Err(CompileError::new(ErrorKind::DuplicateImportedToken(def.name)));
            }
            let ghost before = tables@;
            let ghost name = def.name@;
            let ghost body = def.expansions@;
            tables.tokens.insert(def.name.clone(), def);
            proof {
                assert(tables@.tokens =~= before.tokens.insert(name, body));
            }
            i += 1;
        }
        proof {
            assert(all.take(i as int) =~= all);
        }
        Ok(())
    }

    /// The first phase: gathers the rules and tokens of the grammar into
    /// tables and the bodies of its ignore statements into the compiler.
    pub fn gather(&mut self, items: Vec<Item>) -> (res: Result<Tables, CompileError>)
        requires
            old(self).is_new(),
        ensures
            match census(view_items(items@)) {
                Ok(c) => {
                    &&& res matches Ok(tables)
                    &&& tables@ == c.defs
                    &&& tables.wf()
                    &&& view_bodies(final(self).ignore@) == c.ignore
                },
                Err(err) => res matches Err(e) && e@ == err,
            },
            view_bodies(final(self).ignore@) == gathered(view_items(items@)).ignore,
            final(self).builder == old(self).builder,
            final(self).node_ids == old(self).node_ids,
            final(self).regex_ids == old(self).regex_ids,
            final(self).in_progress == old(self).in_progress,
    {
        let ghost all = view_items(items@);
        let n = items.len();
        let mut rest = reversed(items);
        let mut tables = Tables { rules: StringHashMap::new(), tokens: StringHashMap::new() };
        let mut i: usize = 0;
        proof {
            assert(tables@.rules =~= Map::<Seq<char>, ExpansionsView>::empty());
            assert(tables@.tokens =~= Map::<Seq<char>, ExpansionsView>::empty());
            assert(view_bodies(self.ignore@) =~= Seq::<ExpansionsView>::empty());
        }
        while i < n
            invariant
                i <= n,
                n == all.len(),
                all == view_items(items@),
                rest@.len() + i == n,
                forall|k: int| 0 <= k < rest@.len() ==> (#[trigger] rest@[k])@ == all[n - 1 - k],
                census(all.take(i as int)) == Ok::<Census, ErrorView>(
                    Census { defs: tables@, ignore: view_bodies(self.ignore@) },
                ),
                tables.wf(),
                self.builder == old(self).builder,
                self.node_ids == old(self).node_ids,
                self.regex_ids == old(self).regex_ids,
                self.in_progress == old(self).in_progress,
                gathered(all.take(i as int)).ignore == view_bodies(self.ignore@),
            decreases n - i,
        {
            proof {
                assert(all.take(i + 1).drop_last() =~= all.take(i as int));
            }
            let item = match rest.pop() {
                Some(item) => item,
                None => unreached(),
            };
            let ghost before = tables@;
            match item {
                Item::Rule(rule) => {
                    if rule.params.is_some() {
                        proof {
                            lemma_census_error(all, i + 1);
                            lemma_gathered_prefix(all, i + 1);
                        }
                        return Err(CompileError::new(ErrorKind::ParamsNotSupported));
                    }
                    if rule.priority.is_some() {
                        proof {
                            lemma_census_error(all, i + 1);
                            lemma_gathered_prefix(all, i + 1);
                        }
                        return Err(CompileError::new(ErrorKind::PriorityNotSupported));
                    }
                    if tables.rules.contains_key(rule.name.as_str()) {
                        proof {
                            lemma_census_error(all, i + 1);
                            lemma_gathered_prefix(all, i + 1);
                        }
                        return Err(CompileError::new(ErrorKind::DuplicateRule(rule.name)));
                    }
                    let ghost name = rule.name@;
                    let ghost body = rule.expansions@;
                    tables.rules.insert(rule.name.clone(), rule);
                    proof {
                        assert(tables@.rules =~= before.rules.insert(name, body));
                    }
                },
                Item::Token(token) => {
                    if token.params.is_some() {
                        proof {
                            lemma_census_error(all, i + 1);
                            lemma_gathered_prefix(all, i + 1);
                        }
                        return Err(CompileError::new(ErrorKind::ParamsNotSupported));
                    }
                    if token.priority.is_some() {
                        proof {
                            lemma_census_error(all, i + 1);
                            lemma_gathered_prefix(all, i + 1);
                        }
                        return Err(CompileError::new(ErrorKind::PriorityNotSupported));
                    }
                    if tables.tokens.contains_key(token.name.as_str()) {
                        proof {
                            lemma_census_error(all, i + 1);
                            lemma_gathered_prefix(all, i + 1);
                        }
                        return Err(CompileError::new(ErrorKind::DuplicateToken(token.name)));
                    }
                    let ghost name = token.name@;
                    let ghost body = token.expansions@;
                    tables.tokens.insert(token.name.clone(), token);
                    proof {
                        assert(tables@.tokens =~= before.tokens.insert(name, body));
                    }
                },
                Item::Statement(loc, statement) => {
                    let defs = match self.do_statement(&loc, statement) {
                        Ok(defs) => defs,
                        Err(e) => {
                            proof {
                                lemma_census_error(all, i + 1);
                            lemma_gathered_prefix(all, i + 1);
                            }
                            return Err(e.augment(loc));
                        },
                    };
                    match Compiler::add_defs(&mut tables, defs) {
                        Ok(_) => {},
                        Err(e) => {
                            proof {
                                lemma_census_error(all, i + 1);
                            lemma_gathered_prefix(all, i + 1);
                            }
                            return Err(e);
                        },
                    }
                },
            }
            i += 1;
        }
        proof {
            assert(all.take(i as int) =~= all);
        }
        Ok(tables)
    }

    /// Compiles the ignored bodies from the left, each as a body of a token
    /// definition, and returns their fragments.
    pub fn do_skips(&mut self, tables: &Tables, bodies: &Vec<Expansions>) -> (res: Result<
        Vec<RegexId>,
        CompileError,
    >)
        requires
            old(self).token_inv(tables),
        ensures
            final(self).machine() == run_skips(
                tables@.tokens,
                view_bodies(bodies@),
                old(self).machine(),
            ).state,
            match res {
                Ok(ids) => {
                    &&& run_skips(tables@.tokens, view_bodies(bodies@), old(self).machine()).res
                        == Ok::<Seq<RegexId>, ErrorView>(ids@)
                    &&& final(self).token_inv(tables)
                    &&& final(self).lexer_grows(old(self))
                    &&& final(self).builder.regex.has_all(ids@)
                    &&& skip_terms(tables@.tokens, view_bodies(bodies@)) == Ok::<
                        Seq<Rx>,
                        ErrorView,
                    >(final(self).builder.regex.terms(ids@))
                },
                Err(e) => run_skips(tables@.tokens, view_bodies(bodies@), old(self).machine()).res
                    == Err::<Seq<RegexId>, ErrorView>(e@),
            },
            final(self).graph_untouched(old(self)),
    {
        let ghost all = view_bodies(bodies@);
        let mut ignore: Vec<RegexId> = Vec::new();
        let mut i: usize = 0;
        proof {
            assert(all.take(0) =~= Seq::<ExpansionsView>::empty());
            assert(ignore@ =~= Seq::<RegexId>::empty());
            assert(self.builder.regex.terms(ignore@) =~= Seq::<Rx>::empty());
        }
        while i < bodies.len()
            invariant
                i <= bodies.len(),
                all == view_bodies(bodies@),
                self.token_inv(tables),
                self.lexer_grows(old(self)),
                self.graph_untouched(old(self)),
                self.builder.regex.has_all(ignore@),
                run_skips(tables@.tokens, all.take(i as int), old(self).machine())
                    == self.machine().done(ignore@),
                skip_terms(tables@.tokens, all.take(i as int)) == Ok::<Seq<Rx>, ErrorView>(
                    self.builder.regex.terms(ignore@),
                ),
            decreases bodies.len() - i,
        {
            let ghost mid = *self;
            proof {
                assert(all.take(i + 1).drop_last() =~= all.take(i as int));
                assert(all.take(i + 1).last() == bodies@[i as int]@);
            }
            match self.do_token_expansions(tables, &bodies[i]) {
                Ok(id) => {
                    proof {
                        lemma_token_expansions_shrink(
                            tables@.tokens,
                            bodies@[i as int]@,
                            self.pending_tokens(),
                            Set::empty(),
                        );
                        lemma_terms_stable(mid.builder.regex@, self.builder.regex@, ignore@);
                        assert(self.builder.regex.terms(ignore@.push(id))
                            =~= self.builder.regex.terms(ignore@).push(
                            self.builder.regex.term(id),
                        ));
                    }
                    ignore.push(id);
                },
                Err(e) => {
                    proof {
                        lemma_run_skips_error(tables@.tokens, all, i + 1, old(self).machine());
                    }
                    return Err(e);
                },
            }
            i += 1;
        }
        proof {
            assert(all.take(i as int) =~= all);
        }
        Ok(ignore)
    }

    /// The unit that is sealed after the rules have been compiled is the
    /// compiled form of what the first phase gathered.
    pub proof fn lemma_sealed(
        &self,
        parsed: &Compiler,
        tables: &Tables,
        c: Census,
        start: NodeRef,
        terms: Seq<Rx>,
    )
        requires
            parsed.rule_inv(tables),
            parsed.in_progress@ == Set::<Seq<char>>::empty(),
            tables@ == c.defs,
            parsed.node_ids@.contains_key(start_name()),
            parsed.node_ids@[start_name()] == start,
            skip_terms(c.defs.tokens, c.ignore) == Ok::<Seq<Rx>, ErrorView>(terms),
            self.builder.nodes == parsed.builder.nodes,
            self.builder.regex.wf(),
            self.builder.regex.extends(&parsed.builder.regex),
            self.builder.active(),
            self.builder.start() == Some(NodeId(start.idx)),
            if terms.len() == 0 {
                self.builder.skip() is None
            } else {
                &&& self.builder.skip() matches Some(rx)
                &&& self.builder.regex.has(rx)
                &&& self.builder.regex.term(rx) == rx_select(terms)
            },
        ensures
            unit_of(self.builder.open_unit(), c),
    {
        let unit = self.builder.open_unit();
        let g = parsed.graph();
        let h = Graph { nodes: unit.nodes, fragments: unit.rx_nodes, names: parsed.node_ids@ };
        assert(g.keeps(h));
        assert forall|r: Seq<char>| #[trigger] h.names.contains_key(r) implies {
            &&& c.defs.rules.contains_key(r)
            &&& h.is_composite(NodeId(h.names[r].idx))
            &&& realizes_expansions(h, c.defs, NodeId(h.names[r].idx), c.defs.rules[r])
        } by {
            assert(parsed.rule_recorded(tables, r));
            lemma_keeps_expansions(g, h, c.defs, NodeId(h.names[r].idx), c.defs.rules[r]);
        }
        assert(models(h, c.defs, NodeId(start.idx)));
        assert(stands_for(unit, c.defs, NodeId(start.idx)));
        assert(!unit.has_placeholder()) by {
            if unit.has_placeholder() {
                let k = choose|k: int|
                    0 <= k < unit.nodes.len() && unit.nodes[k] == NodeView::Placeholder;
                assert(parsed.builder.graph()[k] == NodeView::Placeholder);
                assert(parsed.owned(k));
            }
        }
    }

    /// What holds after the phases that follow the first, for what the first
    /// phase gathered: the builder holds the one unit, open; on success the
    /// unit is the one that the steps of the compilation seal, and it is the
    /// compiled form of what was gathered; on failure the state is the state
    /// at the failing step.
    pub open spec fn compiled(&self, c: Census, res: Result<(), CompileError>) -> bool {
        let run = run_grammar(c, initial_machine());
        &&& self.builder.active()
        &&& self.builder.closed_units().len() == 0
        &&& match run.res {
            Ok(done) => {
                &&& res is Ok
                &&& self.builder.wf()
                &&& self.builder.open_unit() == sealed(run.state, done)
                &&& self.node_ids@ == run.state.node_ids
                &&& self.regex_ids@ == run.state.regex_ids
                &&& self.in_progress@ == run.state.in_progress
                &&& unit_of(self.builder.open_unit(), c)
            },
            Err(err) => {
                &&& res matches Err(e)
                &&& e@ == err
                &&& self.machine() == run.state
            },
        }
    }

    /// Seals the unit under construction: sets its start node and, where
    /// something is ignored, the choice among the fragments of the ignored
    /// bodies as its skip regex.
    pub fn seal(&mut self, start: NodeRef, ignore: Vec<RegexId>)
        requires
            old(self).builder.wf(),
            old(self).builder.has(start),
            old(self).builder.skip() is None,
            old(self).builder.regex.has_all(ignore@),
        ensures
            final(self).builder.wf(),
            final(self).builder.active(),
            final(self).builder.open_unit() == sealed(
                old(self).machine(),
                Compiled { skips: ignore@, start },
            ),
            final(self).builder.closed_units() == old(self).builder.closed_units(),
            final(self).builder.nodes == old(self).builder.nodes,
            final(self).builder.regex.extends(&old(self).builder.regex),
            final(self).builder.start() == Some(NodeId(start.idx)),
            if ignore@.len() == 0 {
                final(self).builder.skip() is None
            } else {
                &&& final(self).builder.skip() matches Some(rx)
                &&& final(self).builder.regex.has(rx)
                &&& final(self).builder.regex.term(rx) == rx_select(
                    old(self).builder.regex.terms(ignore@),
                )
            },
            final(self).node_ids == old(self).node_ids,
            final(self).regex_ids == old(self).regex_ids,
            final(self).in_progress == old(self).in_progress,
            final(self).ignore == old(self).ignore,
    {
        self.builder.set_start_node(start);
        if ignore.len() > 0 {
            let skip = self.builder.regex.select(ignore);
            self.builder.set_greedy_skip(skip);
        }
    }

    /// The phases that follow the first: opens the one unit of the
    /// document, compiles what the lexer skips and then the rules from
    /// `start`, and sets the start node and the skip regex of the unit.
    #[verifier::rlimit(40)]
    pub fn compile(&mut self, tables: &Tables, bodies: &Vec<Expansions>) -> (res: Result<
        (),
        CompileError,
    >)
        requires
            old(self).is_new(),
            tables.wf(),
            tables@.rules.contains_key(start_name()),
        ensures
            final(self).compiled(Census { defs: tables@, ignore: view_bodies(bodies@) }, res),
            final(self).ignore == old(self).ignore,
    {
        let ghost c = Census { defs: tables@, ignore: view_bodies(bodies@) };
        proof {
            reveal_strlit("start");
            assert("start"@ =~= start_name());
        }
        self.builder.add_grammar(GrammarWithLexer::default());
        proof {
            assert(self.builder.closed_units() =~= Seq::<UnitView>::empty());
            assert(self.machine() == initial_machine());
        }
        let ignore = match self.do_skips(tables, bodies) {
            Ok(ignore) => ignore,
            Err(e) => {
                return Err(e);
            },
        };
        let ghost lexed = *self;
        let start = match self.do_rule(tables, "start") {
            Ok(node) => node,
            Err(e) => {
                return Err(e);
            },
        };
        let ghost parsed = *self;
        let ghost terms = lexed.builder.regex.terms(ignore@);
        proof {
            lemma_terms_stable(lexed.builder.regex@, parsed.builder.regex@, ignore@);
        }
        self.seal(start, ignore);
        proof {
            self.lemma_sealed(&parsed, tables, c, start, terms);
        }
        Ok(())
    }

    /// Compiles the grammar into the builder: gathers the tables, checks
    /// that a rule `start` exists, and goes through the phases that follow.
    /// Where the first phase fails or no rule `start` exists, no unit is
    /// opened and nothing is compiled.
    pub fn execute(&mut self, items: Vec<Item>) -> (res: Result<(), CompileError>)
        requires
            old(self).is_new(),
        ensures
            res is Ok <==> grammar_outcome(view_items(items@)) is Ok,
            res matches Err(e) ==> grammar_outcome(view_items(items@)) == Err::<
                UnitView,
                ErrorView,
            >(e@),
            census(view_items(items@)) matches Ok(c) ==> (c.defs.rules.contains_key(start_name())
                ==> final(self).compiled(c, res) && final(self).ignore@.len() == 0),
            !(census(view_items(items@)) matches Ok(c) && c.defs.rules.contains_key(start_name()))
                ==> {
                &&& final(self).builder == old(self).builder
                &&& final(self).node_ids == old(self).node_ids
                &&& final(self).regex_ids == old(self).regex_ids
                &&& final(self).in_progress == old(self).in_progress
                &&& view_bodies(final(self).ignore@) == gathered(view_items(items@)).ignore
            },
    {
        let ghost all = view_items(items@);
        let tables = match self.gather(items) {
            Ok(tables) => tables,
            Err(e) => {
                return Err(e);
            },
        };
        proof {
            reveal_strlit("start");
            assert("start"@ =~= start_name());
        }
        if !tables.rules.contains_key("start") {
            return Err(CompileError::new(ErrorKind::NoStartRule));
        }
        let mut bodies: Vec<Expansions> = Vec::new();
        core::mem::swap(&mut self.ignore, &mut bodies);
        self.compile(&tables, &bodies)
    }
}

/// Compiles a grammar into its document. The document has the one unit that
/// [`grammar_outcome`] gives, whose graph stands for the rules of the
/// grammar from `start`; a grammar that is refused yields the first error
/// on the way.
pub fn lark_to_llguidance(items: Vec<Item>) -> (res: Result<TopLevelGrammar, CompileError>)
    ensures
        match grammar_outcome(view_items(items@)) {
            Ok(unit) => {
                &&& res matches Ok(doc)
                &&& doc@ == seq![unit]
                &&& document_of(doc@, view_items(items@))
            },
            Err(err) => res matches Err(e) && e@ == err,
        },
{
    let mut c = Compiler::new();
    match c.execute(items) {
        Ok(_) => {},
        Err(e) => {
            return Err(e);
        },
    }
    proof {
        let units = c.builder.units();
        assert(units.drop_last() =~= c.builder.closed_units());
        assert(units.last() == c.builder.open_unit());
        assert(first_defect(units.drop_last()) is None);
        assert(units =~= seq![c.builder.open_unit()]);
    }
    match c.builder.finalize() {
        Ok(doc) => Ok(doc),
        Err(_) => unreached(),
    }
}

} // verus!
