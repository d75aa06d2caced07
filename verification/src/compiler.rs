//! The grammar compiler: from the items of a grammar to a document.
//!
//! The tables of rules and tokens are built once and then only read. The
//! compiler itself holds what changes: the builder, the ids of the names that
//! are done, and the names whose bodies are being compiled.

use vstd::prelude::*;
use vstd::hash_map::StringHashMap;
use vstd::hash_set::StringHashSet;

use crate::ast::{Alias, Atom, Expansions, Expr, ExprView, Rule, TokenDef, Value};
use crate::error::{CompileError, ErrorKind, ErrorView, KindView, PatternOrigin};
use crate::grammar_builder::{GrammarBuilder, NodeId, NodeRef, NodeView, ids_of};
use crate::machine::{
    Machine, Step, lemma_run_aliases_error, lemma_run_exprs_error, lemma_run_token_aliases_error,
    lemma_run_token_exprs_error, run_alias, run_aliases, run_atom, run_body, run_expr, run_exprs,
    run_rule, run_token, run_token_alias, run_token_aliases, run_token_atom, run_token_body,
    run_token_expr, run_token_exprs,
};
use crate::lexical::{
    Quantifier, lemma_token_atom_shrink, lemma_token_aliases_shrink, lemma_token_exprs_shrink,
    lemma_token_named_shrink, pattern_term, quantifier_of, token_alias, token_aliases, token_atom,
    token_expansions, token_expr, token_exprs, token_named,
};
use crate::pattern::{
    check_pattern, flagged_pattern_text, insensitive_pattern_text, range_pattern_text,
};
use crate::regex_builder::{
    RegexId, RegexNodeView, Rx, interned, lemma_term_stable, lemma_terms_stable,
};
use crate::syntactic::{
    Defs, Graph, lemma_keeps_aliases, lemma_keeps_atom, lemma_keeps_expansions, lemma_keeps_exprs,
    realizes_alias, realizes_aliases, realizes_atom, realizes_expansions, realizes_expr,
    realizes_exprs,
};
use crate::text::contains_char;

verus! {

/// The definitions of a grammar by name.
pub struct Tables {
    pub rules: StringHashMap<Rule>,
    pub tokens: StringHashMap<TokenDef>,
}

impl View for Tables {
    type V = Defs;

    open spec fn view(&self) -> Defs {
        Defs {
            rules: Map::new(
                |name: Seq<char>| self.rules@.contains_key(name),
                |name: Seq<char>| self.rules@[name].expansions@,
            ),
            tokens: Map::new(
                |name: Seq<char>| self.tokens@.contains_key(name),
                |name: Seq<char>| self.tokens@[name].expansions@,
            ),
        }
    }
}

impl Tables {
    /// Both tables are finite.
    pub open spec fn wf(&self) -> bool {
        &&& self@.rules.dom().finite()
        &&& self@.tokens.dom().finite()
    }
}

/// The state of a compilation.
pub struct Compiler {
    /// The document under construction.
    pub builder: GrammarBuilder,
    /// The node of each rule that is done, and the placeholder of each rule
    /// that was referred to while its body was being compiled.
    pub node_ids: StringHashMap<NodeRef>,
    /// The regex fragment of each token that is done.
    pub regex_ids: StringHashMap<RegexId>,
    /// The names, of rules and of tokens, whose bodies are being compiled.
    pub in_progress: StringHashSet,
    /// The bodies of the ignore statements met so far.
    pub ignore: Vec<Expansions>,
}

/// Reads a quantifier.
pub fn parse_quantifier(op: &str) -> (res: Option<Quantifier>)
    ensures
        res == quantifier_of(op@),
{
    if op.unicode_len() != 1 {
        return None;
    }
    let c = op.get_char(0);
    assert(op@ =~= seq![c]);
    if c == '*' {
        Some(Quantifier::ZeroOrMore)
    } else if c == '+' {
        Some(Quantifier::OneOrMore)
    } else if c == '?' {
        Some(Quantifier::Optional)
    } else {
        None
    }
}

/// The result of a step as the error views have it.
pub open spec fn outcome<T>(res: Result<T, CompileError>) -> Result<T, ErrorView> {
    match res {
        Ok(value) => Ok(value),
        Err(e) => Err(e@),
    }
}

impl Compiler {
    /// The state as the steps of a compilation see it.
    pub open spec fn machine(&self) -> Machine {
        Machine {
            fragments: self.builder.regex@,
            nodes: self.builder.graph(),
            unit: (self.builder.top_grammar.grammars@.len() - 1) as usize,
            regex_ids: self.regex_ids@,
            node_ids: self.node_ids@,
            in_progress: self.in_progress@,
        }
    }

    /// What no step touches is as in `before`: the units of the document
    /// and the ignored bodies.
    pub open spec fn untouched(&self, before: &Compiler) -> bool {
        &&& self.builder.top_grammar == before.builder.top_grammar
        &&& self.ignore == before.ignore
    }

    /// What no step on tokens touches is as in `before`: besides the above,
    /// the node graph and the nodes recorded.
    pub open spec fn graph_untouched(&self, before: &Compiler) -> bool {
        &&& self.untouched(before)
        &&& self.builder.nodes == before.builder.nodes
        &&& self.node_ids == before.node_ids
    }

    /// The names of the tokens that are not done.
    pub open spec fn pending_tokens(&self) -> Set<Seq<char>> {
        Set::new(|n: Seq<char>| !self.regex_ids@.contains_key(n))
    }

    /// The number of tokens that were never entered. It bounds how deep the
    /// compilation of tokens can still nest.
    pub open spec fn token_fuel(&self, tables: &Tables) -> nat {
        self.machine().token_fuel(tables@.tokens)
    }

    /// The token `n` is done: its fragment stands for the expression of its
    /// definition, which refers to tokens that are done only.
    pub open spec fn token_done(&self, tables: &Tables, n: Seq<char>) -> bool {
        &&& self.builder.regex.has(self.regex_ids@[n])
        &&& token_named(tables@.tokens, n, self.pending_tokens()) == Ok::<Rx, ErrorView>(
            self.builder.regex.term(self.regex_ids@[n]),
        )
    }

    /// What holds of the state wherever tokens are compiled.
    pub open spec fn token_inv(&self, tables: &Tables) -> bool {
        &&& tables.wf()
        &&& self.builder.wf()
        &&& self.builder.active()
        &&& forall|n: Seq<char>| #[trigger]
            self.regex_ids@.contains_key(n) ==> self.token_done(tables, n)
    }

    /// The state has moved on from `before` by compiling tokens with
    /// success: the regex table has grown, more tokens are done, none of
    /// them one that was in progress, and the same names are in progress.
    pub open spec fn lexer_grows(&self, before: &Compiler) -> bool {
        &&& self.builder.regex.extends(&before.builder.regex)
        &&& self.in_progress@ == before.in_progress@
        &&& forall|n: Seq<char>| #[trigger]
            before.regex_ids@.contains_key(n) ==> self.regex_ids@.contains_key(n)
                && self.regex_ids@[n] == before.regex_ids@[n]
        &&& forall|n: Seq<char>|
            before.in_progress@.contains(n) && #[trigger] self.regex_ids@.contains_key(n)
                ==> before.regex_ids@.contains_key(n)
    }

    /// The outcome `res` of compiling a piece of a token definition, from the
    /// state `before` to the state `self`. `step` is the step that compiling
    /// the piece makes from the state before: the state is the state it
    /// leaves, and the result is its result, on success and on failure.
    /// `now` is what the piece means with every token forbidden that is not
    /// done: on success the fragment stands for it.
    pub open spec fn lexed(
        &self,
        before: &Compiler,
        tables: &Tables,
        res: Result<RegexId, CompileError>,
        step: Step<RegexId>,
        now: Result<Rx, ErrorView>,
    ) -> bool {
        &&& self.machine() == step.state
        &&& outcome(res) == step.res
        &&& self.graph_untouched(before)
        &&& res matches Ok(id) ==> {
            &&& self.token_inv(tables)
            &&& self.lexer_grows(before)
            &&& self.token_fuel(tables) <= before.token_fuel(tables)
            &&& self.builder.regex.has(id)
            &&& now == Ok::<Rx, ErrorView>(self.builder.regex.term(id))
        }
    }

    /// A state that differs from one with the invariant of tokens by a
    /// longer regex table only has the invariant too.
    pub proof fn lemma_regex_growth(&self, before: &Compiler, tables: &Tables)
        requires
            before.token_inv(tables),
            self.builder.regex.wf(),
            self.builder.regex.extends(&before.builder.regex),
            self.builder.top_grammar == before.builder.top_grammar,
            self.builder.nodes == before.builder.nodes,
            self.regex_ids == before.regex_ids,
            self.in_progress == before.in_progress,
        ensures
            self.token_inv(tables),
            self.token_fuel(tables) == before.token_fuel(tables),
    {
        assert forall|n: Seq<char>| #[trigger]
            self.regex_ids@.contains_key(n) implies self.token_done(tables, n) by {
            assert(before.token_done(tables, n));
            lemma_term_stable(
                before.builder.regex@,
                self.builder.regex@,
                self.regex_ids@[n].0 as int,
            );
            assert(self.pending_tokens() =~= before.pending_tokens());
        }
    }

    /// Registers the raw pattern `rx` with the regex builder where the syntax
    /// check has accepted it, and reports it as invalid for the construct
    /// `origin` where the check has given a reason against it.
    pub fn register_pattern(
        &mut self,
        origin: PatternOrigin,
        rx: String,
        verdict: Result<(), String>,
    ) -> (res: Result<RegexId, CompileError>)
        requires
            old(self).builder.regex.wf(),
        ensures
            match verdict {
                Ok(_) => {
                    &&& res matches Ok(id)
                    &&& (final(self).builder.regex@, id) == interned(
                        old(self).builder.regex@,
                        RegexNodeView::Regex(rx@),
                    )
                    &&& final(self).builder.regex.wf()
                    &&& final(self).builder.regex.extends(&old(self).builder.regex)
                    &&& final(self).builder.regex.has(id)
                    &&& final(self).builder.regex.term(id) == Rx::Pattern(rx@)
                    &&& final(self).builder.top_grammar == old(self).builder.top_grammar
                    &&& final(self).builder.nodes == old(self).builder.nodes
                    &&& final(self).node_ids == old(self).node_ids
                    &&& final(self).regex_ids == old(self).regex_ids
                    &&& final(self).in_progress == old(self).in_progress
                    &&& final(self).ignore == old(self).ignore
                },
                Err(reason) => {
                    &&& res matches Err(e)
                    &&& e@ == ErrorView::bare(
                        KindView::InvalidRegex { pattern: rx@, origin, reason: reason@ },
                    )
                    &&& *final(self) == *old(self)
                },
            },
    {
        match verdict {
            Ok(_) => Ok(self.builder.regex.regex(rx)),
            Err(reason) => Err(
                CompileError::new(ErrorKind::InvalidRegex { pattern: rx, origin, reason }),
            ),
        }
    }

    /// Checks the syntax of the raw pattern `rx` and registers it with the
    /// regex builder. A pattern that the check refuses is reported against
    /// the construct `origin` and is not registered: nothing changes.
    pub fn mk_regex(&mut self, tables: &Tables, origin: PatternOrigin, rx: String) -> (res: Result<
        RegexId,
        CompileError,
    >)
        requires
            old(self).token_inv(tables),
        ensures
            final(self).lexed(
                old(self),
                tables,
                res,
                old(self).machine().register(origin, rx@),
                pattern_term(origin, rx@),
            ),
            res is Ok ==> final(self).regex_ids == old(self).regex_ids,
            res is Err ==> *final(self) == *old(self),
    {
        let ghost before = *self;
        let verdict = check_pattern(rx.as_str());
        let res = self.register_pattern(origin, rx, verdict);
        proof {
            if res is Ok {
                self.lemma_regex_growth(&before, tables);
            }
        }
        res
    }

    /// Compiles the token `name`: returns the fragment it has when it is
    /// done, fails when the name is in progress, and otherwise puts the name
    /// in progress, looks up its definition and compiles it.
    pub fn do_token(&mut self, tables: &Tables, name: &str) -> (res: Result<RegexId, CompileError>)
        requires
            old(self).token_inv(tables),
        ensures
            final(self).lexed(
                old(self),
                tables,
                res,
                run_token(tables@.tokens, name@, old(self).machine()),
                token_named(tables@.tokens, name@, final(self).pending_tokens()),
            ),
            res matches Ok(id) ==> final(self).regex_ids@.contains_key(name@) && final(
                self
            ).regex_ids@[name@] == id,
            old(self).regex_ids@.contains_key(name@) || old(self).in_progress@.contains(name@)
                ==> *final(self) == *old(self),
            !old(self).regex_ids@.contains_key(name@) && !old(self).in_progress@.contains(name@)
                && !tables@.tokens.contains_key(name@) ==> {
                &&& final(self).builder == old(self).builder
                &&& final(self).regex_ids == old(self).regex_ids
                &&& final(self).in_progress@ == old(self).in_progress@.insert(name@)
            },
        decreases old(self).token_fuel(tables), 0nat, name@,
    {
        match self.regex_ids.get(name) {
            Some(id) => {
                let id = *id;
                proof {
                    assert(self.token_done(tables, name@));
                }
                return Ok(id);
            },
            None => {},
        }
        if self.in_progress.contains(name) {
            return Err(CompileError::new(ErrorKind::CircularToken(name.to_owned())));
        }
        self.in_progress.insert(name.to_owned());
        let token = match tables.tokens.get(name) {
            Some(token) => token,
            None => {
                return Err(CompileError::new(ErrorKind::TokenNotFound(name.to_owned())));
            },
        };
        let ghost entered = *self;
        proof {
            let seen = old(self).in_progress@.union(old(self).regex_ids@.dom());
            assert(entered.in_progress@.union(entered.regex_ids@.dom()) =~= seen.insert(name@));
            tables@.tokens.dom().lemma_set_insert_diff_decreases(seen, name@);
            assert(entered.pending_tokens() =~= old(self).pending_tokens());
            assert forall|n: Seq<char>| #[trigger]
                entered.regex_ids@.contains_key(n) implies entered.token_done(tables, n) by {
                assert(old(self).token_done(tables, n));
            }
        }
        let id = match self.do_token_expansions(tables, &token.expansions) {
            Ok(id) => id,
            Err(e) => {
                return Err(e);
            },
        };
        let ghost compiled = *self;
        self.regex_ids.insert(name.to_owned(), id);
        self.in_progress.remove(name);
        proof {
            let toks = tables@.tokens;
            assert(!compiled.regex_ids@.contains_key(name@));
            assert(self.pending_tokens().insert(name@) =~= compiled.pending_tokens());
            assert forall|n: Seq<char>| #[trigger]
                self.regex_ids@.contains_key(n) implies self.token_done(tables, n) by {
                if n != name@ {
                    assert(compiled.token_done(tables, n));
                    lemma_token_named_shrink(
                        toks,
                        n,
                        compiled.pending_tokens(),
                        self.pending_tokens(),
                    );
                }
            }
            assert(self.in_progress@ =~= old(self).in_progress@);
            assert(self.in_progress@.union(self.regex_ids@.dom()) =~= compiled.in_progress@.union(
                compiled.regex_ids@.dom(),
            ));
        }
        Ok(id)
    }

    /// Compiles an atom of a token definition. A literal range, string or
    /// regular expression that is refused changes nothing.
    pub fn do_token_atom(&mut self, tables: &Tables, atom: &Atom) -> (res: Result<
        RegexId,
        CompileError,
    >)
        requires
            old(self).token_inv(tables),
        ensures
            final(self).lexed(
                old(self),
                tables,
                res,
                run_token_atom(tables@.tokens, atom@, old(self).machine()),
                token_atom(tables@.tokens, atom@, final(self).pending_tokens()),
            ),
            atom matches Atom::Value(value) ==> (!(value is Name) && res is Err ==> *final(self)
                == *old(self)),
            atom matches Atom::Value(Value::Name(name)) ==> (res matches Ok(id) ==> final(
                self
            ).regex_ids@.contains_key(name@) && final(self).regex_ids@[name@] == id),
        decreases old(self).token_fuel(tables), 2nat, atom,
    {
        match atom {
            Atom::Group(inner) => self.do_token_expansions(tables, inner),
            Atom::Maybe(inner) => {
                let id = match self.do_token_expansions(tables, inner) {
                    Ok(id) => id,
                    Err(e) => {
                        return Err(e);
                    },
                };
                let ghost mid = *self;
                let res = self.builder.regex.optional(id);
                proof {
                    self.lemma_regex_growth(&mid, tables);
                    assert(self.pending_tokens() =~= mid.pending_tokens());
                }
                Ok(res)
            },
            Atom::Value(value) => match value {
                Value::LiteralRange(start, end) => {
                    if start.as_str().unicode_len() != 1 {
                        return Err(CompileError::new(ErrorKind::RangeStartNotSingleChar));
                    }
                    if end.as_str().unicode_len() != 1 {
                        return Err(CompileError::new(ErrorKind::RangeEndNotSingleChar));
                    }
                    let a = start.as_str().get_char(0);
                    let b = end.as_str().get_char(0);
                    if a <= b {
                        let rx = range_pattern_text(start.as_str(), end.as_str());
                        self.mk_regex(tables, PatternOrigin::Range, rx)
                    } else {
                        Err(CompileError::new(ErrorKind::InvalidRangeOrder(a, b)))
                    }
                },
                Value::Name(name) => self.do_token(tables, name.as_str()),
                Value::LiteralString(text, flags) => {
                    if contains_char(flags.as_str(), 'i') {
                        let rx = insensitive_pattern_text(text.as_str());
                        self.mk_regex(tables, PatternOrigin::StringWithIFlag, rx)
                    } else {
                        let ghost mid = *self;
                        let id = self.builder.regex.literal(text.clone());
                        proof {
                            self.lemma_regex_growth(&mid, tables);
                        }
                        Ok(id)
                    }
                },
                Value::LiteralRegex(pattern, flags) => {
                    if contains_char(flags.as_str(), 'l') {
                        return Err(CompileError::new(ErrorKind::LiteralFlagNotSupported));
                    }
                    let rx = flagged_pattern_text(pattern.as_str(), flags.as_str());
                    self.mk_regex(tables, PatternOrigin::Regex, rx)
                },
                Value::TemplateUsage { .. } => Err(
                    CompileError::new(ErrorKind::TemplateNotSupported),
                ),
            },
        }
    }

    /// Compiles an atom with its quantifier or repeat range. Where the
    /// quantifier or the range is refused, the state is as the atom left it.
    pub fn do_token_expr(&mut self, tables: &Tables, expr: &Expr) -> (res: Result<
        RegexId,
        CompileError,
    >)
        requires
            old(self).token_inv(tables),
        ensures
            final(self).lexed(
                old(self),
                tables,
                res,
                run_token_expr(tables@.tokens, expr@, old(self).machine()),
                token_expr(tables@.tokens, expr@, final(self).pending_tokens()),
            ),
        decreases old(self).token_fuel(tables), 2nat, expr,
    {
        let atom = match self.do_token_atom(tables, &expr.atom) {
            Ok(id) => id,
            Err(e) => {
                return Err(e);
            },
        };
        let ghost mid = *self;
        match &expr.range {
            Some(range) => {
                if expr.op.is_some() {
                    return Err(CompileError::new(ErrorKind::RangeWithOperator));
                }
                if range.0 < 0 {
                    return Err(CompileError::new(ErrorKind::RangeStartNegative));
                }
                if range.1 < range.0 {
                    return Err(CompileError::new(ErrorKind::RangeEndBeforeStart));
                }
                let id = self.builder.regex.repeat(atom, range.0 as u32, Some(range.1 as u32));
                proof {
                    self.lemma_regex_growth(&mid, tables);
                    assert(self.pending_tokens() =~= mid.pending_tokens());
                }
                Ok(id)
            },
            None => match &expr.op {
                Some(op) => {
                    let id = match parse_quantifier(op.0.as_str()) {
                        Some(Quantifier::ZeroOrMore) => self.builder.regex.zero_or_more(atom),
                        Some(Quantifier::OneOrMore) => self.builder.regex.one_or_more(atom),
                        Some(Quantifier::Optional) => self.builder.regex.optional(atom),
                        None => {
                            return Err(
                                CompileError::new(ErrorKind::UnsupportedOperator(op.0.clone())),
                            );
                        },
                    };
                    proof {
                        self.lemma_regex_growth(&mid, tables);
                        assert(self.pending_tokens() =~= mid.pending_tokens());
                    }
                    Ok(id)
                },
                None => Ok(atom),
            },
        }
    }

    /// Compiles one alternative of a token definition: its parts one after
    /// the other.
    pub fn do_token_alias(&mut self, tables: &Tables, alias: &Alias) -> (res: Result<
        RegexId,
        CompileError,
    >)
        requires
            old(self).token_inv(tables),
        ensures
            final(self).lexed(
                old(self),
                tables,
                res,
                run_token_alias(tables@.tokens, alias@, old(self).machine()),
                token_alias(tables@.tokens, alias@, final(self).pending_tokens()),
            ),
        decreases old(self).token_fuel(tables), 2nat, alias,
    {
        let exprs = &alias.expansion.0;
        let mut args: Vec<RegexId> = Vec::new();
        let mut i: usize = 0;
        proof {
            assert(alias@.take(0) =~= Seq::<ExprView>::empty());
            assert(args@ =~= Seq::<RegexId>::empty());
            assert(self.builder.regex.terms(args@) =~= Seq::<Rx>::empty());
        }
        while i < exprs.len()
            invariant
                i <= exprs.len(),
                exprs@ == alias.expansion.0@,
                alias@.len() == exprs@.len(),
                forall|k: int| 0 <= k < exprs@.len() ==> alias@[k] == (#[trigger] exprs@[k])@,
                self.token_inv(tables),
                self.lexer_grows(old(self)),
                self.graph_untouched(old(self)),
                self.token_fuel(tables) <= old(self).token_fuel(tables),
                self.builder.regex.has_all(args@),
                run_token_exprs(tables@.tokens, alias@.take(i as int), old(self).machine())
                    == self.machine().done(args@),
                token_exprs(tables@.tokens, alias@.take(i as int), self.pending_tokens()) == Ok::<
                    Seq<Rx>,
                    ErrorView,
                >(self.builder.regex.terms(args@)),
            decreases exprs.len() - i,
        {
            let ghost mid = *self;
            let ghost toks = tables@.tokens;
            proof {
                assert(alias@.take(i + 1).drop_last() =~= alias@.take(i as int));
                assert(alias@.take(i + 1).last() == exprs@[i as int]@);
            }
            match self.do_token_expr(tables, &exprs[i]) {
                Ok(id) => {
                    proof {
                        lemma_token_exprs_shrink(
                            toks,
                            alias@.take(i as int),
                            mid.pending_tokens(),
                            self.pending_tokens(),
                        );
                        lemma_terms_stable(mid.builder.regex@, self.builder.regex@, args@);
                        assert(self.builder.regex.terms(args@.push(id))
                            =~= self.builder.regex.terms(args@).push(self.builder.regex.term(id)));
                    }
                    args.push(id);
                },
                Err(e) => {
                    proof {
                        lemma_run_token_exprs_error(toks, alias@, i + 1, old(self).machine());
                    }
                    return Err(e);
                },
            }
            i += 1;
        }
        let ghost mid = *self;
        let id = self.builder.regex.concat(args);
        proof {
            assert(alias@.take(i as int) =~= alias@);
            self.lemma_regex_growth(&mid, tables);
            assert(self.pending_tokens() =~= mid.pending_tokens());
        }
        Ok(id)
    }

    /// Compiles a body of a token definition: the choice among its
    /// alternatives. An error from inside is noted at the place of the body.
    pub fn do_token_expansions(&mut self, tables: &Tables, body: &Expansions) -> (res: Result<
        RegexId,
        CompileError,
    >)
        requires
            old(self).token_inv(tables),
        ensures
            final(self).lexed(
                old(self),
                tables,
                res,
                run_token_body(tables@.tokens, body@, old(self).machine()),
                token_expansions(tables@.tokens, body@, final(self).pending_tokens()),
            ),
        decreases old(self).token_fuel(tables), 2nat, body,
    {
        let aliases = &body.1;
        let mut options: Vec<RegexId> = Vec::new();
        let mut i: usize = 0;
        proof {
            assert(body@.alts.take(0) =~= Seq::<Seq<ExprView>>::empty());
            assert(options@ =~= Seq::<RegexId>::empty());
            assert(self.builder.regex.terms(options@) =~= Seq::<Rx>::empty());
        }
        while i < aliases.len()
            invariant
                i <= aliases.len(),
                aliases@ == body.1@,
                body@.alts.len() == aliases@.len(),
                forall|k: int|
                    0 <= k < aliases@.len() ==> body@.alts[k] == (#[trigger] aliases@[k])@,
                self.token_inv(tables),
                self.lexer_grows(old(self)),
                self.graph_untouched(old(self)),
                self.token_fuel(tables) <= old(self).token_fuel(tables),
                self.builder.regex.has_all(options@),
                run_token_aliases(tables@.tokens, body@.alts.take(i as int), old(self).machine())
                    == self.machine().done(options@),
                token_aliases(tables@.tokens, body@.alts.take(i as int), self.pending_tokens())
                    == Ok::<Seq<Rx>, ErrorView>(self.builder.regex.terms(options@)),
            decreases aliases.len() - i,
        {
            let ghost mid = *self;
            let ghost toks = tables@.tokens;
            proof {
                assert(body@.alts.take(i + 1).drop_last() =~= body@.alts.take(i as int));
                assert(body@.alts.take(i + 1).last() == aliases@[i as int]@);
            }
            match self.do_token_alias(tables, &aliases[i]) {
                Ok(id) => {
                    proof {
                        lemma_token_aliases_shrink(
                            toks,
                            body@.alts.take(i as int),
                            mid.pending_tokens(),
                            self.pending_tokens(),
                        );
                        lemma_terms_stable(mid.builder.regex@, self.builder.regex@, options@);
                        assert(self.builder.regex.terms(options@.push(id))
                            =~= self.builder.regex.terms(options@).push(
                            self.builder.regex.term(id),
                        ));
                    }
                    options.push(id);
                },
                Err(e) => {
                    proof {
                        lemma_run_token_aliases_error(
                            toks,
                            body@.alts,
                            i + 1,
                            old(self).machine(),
                        );
                    }
                    return Err(e.augment(body.0));
                },
            }
            i += 1;
        }
        let ghost mid = *self;
        let id = self.builder.regex.select(options);
        proof {
            assert(body@.alts.take(i as int) =~= body@.alts);
            self.lemma_regex_growth(&mid, tables);
            assert(self.pending_tokens() =~= mid.pending_tokens());
        }
        Ok(id)
    }

    /// The node graph as it stands, with the node recorded for each rule.
    pub open spec fn graph(&self) -> Graph {
        Graph {
            nodes: self.builder.graph(),
            fragments: self.builder.regex@,
            names: self.node_ids@,
        }
    }

    /// The names of the rules that were entered: in progress, or with a node
    /// recorded.
    pub open spec fn seen_rules(&self) -> Set<Seq<char>> {
        self.in_progress@.union(self.node_ids@.dom())
    }

    /// The number of rules that were never entered. It bounds how deep the
    /// compilation of rules can still nest.
    pub open spec fn rule_fuel(&self, tables: &Tables) -> nat {
        self.machine().rule_fuel(tables@)
    }

    /// What holds of the node recorded for the rule `r`: while the rule is in
    /// progress it is a placeholder; afterwards it is a sequence or a choice
    /// that stands for the body of the rule.
    pub open spec fn rule_recorded(&self, tables: &Tables, r: Seq<char>) -> bool {
        let node = self.node_ids@[r];
        &&& self.builder.has(node)
        &&& if self.in_progress@.contains(r) {
            self.builder.graph()[node.idx as int] == NodeView::Placeholder
        } else {
            &&& tables@.rules.contains_key(r)
            &&& self.graph().is_composite(NodeId(node.idx))
            &&& realizes_expansions(
                self.graph(),
                tables@,
                NodeId(node.idx),
                tables@.rules[r],
            )
        }
    }

    /// The node at `i` is the one recorded for a rule in progress.
    pub open spec fn owned(&self, i: int) -> bool {
        exists|r: Seq<char>|
            self.in_progress@.contains(r) && #[trigger] self.node_ids@.contains_key(r)
                && self.node_ids@[r].idx == i
    }

    /// What holds of the state wherever rules are compiled: every recorded
    /// node is as [`Self::rule_recorded`] says; every placeholder belongs to
    /// a rule in progress, and no two such rules share one; every alias
    /// stands for a sequence or a choice.
    pub open spec fn rule_inv(&self, tables: &Tables) -> bool {
        &&& self.token_inv(tables)
        &&& forall|r: Seq<char>| #[trigger]
            self.node_ids@.contains_key(r) ==> self.rule_recorded(tables, r)
        &&& forall|i: int|
            0 <= i < self.builder.graph().len() && #[trigger] self.builder.graph()[i]
                == NodeView::Placeholder ==> self.owned(i)
        &&& forall|i: int|
            0 <= i < self.builder.graph().len() ==> (
            #[trigger] self.builder.graph()[i] matches NodeView::Alias(t)
                ==> self.graph().is_composite(t))
        &&& forall|r1: Seq<char>, r2: Seq<char>|
            #![trigger self.node_ids@[r1], self.node_ids@[r2]]
            self.node_ids@.contains_key(r1) && self.node_ids@.contains_key(r2)
                && self.in_progress@.contains(r1) && self.in_progress@.contains(r2)
                && r1 != r2 ==> self.node_ids@[r1].idx != self.node_ids@[r2].idx
    }

    /// The state has moved on from `before` by compiling rules: the graph is
    /// a later state of the graph of `before`, and the same rules are in
    /// progress.
    pub open spec fn parser_grows(&self, before: &Compiler) -> bool {
        &&& before.graph().keeps(self.graph())
        &&& self.in_progress@ == before.in_progress@
    }

    /// The outcome `res` of compiling a piece of a rule, from the state
    /// `before` to the state `self`. `step` is the step that compiling the
    /// piece makes from the state before: the state is the state it leaves,
    /// and the result is its result, on success and on failure. `realized`
    /// says that the node stands for the piece: it does on success.
    pub open spec fn parsed(
        &self,
        before: &Compiler,
        tables: &Tables,
        res: Result<NodeRef, CompileError>,
        step: Step<NodeRef>,
        realized: bool,
    ) -> bool {
        &&& self.machine() == step.state
        &&& outcome(res) == step.res
        &&& self.untouched(before)
        &&& res matches Ok(node) ==> {
            &&& self.rule_inv(tables)
            &&& self.parser_grows(before)
            &&& self.rule_fuel(tables) <= before.rule_fuel(tables)
            &&& self.builder.has(node)
            &&& realized
        }
    }

    /// Compiling tokens keeps what holds wherever rules are compiled.
    pub proof fn lemma_lexer_step(&self, before: &Compiler, tables: &Tables)
        requires
            before.rule_inv(tables),
            self.token_inv(tables),
            self.lexer_grows(before),
            self.graph_untouched(before),
        ensures
            self.rule_inv(tables),
            self.parser_grows(before),
            self.seen_rules() == before.seen_rules(),
            self.rule_fuel(tables) == before.rule_fuel(tables),
    {
        let g = before.graph();
        let h = self.graph();
        assert forall|r: Seq<char>| #[trigger]
            self.node_ids@.contains_key(r) implies self.rule_recorded(tables, r) by {
            if !self.in_progress@.contains(r) {
                lemma_keeps_expansions(
                    g,
                    h,
                    tables@,
                    NodeId(self.node_ids@[r].idx),
                    tables@.rules[r],
                );
            }
        }
    }

    /// Adding a node that is neither a placeholder nor an alias keeps what
    /// holds wherever rules are compiled.
    pub proof fn lemma_node_step(&self, before: &Compiler, tables: &Tables, node: NodeView)
        requires
            before.rule_inv(tables),
            self.builder.wf(),
            self.builder.same_but_graph(&before.builder),
            self.builder.graph() == before.builder.graph().push(node),
            node != NodeView::Placeholder,
            !(node is Alias),
            self.node_ids == before.node_ids,
            self.regex_ids == before.regex_ids,
            self.in_progress == before.in_progress,
        ensures
            self.rule_inv(tables),
            self.parser_grows(before),
            self.seen_rules() == before.seen_rules(),
            self.rule_fuel(tables) == before.rule_fuel(tables),
    {
        let g = before.graph();
        let h = self.graph();
        assert forall|r: Seq<char>| #[trigger]
            self.node_ids@.contains_key(r) implies self.rule_recorded(tables, r) by {
            if !self.in_progress@.contains(r) {
                lemma_keeps_expansions(
                    g,
                    h,
                    tables@,
                    NodeId(self.node_ids@[r].idx),
                    tables@.rules[r],
                );
            }
        }
        assert forall|i: int|
            0 <= i < self.builder.graph().len() && #[trigger] self.builder.graph()[i]
                == NodeView::Placeholder implies self.owned(i) by {}
    }

    /// Entering a rule that was never entered keeps what holds wherever
    /// rules are compiled, and leaves fewer rules to enter.
    pub proof fn lemma_rule_entered(&self, before: &Compiler, tables: &Tables, name: Seq<char>)
        requires
            before.rule_inv(tables),
            !before.seen_rules().contains(name),
            tables@.rules.contains_key(name),
            self.builder == before.builder,
            self.node_ids == before.node_ids,
            self.regex_ids == before.regex_ids,
            self.in_progress@ == before.in_progress@.insert(name),
        ensures
            self.rule_inv(tables),
            self.seen_rules() == before.seen_rules().insert(name),
            self.rule_fuel(tables) < before.rule_fuel(tables),
            before.graph().keeps(self.graph()),
    {
        tables@.rules.dom().lemma_set_insert_diff_decreases(before.seen_rules(), name);
    }

    /// Recording a fresh placeholder for a rule in progress keeps what holds
    /// wherever rules are compiled.
    pub proof fn lemma_placeholder_made(
        &self,
        before: &Compiler,
        tables: &Tables,
        name: Seq<char>,
        node: NodeRef,
    )
        requires
            before.rule_inv(tables),
            before.in_progress@.contains(name),
            !before.node_ids@.contains_key(name),
            self.builder.wf(),
            self.builder.same_but_graph(&before.builder),
            self.builder.graph() == before.builder.graph().push(NodeView::Placeholder),
            self.builder.has(node),
            node.idx == before.builder.graph().len(),
            self.node_ids@ == before.node_ids@.insert(name, node),
            self.regex_ids == before.regex_ids,
            self.in_progress == before.in_progress,
        ensures
            self.rule_inv(tables),
            self.parser_grows(before),
            self.seen_rules() == before.seen_rules(),
    {
        let g = before.graph();
        let h = self.graph();
        assert forall|r: Seq<char>| #[trigger]
            self.node_ids@.contains_key(r) implies self.rule_recorded(tables, r) by {
            if r != name {
                if !self.in_progress@.contains(r) {
                    lemma_keeps_expansions(
                        g,
                        h,
                        tables@,
                        NodeId(self.node_ids@[r].idx),
                        tables@.rules[r],
                    );
                }
            }
        }
        assert forall|i: int|
            0 <= i < self.builder.graph().len() && #[trigger] self.builder.graph()[i]
                == NodeView::Placeholder implies self.owned(i) by {
            if i == node.idx {
                assert(self.in_progress@.contains(name) && self.node_ids@.contains_key(name)
                    && self.node_ids@[name].idx == i);
            } else {
                let r = choose|r: Seq<char>|
                    before.in_progress@.contains(r)
                        && #[trigger] before.node_ids@.contains_key(r)
                        && before.node_ids@[r].idx == i;
                assert(self.in_progress@.contains(r) && self.node_ids@.contains_key(r)
                    && self.node_ids@[r].idx == i);
            }
        }
    }

    /// Recording the node of a rule whose body has been compiled, and
    /// resolving the placeholder that the rule had, keeps what holds wherever
    /// rules are compiled.
    pub proof fn lemma_rule_done(
        &self,
        before: &Compiler,
        tables: &Tables,
        name: Seq<char>,
        node: NodeRef,
    )
        requires
            before.rule_inv(tables),
            before.in_progress@.contains(name),
            tables@.rules.contains_key(name),
            before.builder.has(node),
            before.graph().is_composite(NodeId(node.idx)),
            realizes_expansions(
                before.graph(),
                tables@,
                NodeId(node.idx),
                tables@.rules[name],
            ),
            self.builder.wf(),
            self.builder.same_but_graph(&before.builder),
            self.builder.graph() == if before.node_ids@.contains_key(name) {
                before.builder.graph().update(
                    before.node_ids@[name].idx as int,
                    NodeView::Alias(NodeId(node.idx)),
                )
            } else {
                before.builder.graph()
            },
            self.node_ids@ == before.node_ids@.insert(name, node),
            self.regex_ids == before.regex_ids,
            self.in_progress@ == before.in_progress@.remove(name),
        ensures
            self.rule_inv(tables),
            before.graph().keeps(self.graph()),
            self.seen_rules() == before.seen_rules(),
    {
        let g = before.graph();
        let h = self.graph();
        let had = before.node_ids@.contains_key(name);
        let p = before.node_ids@[name].idx as int;
        if had {
            assert(before.rule_recorded(tables, name));
            assert(g.nodes[p] == NodeView::Placeholder);
        }
        assert(self.seen_rules() =~= before.seen_rules());
        assert(self.pending_tokens() =~= before.pending_tokens());
        assert forall|n: Seq<char>| #[trigger]
            self.regex_ids@.contains_key(n) implies self.token_done(tables, n) by {
            assert(before.token_done(tables, n));
        }
        assert forall|n: NodeId, nm: Seq<char>| #[trigger] g.refers_to(n, nm) implies h.refers_to(
            n,
            nm,
        ) by {
            if g.nodes[n.0 as int] is Alias {
                let t = g.nodes[n.0 as int]->Alias_0;
                assert(g.is_composite(t));
            }
        }
        assert(g.keeps(h));
        assert forall|r: Seq<char>| #[trigger]
            self.node_ids@.contains_key(r) implies self.rule_recorded(tables, r) by {
            if r != name {
                assert(before.node_ids@.contains_key(r));
                assert(before.rule_recorded(tables, r));
                if before.in_progress@.contains(r) {
                    if had {
                        assert(before.node_ids@[r].idx != before.node_ids@[name].idx);
                    }
                } else {
                    lemma_keeps_expansions(
                        g,
                        h,
                        tables@,
                        NodeId(self.node_ids@[r].idx),
                        tables@.rules[r],
                    );
                }
            } else {
                lemma_keeps_expansions(
                    g,
                    h,
                    tables@,
                    NodeId(node.idx),
                    tables@.rules[name],
                );
            }
        }
        assert forall|i: int|
            0 <= i < self.builder.graph().len() && #[trigger] self.builder.graph()[i]
                == NodeView::Placeholder implies self.owned(i) by {
            assert(before.builder.graph()[i] == NodeView::Placeholder);
            assert(before.owned(i));
            let r = choose|r: Seq<char>|
                before.in_progress@.contains(r) && #[trigger] before.node_ids@.contains_key(r)
                    && before.node_ids@[r].idx == i;
            assert(r != name);
            assert(self.in_progress@.contains(r) && self.node_ids@.contains_key(r)
                && self.node_ids@[r].idx == i);
        }
        assert forall|i: int| 0 <= i < self.builder.graph().len() implies (
        #[trigger] self.builder.graph()[i] matches NodeView::Alias(t) ==> self.graph().is_composite(
            t,
        )) by {
            if self.builder.graph()[i] is Alias && !(had && i == p) {
                assert(before.builder.graph()[i] is Alias);
                let t = before.builder.graph()[i]->Alias_0;
                assert(before.graph().is_composite(t));
            }
        }
        assert forall|r1: Seq<char>, r2: Seq<char>|
            #![trigger self.node_ids@[r1], self.node_ids@[r2]]
            self.node_ids@.contains_key(r1) && self.node_ids@.contains_key(r2)
                && self.in_progress@.contains(r1) && self.in_progress@.contains(r2)
                && r1 != r2 implies self.node_ids@[r1].idx != self.node_ids@[r2].idx by {
            assert(before.node_ids@[r1].idx != before.node_ids@[r2].idx);
        }
    }

    /// Compiles the rule `name`: returns the node recorded for it when there
    /// is one, a fresh placeholder when the name is in progress, and
    /// otherwise puts the name in progress, looks up the rule and compiles
    /// its body, resolving the placeholder that was handed out meanwhile.
    pub fn do_rule(&mut self, tables: &Tables, name: &str) -> (res: Result<NodeRef, CompileError>)
        requires
            old(self).rule_inv(tables),
        ensures
            final(self).parsed(
                old(self),
                tables,
                res,
                run_rule(tables@, name@, old(self).machine()),
                res matches Ok(node) && final(self).node_ids@.contains_key(name@) && final(
                    self
                ).node_ids@[name@] == node,
            ),
            old(self).node_ids@.contains_key(name@) ==> *final(self) == *old(self),
            !old(self).node_ids@.contains_key(name@) && old(self).in_progress@.contains(name@) ==> {
                &&& final(self).builder.regex == old(self).builder.regex
                &&& final(self).regex_ids == old(self).regex_ids
                &&& final(self).in_progress == old(self).in_progress
            },
        decreases old(self).rule_fuel(tables), 0nat, name@,
    {
        match self.node_ids.get(name) {
            Some(node) => {
                let node = *node;
                proof {
                    assert(self.rule_recorded(tables, name@));
                }
                return Ok(node);
            },
            None => {},
        }
        if self.in_progress.contains(name) {
            let node = self.builder.placeholder();
            self.node_ids.insert(name.to_owned(), node);
            proof {
                self.lemma_placeholder_made(old(self), tables, name@, node);
            }
            return Ok(node);
        }
        self.in_progress.insert(name.to_owned());
        let rule = match tables.rules.get(name) {
            Some(rule) => rule,
            None => {
                return Err(CompileError::new(ErrorKind::RuleNotFound(name.to_owned())));
            },
        };
        let ghost entered = *self;
        proof {
            entered.lemma_rule_entered(old(self), tables, name@);
        }
        let node = match self.do_expansions(tables, &rule.expansions) {
            Ok(node) => node,
            Err(e) => {
                return Err(e);
            },
        };
        let ghost compiled = *self;
        match self.node_ids.get(name) {
            Some(placeholder) => {
                let placeholder = *placeholder;
                proof {
                    assert(compiled.rule_recorded(tables, name@));
                }
                self.builder.set_placeholder(placeholder, node);
            },
            None => {},
        }
        self.node_ids.insert(name.to_owned(), node);
        self.in_progress.remove(name);
        proof {
            self.lemma_rule_done(&compiled, tables, name@, node);
            assert(self.in_progress@ =~= old(self).in_progress@);
        }
        Ok(node)
    }

    /// Lifts a regex fragment into the node graph: a lexeme that is not
    /// contextual.
    pub fn lift_regex(&mut self, tables: &Tables, rx_id: RegexId) -> (res: Result<
        NodeRef,
        CompileError,
    >)
        requires
            old(self).rule_inv(tables),
            old(self).builder.regex.has(rx_id),
        ensures
            res matches Ok(node) && {
                &&& final(self).rule_inv(tables)
                &&& final(self).parser_grows(old(self))
                &&& final(self).rule_fuel(tables) == old(self).rule_fuel(tables)
                &&& final(self).builder.has(node)
                &&& final(self).builder.same_but_graph(&old(self).builder)
                &&& final(self).builder.graph() == old(self).builder.graph().push(
                    NodeView::Lexeme { rx: rx_id, contextual: false },
                )
                &&& node == old(self).machine().next_node()
                &&& node.idx == old(self).builder.graph().len()
                &&& final(self).node_ids == old(self).node_ids
                &&& final(self).regex_ids == old(self).regex_ids
                &&& final(self).in_progress == old(self).in_progress
                &&& final(self).ignore == old(self).ignore
            },
    {
        let node = self.builder.lexeme(rx_id, false);
        proof {
            self.lemma_node_step(
                old(self),
                tables,
                NodeView::Lexeme { rx: rx_id, contextual: false },
            );
        }
        Ok(node)
    }

    /// The atom is a leaf of the graph: a name of a token that is no name
    /// of a rule, or a literal.
    pub open spec fn is_leaf(tables: &Tables, atom: &Atom) -> bool {
        atom matches Atom::Value(value) && match value {
            Value::Name(name) => !tables@.rules.contains_key(name@) && tables@.tokens.contains_key(
                name@,
            ),
            Value::TemplateUsage { .. } => false,
            _ => true,
        }
    }

    /// Compiles a leaf of the graph: the atom as a token, and the fragment
    /// lifted into the graph as a lexeme.
    pub fn do_leaf(&mut self, tables: &Tables, atom: &Atom) -> (res: Result<NodeRef, CompileError>)
        requires
            old(self).rule_inv(tables),
            Compiler::is_leaf(tables, atom),
        ensures
            final(self).parsed(
                old(self),
                tables,
                res,
                run_atom(tables@, atom@, old(self).machine()),
                res matches Ok(node) && realizes_atom(
                    final(self).graph(),
                    tables@,
                    NodeId(node.idx),
                    atom@,
                ),
            ),
            final(self).node_ids == old(self).node_ids,
            atom matches Atom::Value(Value::Name(name)) ==> (res is Ok ==> final(
                self
            ).regex_ids@.contains_key(name@)),
            atom matches Atom::Value(value) ==> (!(value is Name) && res is Err ==> *final(self)
                == *old(self)),
    {
        let rx = match self.do_token_atom(tables, atom) {
            Ok(rx) => rx,
            Err(e) => {
                return Err(e);
            },
        };
        let ghost mid = *self;
        proof {
            mid.lemma_lexer_step(old(self), tables);
            lemma_token_atom_shrink(tables@.tokens, atom@, mid.pending_tokens(), Set::empty());
        }
        let res = self.lift_regex(tables, rx);
        proof {
            lemma_term_stable(mid.builder.regex@, self.builder.regex@, rx.0 as int);
        }
        res
    }

    /// Compiles an atom of a rule. A name of a rule becomes a reference to
    /// the rule; a name of a token and every literal is compiled as a token
    /// and lifted into the graph as a lexeme. A name of neither and a
    /// template are refused, and nothing changes.
    pub fn do_atom(&mut self, tables: &Tables, atom: &Atom) -> (res: Result<NodeRef, CompileError>)
        requires
            old(self).rule_inv(tables),
        ensures
            final(self).parsed(
                old(self),
                tables,
                res,
                run_atom(tables@, atom@, old(self).machine()),
                res matches Ok(node) && realizes_atom(
                    final(self).graph(),
                    tables@,
                    NodeId(node.idx),
                    atom@,
                ),
            ),
            atom matches Atom::Value(Value::Name(name)) ==> {
                &&& tables@.rules.contains_key(name@) ==> (res matches Ok(node) ==> final(
                    self
                ).node_ids@.contains_key(name@) && final(self).node_ids@[name@] == node)
                &&& !tables@.rules.contains_key(name@) && tables@.tokens.contains_key(name@) ==> (
                res is Ok ==> final(self).regex_ids@.contains_key(name@))
                &&& !tables@.rules.contains_key(name@) && !tables@.tokens.contains_key(name@)
                    ==> *final(self) == *old(self)
            },
            atom matches Atom::Value(Value::TemplateUsage { .. }) ==> *final(self) == *old(self),
            atom matches Atom::Value(value) ==> (!(value matches Value::Name(name)
                && tables@.rules.contains_key(name@)) ==> final(self).node_ids == old(
                self
            ).node_ids),
        decreases old(self).rule_fuel(tables), 2nat, atom,
    {
        match atom {
            Atom::Group(inner) => self.do_expansions(tables, inner),
            Atom::Maybe(inner) => {
                let sub = match self.do_expansions(tables, inner) {
                    Ok(node) => node,
                    Err(e) => {
                        return Err(e);
                    },
                };
                let ghost mid = *self;
                let node = self.builder.optional(sub);
                proof {
                    self.lemma_node_step(&mid, tables, NodeView::Optional(NodeId(sub.idx)));
                    lemma_keeps_expansions(
                        mid.graph(),
                        self.graph(),
                        tables@,
                        NodeId(sub.idx),
                        inner@,
                    );
                }
                Ok(node)
            },
            Atom::Value(value) => {
                match value {
                    Value::Name(name) => {
                        if tables.rules.contains_key(name.as_str()) {
                            return self.do_rule(tables, name.as_str());
                        }
                        if !tables.tokens.contains_key(name.as_str()) {
                            return Err(
                                CompileError::new(ErrorKind::UnknownName(name.clone())),
                            );
                        }
                    },
                    Value::LiteralRange(_, _) => {},
                    Value::LiteralString(_, _) => {},
                    Value::LiteralRegex(_, _) => {},
                    Value::TemplateUsage { .. } => {
                        return Err(CompileError::new(ErrorKind::TemplateNotSupported));
                    },
                }
                self.do_leaf(tables, atom)
            },
        }
    }

    /// Compiles an atom of a rule with its quantifier. A repeat range is
    /// refused before anything is done.
    pub fn do_expr(&mut self, tables: &Tables, expr: &Expr) -> (res: Result<NodeRef, CompileError>)
        requires
            old(self).rule_inv(tables),
        ensures
            final(self).parsed(
                old(self),
                tables,
                res,
                run_expr(tables@, expr@, old(self).machine()),
                res matches Ok(node) && realizes_expr(
                    final(self).graph(),
                    tables@,
                    NodeId(node.idx),
                    expr@,
                ),
            ),
            expr.range is Some ==> *final(self) == *old(self),
        decreases old(self).rule_fuel(tables), 2nat, expr,
    {
        if expr.range.is_some() {
            return Err(CompileError::new(ErrorKind::RuleRangeNotSupported));
        }
        let atom = match self.do_atom(tables, &expr.atom) {
            Ok(node) => node,
            Err(e) => {
                return Err(e);
            },
        };
        let ghost mid = *self;
        match &expr.op {
            Some(op) => {
                let node = match parse_quantifier(op.0.as_str()) {
                    Some(Quantifier::ZeroOrMore) => {
                        let node = self.builder.zero_or_more(atom);
                        proof {
                            self.lemma_node_step(
                                &mid,
                                tables,
                                NodeView::ZeroOrMore(NodeId(atom.idx)),
                            );
                        }
                        node
                    },
                    Some(Quantifier::OneOrMore) => {
                        let node = self.builder.one_or_more(atom);
                        proof {
                            self.lemma_node_step(
                                &mid,
                                tables,
                                NodeView::OneOrMore(NodeId(atom.idx)),
                            );
                        }
                        node
                    },
                    Some(Quantifier::Optional) => {
                        let node = self.builder.optional(atom);
                        proof {
                            self.lemma_node_step(
                                &mid,
                                tables,
                                NodeView::Optional(NodeId(atom.idx)),
                            );
                        }
                        node
                    },
                    None => {
                        return Err(
                            CompileError::new(ErrorKind::UnsupportedRuleOperator(op.0.clone())),
                        );
                    },
                };
                proof {
                    lemma_keeps_atom(
                        mid.graph(),
                        self.graph(),
                        tables@,
                        NodeId(atom.idx),
                        expr.atom@,
                    );
                }
                Ok(node)
            },
            None => Ok(atom),
        }
    }

    /// Compiles one alternative of a rule: the sequence of its parts.
    pub fn do_alias(&mut self, tables: &Tables, alias: &Alias) -> (res: Result<
        NodeRef,
        CompileError,
    >)
        requires
            old(self).rule_inv(tables),
        ensures
            final(self).parsed(
                old(self),
                tables,
                res,
                run_alias(tables@, alias@, old(self).machine()),
                res matches Ok(node) && realizes_alias(
                    final(self).graph(),
                    tables@,
                    NodeId(node.idx),
                    alias@,
                ) && final(self).graph().is_composite(NodeId(node.idx)),
            ),
        decreases old(self).rule_fuel(tables), 2nat, alias,
    {
        let exprs = &alias.expansion.0;
        let mut args: Vec<NodeRef> = Vec::new();
        let mut i: usize = 0;
        proof {
            assert(alias@.take(0) =~= Seq::<ExprView>::empty());
            assert(args@ =~= Seq::<NodeRef>::empty());
            assert(ids_of(args@) =~= Seq::<NodeId>::empty());
        }
        while i < exprs.len()
            invariant
                i <= exprs.len(),
                exprs@ == alias.expansion.0@,
                alias@.len() == exprs@.len(),
                forall|k: int| 0 <= k < exprs@.len() ==> alias@[k] == (#[trigger] exprs@[k])@,
                self.rule_inv(tables),
                self.parser_grows(old(self)),
                self.untouched(old(self)),
                self.rule_fuel(tables) <= old(self).rule_fuel(tables),
                self.builder.has_all(args@),
                run_exprs(tables@, alias@.take(i as int), old(self).machine())
                    == self.machine().done(args@),
                realizes_exprs(self.graph(), tables@, ids_of(args@), alias@.take(i as int)),
            decreases exprs.len() - i,
        {
            let ghost mid = *self;
            proof {
                assert(alias@.take(i + 1).drop_last() =~= alias@.take(i as int));
                assert(alias@.take(i + 1).last() == exprs@[i as int]@);
            }
            match self.do_expr(tables, &exprs[i]) {
                Ok(node) => {
                    proof {
                        lemma_keeps_exprs(
                            mid.graph(),
                            self.graph(),
                            tables@,
                            ids_of(args@),
                            alias@.take(i as int),
                        );
                        assert(ids_of(args@.push(node)) =~= ids_of(args@).push(NodeId(node.idx)));
                        assert(ids_of(args@.push(node)).drop_last() =~= ids_of(args@));
                    }
                    args.push(node);
                },
                Err(e) => {
                    proof {
                        lemma_run_exprs_error(tables@, alias@, i + 1, old(self).machine());
                    }
                    return Err(e);
                },
            }
            i += 1;
        }
        let ghost mid = *self;
        let node = self.builder.join(&args);
        proof {
            assert(alias@.take(i as int) =~= alias@);
            self.lemma_node_step(&mid, tables, NodeView::Join(ids_of(args@)));
            lemma_keeps_exprs(mid.graph(), self.graph(), tables@, ids_of(args@), alias@);
        }
        Ok(node)
    }

    /// Compiles a body of a rule: the choice among its alternatives. An
    /// error from inside is noted at the place of the body.
    pub fn do_expansions(&mut self, tables: &Tables, body: &Expansions) -> (res: Result<
        NodeRef,
        CompileError,
    >)
        requires
            old(self).rule_inv(tables),
        ensures
            final(self).parsed(
                old(self),
                tables,
                res,
                run_body(tables@, body@, old(self).machine()),
                res matches Ok(node) && realizes_expansions(
                    final(self).graph(),
                    tables@,
                    NodeId(node.idx),
                    body@,
                ) && final(self).graph().is_composite(NodeId(node.idx)),
            ),
        decreases old(self).rule_fuel(tables), 2nat, body,
    {
        let aliases = &body.1;
        let mut options: Vec<NodeRef> = Vec::new();
        let mut i: usize = 0;
        proof {
            assert(body@.alts.take(0) =~= Seq::<Seq<ExprView>>::empty());
            assert(options@ =~= Seq::<NodeRef>::empty());
            assert(ids_of(options@) =~= Seq::<NodeId>::empty());
        }
        while i < aliases.len()
            invariant
                i <= aliases.len(),
                aliases@ == body.1@,
                body@.alts.len() == aliases@.len(),
                forall|k: int|
                    0 <= k < aliases@.len() ==> body@.alts[k] == (#[trigger] aliases@[k])@,
                self.rule_inv(tables),
                self.parser_grows(old(self)),
                self.untouched(old(self)),
                self.rule_fuel(tables) <= old(self).rule_fuel(tables),
                self.builder.has_all(options@),
                run_aliases(tables@, body@.alts.take(i as int), old(self).machine())
                    == self.machine().done(options@),
                realizes_aliases(
                    self.graph(),
                    tables@,
                    ids_of(options@),
                    body@.alts.take(i as int),
                ),
                forall|k: int|
                    0 <= k < options@.len() ==> self.graph().is_composite(
                        NodeId((#[trigger] options@[k]).idx),
                    ),
            decreases aliases.len() - i,
        {
            let ghost mid = *self;
            proof {
                assert(body@.alts.take(i + 1).drop_last() =~= body@.alts.take(i as int));
                assert(body@.alts.take(i + 1).last() == aliases@[i as int]@);
            }
            match self.do_alias(tables, &aliases[i]) {
                Ok(node) => {
                    proof {
                        lemma_keeps_aliases(
                            mid.graph(),
                            self.graph(),
                            tables@,
                            ids_of(options@),
                            body@.alts.take(i as int),
                        );
                        assert(ids_of(options@.push(node)) =~= ids_of(options@).push(
                            NodeId(node.idx),
                        ));
                        assert(ids_of(options@.push(node)).drop_last() =~= ids_of(options@));
                    }
                    options.push(node);
                },
                Err(e) => {
                    proof {
                        lemma_run_aliases_error(tables@, body@.alts, i + 1, old(self).machine());
                    }
                    return Err(e.augment(body.0));
                },
            }
            i += 1;
        }
        let ghost mid = *self;
        let node = self.builder.select(&options);
        proof {
            assert(body@.alts.take(i as int) =~= body@.alts);
            if options@.len() != 1 {
                self.lemma_node_step(&mid, tables, NodeView::Select(ids_of(options@)));
                lemma_keeps_aliases(
                    mid.graph(),
                    self.graph(),
                    tables@,
                    ids_of(options@),
                    body@.alts,
                );
            } else {
                assert(body@.alts.drop_last() =~= Seq::<Seq<ExprView>>::empty());
            }
        }
        Ok(node)
    }
}

} // verus!
