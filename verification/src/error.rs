//! What can go wrong when a grammar is compiled.

use vstd::prelude::*;
use crate::ast::Location;

verus! {

/// The construct that a raw pattern was assembled for.
#[derive(Clone, Copy, Debug, PartialEq, Eq, Structural)]
pub enum PatternOrigin {
    /// A character range.
    Range,
    /// A string with the `i` flag.
    StringWithIFlag,
    /// A regular expression of the grammar.
    Regex,
}

/// The reason why a grammar is refused.
#[derive(Debug, PartialEq, Eq)]
pub enum ErrorKind {
    /// A rule or token has parameters.
    ParamsNotSupported,
    /// A rule or token has a priority.
    PriorityNotSupported,
    /// Two rules have this name.
    DuplicateRule(String),
    /// Two tokens have this name.
    DuplicateToken(String),
    /// An import brings a token under a name that a token already has.
    DuplicateImportedToken(String),
    /// No canonical pattern is known under this dotted path.
    UnknownCommonRegex(String),
    /// An override statement.
    OverrideNotSupported,
    /// A declare statement.
    DeclareNotSupported,
    /// The grammar has no rule named `start`.
    NoStartRule,
    /// The definition of this token refers to itself.
    CircularToken(String),
    /// No token has this name.
    TokenNotFound(String),
    /// No rule has this name.
    RuleNotFound(String),
    /// The start of a character range is not one character.
    RangeStartNotSingleChar,
    /// The end of a character range is not one character.
    RangeEndNotSingleChar,
    /// The start of a character range lies behind its end.
    InvalidRangeOrder(char, char),
    /// A pattern that the independent syntax check refuses, with the
    /// construct it was made for and the reason given.
    InvalidRegex { pattern: String, origin: PatternOrigin, reason: String },
    /// A regular expression with the `l` flag.
    LiteralFlagNotSupported,
    /// A use of a template.
    TemplateNotSupported,
    /// A repeat range together with a quantifier.
    RangeWithOperator,
    /// A repeat range that starts below zero.
    RangeStartNegative,
    /// A repeat range that ends below its start.
    RangeEndBeforeStart,
    /// A quantifier other than `*`, `+` and `?` in a token.
    UnsupportedOperator(String),
    /// A quantifier other than `*`, `+` and `?` in a rule.
    UnsupportedRuleOperator(String),
    /// A repeat range in a rule.
    RuleRangeNotSupported,
    /// A name that neither a rule nor a token has.
    UnknownName(String),
}

/// What an [`ErrorKind`] holds, with strings as sequences of characters.
pub ghost enum KindView {
    ParamsNotSupported,
    PriorityNotSupported,
    DuplicateRule(Seq<char>),
    DuplicateToken(Seq<char>),
    DuplicateImportedToken(Seq<char>),
    UnknownCommonRegex(Seq<char>),
    OverrideNotSupported,
    DeclareNotSupported,
    NoStartRule,
    CircularToken(Seq<char>),
    TokenNotFound(Seq<char>),
    RuleNotFound(Seq<char>),
    RangeStartNotSingleChar,
    RangeEndNotSingleChar,
    InvalidRangeOrder(char, char),
    InvalidRegex { pattern: Seq<char>, origin: PatternOrigin, reason: Seq<char> },
    LiteralFlagNotSupported,
    TemplateNotSupported,
    RangeWithOperator,
    RangeStartNegative,
    RangeEndBeforeStart,
    UnsupportedOperator(Seq<char>),
    UnsupportedRuleOperator(Seq<char>),
    RuleRangeNotSupported,
    UnknownName(Seq<char>),
}

impl View for ErrorKind {
    type V = KindView;

    open spec fn view(&self) -> KindView {
        match *self {
            ErrorKind::ParamsNotSupported => KindView::ParamsNotSupported,
            ErrorKind::PriorityNotSupported => KindView::PriorityNotSupported,
            ErrorKind::DuplicateRule(n) => KindView::DuplicateRule(n@),
            ErrorKind::DuplicateToken(n) => KindView::DuplicateToken(n@),
            ErrorKind::DuplicateImportedToken(n) => KindView::DuplicateImportedToken(n@),
            ErrorKind::UnknownCommonRegex(n) => KindView::UnknownCommonRegex(n@),
            ErrorKind::OverrideNotSupported => KindView::OverrideNotSupported,
            ErrorKind::DeclareNotSupported => KindView::DeclareNotSupported,
            ErrorKind::NoStartRule => KindView::NoStartRule,
            ErrorKind::CircularToken(n) => KindView::CircularToken(n@),
            ErrorKind::TokenNotFound(n) => KindView::TokenNotFound(n@),
            ErrorKind::RuleNotFound(n) => KindView::RuleNotFound(n@),
            ErrorKind::RangeStartNotSingleChar => KindView::RangeStartNotSingleChar,
            ErrorKind::RangeEndNotSingleChar => KindView::RangeEndNotSingleChar,
            ErrorKind::InvalidRangeOrder(a, b) => KindView::InvalidRangeOrder(a, b),
            ErrorKind::InvalidRegex { pattern, origin, reason } => KindView::InvalidRegex {
                pattern: pattern@,
                origin,
                reason: reason@,
            },
            ErrorKind::LiteralFlagNotSupported => KindView::LiteralFlagNotSupported,
            ErrorKind::TemplateNotSupported => KindView::TemplateNotSupported,
            ErrorKind::RangeWithOperator => KindView::RangeWithOperator,
            ErrorKind::RangeStartNegative => KindView::RangeStartNegative,
            ErrorKind::RangeEndBeforeStart => KindView::RangeEndBeforeStart,
            ErrorKind::UnsupportedOperator(n) => KindView::UnsupportedOperator(n@),
            ErrorKind::UnsupportedRuleOperator(n) => KindView::UnsupportedRuleOperator(n@),
            ErrorKind::RuleRangeNotSupported => KindView::RuleRangeNotSupported,
            ErrorKind::UnknownName(n) => KindView::UnknownName(n@),
        }
    }
}

/// An error, with the places in the grammar text that enclose its cause:
/// the innermost first.
#[derive(Debug, PartialEq, Eq)]
pub struct CompileError {
    pub kind: ErrorKind,
    pub trace: Vec<Location>,
}

/// What a [`CompileError`] holds.
pub ghost struct ErrorView {
    pub kind: KindView,
    pub trace: Seq<Location>,
}

impl ErrorView {
    /// An error of this kind at no place yet.
    pub open spec fn bare(kind: KindView) -> ErrorView {
        ErrorView { kind, trace: Seq::empty() }
    }

    /// The same error, seen from an enclosing place.
    pub open spec fn at(self, loc: Location) -> ErrorView {
        ErrorView { kind: self.kind, trace: self.trace.push(loc) }
    }
}

impl View for CompileError {
    type V = ErrorView;

    open spec fn view(&self) -> ErrorView {
        ErrorView { kind: self.kind@, trace: self.trace@ }
    }
}

impl CompileError {
    /// An error of this kind at no place yet.
    pub fn new(kind: ErrorKind) -> (res: CompileError)
        ensures
            res@ == ErrorView::bare(kind@),
    {
        CompileError { kind, trace: Vec::new() }
    }

    /// Notes an enclosing place on the error.
    pub fn augment(self, loc: Location) -> (res: CompileError)
        ensures
            res@ == self@.at(loc),
    {
        let mut e = self;
        e.trace.push(loc);
        e
    }
}

} // verus!
