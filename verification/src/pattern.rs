//! Raw patterns: escaping text for use in one, and the independent check of
//! a pattern's syntax. Both are done by outside crates.

use vstd::prelude::*;

verus! {

/// The characters that have a meaning of their own in a pattern.
pub open spec fn is_meta_character(c: char) -> bool {
    c == '\\' || c == '.' || c == '+' || c == '*' || c == '?' || c == '(' || c == ')' || c == '|'
        || c == '[' || c == ']' || c == '{' || c == '}' || c == '^' || c == '$' || c == '#' || c
        == '&' || c == '-' || c == '~'
}

/// `text` with a backslash before each of its meta characters.
pub open spec fn escaped(text: Seq<char>) -> Seq<char>
    decreases text.len(),
{
    if text.len() == 0 {
        Seq::empty()
    } else if is_meta_character(text[0]) {
        seq!['\\', text[0]] + escaped(text.drop_first())
    } else {
        seq![text[0]] + escaped(text.drop_first())
    }
}

/// The pattern of a character range: a class from the one character of
/// `start` to the one character of `end`, both escaped.
pub open spec fn range_pattern(start: Seq<char>, end: Seq<char>) -> Seq<char> {
    seq!['['] + escaped(start) + seq!['-'] + escaped(end) + seq![']']
}

/// The pattern of a string that matches in any case.
pub open spec fn insensitive_pattern(text: Seq<char>) -> Seq<char> {
    seq!['(', '?', 'i', ')'] + escaped(text)
}

/// The pattern of a regular expression with its flags put in front.
pub open spec fn flagged_pattern(pattern: Seq<char>, flags: Seq<char>) -> Seq<char> {
    if flags.len() == 0 {
        pattern
    } else {
        seq!['(', '?'] + flags + seq![')'] + pattern
    }
}

/// What the syntax check says of a pattern: `None` where it accepts it, else
/// the reason it gives.
pub uninterp spec fn pattern_rejection(pattern: Seq<char>) -> Option<Seq<char>>;

/// Calls `regex_syntax::escape`. Trusted: the result is `text` with a
/// backslash put before every meta character, and nothing else changed.
#[verifier::external_body]
pub(crate) fn escape(text: &str) -> (res: String)
    ensures
        res@ == escaped(text@),
{
    regex_syntax::escape(text)
}

/// Calls `mk_regex` on a fresh `derivre::RegexBuilder`, which parses the
/// pattern and builds its expression. Trusted: whether the pattern is
/// accepted, and the text of the error if not, depend on the pattern alone.
#[verifier::external_body]
pub(crate) fn check_pattern(pattern: &str) -> (res: Result<(), String>)
    ensures
        match res {
            Ok(_) => pattern_rejection(pattern@) is None,
            Err(reason) => pattern_rejection(pattern@) == Some(reason@),
        },
{
    match derivre::RegexBuilder::new().mk_regex(pattern) {
        Ok(_) => Ok(()),
        Err(e) => Err(e.to_string()),
    }
}

/// Builds the pattern of the range from the one character of `start` to the
/// one character of `end`.
pub fn range_pattern_text(start: &str, end: &str) -> (res: String)
    ensures
        res@ == range_pattern(start@, end@),
{
    proof {
        reveal_strlit("[");
        reveal_strlit("-");
        reveal_strlit("]");
    }
    let mut res = String::from_str("[");
    res.append(escape(start).as_str());
    res.append("-");
    res.append(escape(end).as_str());
    res.append("]");
    res
}

/// Builds the pattern of a string that matches in any case.
pub fn insensitive_pattern_text(text: &str) -> (res: String)
    ensures
        res@ == insensitive_pattern(text@),
{
    proof {
        reveal_strlit("(?i)");
    }
    let mut res = String::from_str("(?i)");
    res.append(escape(text).as_str());
    res
}

/// Builds the pattern of a regular expression with its flags put in front.
pub fn flagged_pattern_text(pattern: &str, flags: &str) -> (res: String)
    ensures
        res@ == flagged_pattern(pattern@, flags@),
{
    if flags.unicode_len() == 0 {
        return pattern.to_owned();
    }
    proof {
        reveal_strlit("(?");
        reveal_strlit(")");
    }
    let mut res = String::from_str("(?");
    res.append(flags);
    res.append(")");
    res.append(pattern);
    res
}

} // verus!
