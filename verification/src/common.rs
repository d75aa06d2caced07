//! The catalogue of canonical patterns that a grammar can import.

use vstd::prelude::*;
use crate::error::{CompileError, ErrorKind, ErrorView, KindView};
use crate::text::str_eq;

verus! {

/// The canonical pattern under the dotted path `path`, if the catalogue has
/// one.
pub open spec fn common_regex(path: Seq<char>) -> Option<Seq<char>> {
    if path == "common.DIGIT"@ {
        Some("[0-9]"@)
    } else if path == "common.HEXDIGIT"@ {
        Some("[a-fA-F0-9]"@)
    } else if path == "common.INT"@ {
        Some("[0-9]+"@)
    } else if path == "common.SIGNED_INT"@ {
        Some("(\\+|-)?[0-9]+"@)
    } else if path == "common.DECIMAL"@ {
        Some("([0-9]+\\.[0-9]*)|(\\.[0-9]+)"@)
    } else if path == "common._EXP"@ {
        Some("[eE](\\+|-)?[0-9]+"@)
    } else if path == "common.FLOAT"@ {
        Some("([0-9]+[eE](\\+|-)?[0-9]+)|((([0-9]+\\.[0-9]*)|(\\.[0-9]+))([eE](\\+|-)?[0-9]+)?)"@)
    } else if path == "common.SIGNED_FLOAT"@ {
        Some("(\\+|-)?(([0-9]+[eE](\\+|-)?[0-9]+)|((([0-9]+\\.[0-9]*)|(\\.[0-9]+))([eE](\\+|-)?[0-9]+)?))"@)
    } else if path == "common.NUMBER"@ {
        Some("([0-9]+[eE](\\+|-)?[0-9]+)|((([0-9]+\\.[0-9]*)|(\\.[0-9]+))([eE](\\+|-)?[0-9]+)?)|([0-9]+)"@)
    } else if path == "common.SIGNED_NUMBER"@ {
        Some("(\\+|-)?(([0-9]+[eE](\\+|-)?[0-9]+)|((([0-9]+\\.[0-9]*)|(\\.[0-9]+))([eE](\\+|-)?[0-9]+)?)|([0-9]+))"@)
    } else if path == "common.ESCAPED_STRING"@ {
        Some("\"(\\\\.|[^\"\\\\\\n])*\""@)
    } else if path == "common.LCASE_LETTER"@ {
        Some("[a-z]"@)
    } else if path == "common.UCASE_LETTER"@ {
        Some("[A-Z]"@)
    } else if path == "common.LETTER"@ {
        Some("[a-zA-Z]"@)
    } else if path == "common.WORD"@ {
        Some("[a-zA-Z]+"@)
    } else if path == "common.CNAME"@ {
        Some("[_a-zA-Z][_a-zA-Z0-9]*"@)
    } else if path == "common.WS_INLINE"@ {
        Some("[ \\t]+"@)
    } else if path == "common.WS"@ {
        Some("[ \\t\\f\\r\\n]+"@)
    } else if path == "common.CR"@ {
        Some("\\r"@)
    } else if path == "common.LF"@ {
        Some("\\n"@)
    } else if path == "common.NEWLINE"@ {
        Some("(\\r?\\n)+"@)
    } else if path == "common.SH_COMMENT"@ {
        Some("#[^\\n]*"@)
    } else if path == "common.CPP_COMMENT"@ {
        Some("//[^\\n]*"@)
    } else if path == "common.C_COMMENT"@ {
        Some("/\\*[^*]*\\*+([^/*][^*]*\\*+)*/"@)
    } else if path == "common.SQL_COMMENT"@ {
        Some("--[^\\n]*"@)
    } else {
        None
    }
}

/// Looks up the canonical pattern under the dotted path `name`. A path that
/// the catalogue does not hold is an error: no pattern stands in for it.
pub fn lookup_common_regex(name: &str) -> (res: Result<&'static str, CompileError>)
    ensures
        match res {
            Ok(rx) => common_regex(name@) == Some(rx@),
            Err(e) => common_regex(name@) is None && e@ == ErrorView::bare(
                KindView::UnknownCommonRegex(name@),
            ),
        },
{
    if str_eq(name, "common.DIGIT") {
        Ok("[0-9]")
    } else if str_eq(name, "common.HEXDIGIT") {
        Ok("[a-fA-F0-9]")
    } else if str_eq(name, "common.INT") {
        Ok("[0-9]+")
    } else if str_eq(name, "common.SIGNED_INT") {
        Ok("(\\+|-)?[0-9]+")
    } else if str_eq(name, "common.DECIMAL") {
        Ok("([0-9]+\\.[0-9]*)|(\\.[0-9]+)")
    } else if str_eq(name, "common._EXP") {
        Ok("[eE](\\+|-)?[0-9]+")
    } else if str_eq(name, "common.FLOAT") {
        Ok("([0-9]+[eE](\\+|-)?[0-9]+)|((([0-9]+\\.[0-9]*)|(\\.[0-9]+))([eE](\\+|-)?[0-9]+)?)")
    } else if str_eq(name, "common.SIGNED_FLOAT") {
        Ok("(\\+|-)?(([0-9]+[eE](\\+|-)?[0-9]+)|((([0-9]+\\.[0-9]*)|(\\.[0-9]+))([eE](\\+|-)?[0-9]+)?))")
    } else if str_eq(name, "common.NUMBER") {
        Ok("([0-9]+[eE](\\+|-)?[0-9]+)|((([0-9]+\\.[0-9]*)|(\\.[0-9]+))([eE](\\+|-)?[0-9]+)?)|([0-9]+)")
    } else if str_eq(name, "common.SIGNED_NUMBER") {
        Ok("(\\+|-)?(([0-9]+[eE](\\+|-)?[0-9]+)|((([0-9]+\\.[0-9]*)|(\\.[0-9]+))([eE](\\+|-)?[0-9]+)?)|([0-9]+))")
    } else if str_eq(name, "common.ESCAPED_STRING") {
        Ok("\"(\\\\.|[^\"\\\\\\n])*\"")
    } else if str_eq(name, "common.LCASE_LETTER") {
        Ok("[a-z]")
    } else if str_eq(name, "common.UCASE_LETTER") {
        Ok("[A-Z]")
    } else if str_eq(name, "common.LETTER") {
        Ok("[a-zA-Z]")
    } else if str_eq(name, "common.WORD") {
        Ok("[a-zA-Z]+")
    } else if str_eq(name, "common.CNAME") {
        Ok("[_a-zA-Z][_a-zA-Z0-9]*")
    } else if str_eq(name, "common.WS_INLINE") {
        Ok("[ \\t]+")
    } else if str_eq(name, "common.WS") {
        Ok("[ \\t\\f\\r\\n]+")
    } else if str_eq(name, "common.CR") {
        Ok("\\r")
    } else if str_eq(name, "common.LF") {
        Ok("\\n")
    } else if str_eq(name, "common.NEWLINE") {
        Ok("(\\r?\\n)+")
    } else if str_eq(name, "common.SH_COMMENT") {
        Ok("#[^\\n]*")
    } else if str_eq(name, "common.CPP_COMMENT") {
        Ok("//[^\\n]*")
    } else if str_eq(name, "common.C_COMMENT") {
        Ok("/\\*[^*]*\\*+([^/*][^*]*\\*+)*/")
    } else if str_eq(name, "common.SQL_COMMENT") {
        Ok("--[^\\n]*")
    } else {
        Err(CompileError::new(ErrorKind::UnknownCommonRegex(name.to_owned())))
    }
}

} // verus!
