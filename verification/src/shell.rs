//! Quoting of words for `sh`.
use vstd::prelude::*;

use crate::text::{push_char, push_str, replace_char, replace_char_exec};

verus! {

/// The escape of a single quote inside a single-quoted word: `'\''`.
pub open spec fn quote_escape() -> Seq<char> {
    seq!['\'', '\\', '\'', '\'']
}

/// `s` as one single-quoted `sh` word: each `'` becomes `'\''`, and the
/// whole is wrapped in single quotes.
pub open spec fn single_quoted(s: Seq<char>) -> Seq<char> {
    seq!['\''] + replace_char(s, '\'', quote_escape()) + seq!['\'']
}

fn quoted(value: &str) -> (r: String)
    ensures
        r@ == single_quoted(value@),
{
    let mut out = String::new();
    push_char(&mut out, '\'');
    let esc = replace_char_exec(value, '\'', "'\\''");
    proof {
        reveal_strlit("'\\''");
        assert("'\\''"@ =~= quote_escape());
    }
    push_str(&mut out, esc.as_str());
    push_char(&mut out, '\'');
    out
}

/// Quotes a value for `sh` (used by the build steps).
pub fn shell_single_quote(value: &str) -> (r: String)
    ensures
        r@ == single_quoted(value@),
{
    quoted(value)
}

/// Quotes a value for `sh` (used by the shared-service proxy script).
pub fn shell_quote(input: &str) -> (r: String)
    ensures
        r@ == single_quoted(input@),
{
    quoted(input)
}

/// Quoting a word that holds no single quote only wraps it in quotes.
pub proof fn lemma_quote_plain(s: Seq<char>)
    requires
        forall|i: int| 0 <= i < s.len() ==> s[i] != '\'',
    ensures
        single_quoted(s) == seq!['\''] + s + seq!['\''],
    decreases s.len(),
{
    lemma_replace_absent(s);
}

proof fn lemma_replace_absent(s: Seq<char>)
    requires
        forall|i: int| 0 <= i < s.len() ==> s[i] != '\'',
    ensures
        replace_char(s, '\'', quote_escape()) == s,
    decreases s.len(),
{
    if s.len() > 0 {
        lemma_replace_absent(s.drop_last());
        assert(s.drop_last().push(s.last()) =~= s);
    }
}

} // verus!
