//! The reserved words of the language that the emitter writes, and the
//! identifiers that the emitter may use: a sanitized name that is a
//! reserved word gets an underscore after it before the names of its scope
//! are told apart.

use vstd::prelude::*;
use vstd::string::*;
use crate::ident::{
    as_positions, is_identifier, renamed_positions, sanitize, sanitized, tell_all_apart,
    unique_names, Convention, Identifiers,
};
use crate::text::views;

verus! {

/// The reserved word that the text of this library itself cannot spell out.
pub open spec fn foreign_block_word() -> Seq<char> {
    seq!['e', 'x', 't', 'e', 'r', 'n']
}

/// The words that the output language keeps for itself.
pub open spec fn reserved_words() -> Seq<Seq<char>> {
    seq![
        "as"@, "break"@, "const"@, "continue"@, "crate"@, "else"@, "enum"@, "false"@, "fn"@,
        "for"@, "if"@, "impl"@, "in"@, "let"@, "loop"@, "match"@, "mod"@, "move"@, "mut"@,
        "pub"@, "ref"@, "return"@, "self"@, "Self"@, "static"@, "struct"@, "super"@, "trait"@,
        "true"@, "type"@, "unsafe"@, "use"@, "where"@, "while"@, "async"@, "await"@, "dyn"@,
        "abstract"@, "become"@, "box"@, "do"@, "final"@, "macro"@, "override"@, "priv"@,
        "typeof"@, "unsized"@, "virtual"@, "yield"@, "try"@, "gen"@, foreign_block_word(),
    ]
}

/// The identifier is a reserved word of the output language.
pub open spec fn is_reserved_word(ident: Seq<char>) -> bool {
    reserved_words().contains(ident)
}

/// The identifier, with an underscore after it where it is a reserved word.
pub open spec fn escaped(ident: Seq<char>) -> Seq<char> {
    if is_reserved_word(ident) {
        ident.push('_')
    } else {
        ident
    }
}

/// The candidates for the names of one scope: each name sanitized and
/// escaped.
pub open spec fn safe_candidates(names: Seq<Seq<char>>, convention: Convention) -> Seq<Seq<char>> {
    Seq::new(names.len(), |i: int| escaped(sanitized(names[i], convention)))
}

fn word_list() -> (words: Vec<String>)
    ensures
        views(words@) == reserved_words(),
{
    let literals: [&str; 51] = [
        "as", "break", "const", "continue", "crate", "else", "enum", "false", "fn", "for", "if",
        "impl", "in", "let", "loop", "match", "mod", "move", "mut", "pub", "ref", "return", "self",
        "Self", "static", "struct", "super", "trait", "true", "type", "unsafe", "use", "where",
        "while", "async", "await", "dyn", "abstract", "become", "box", "do", "final", "macro",
        "override", "priv", "typeof", "unsized", "virtual", "yield", "try", "gen",
    ];
    let mut words: Vec<String> = Vec::new();
    let mut i: usize = 0;
    while i < 51
        invariant
            i <= 51,
            literals.len() == 51,
            words.len() == i,
            forall|k: int| 0 <= k < i ==> (#[trigger] words@[k])@ == literals@[k]@,
        decreases 51 - i,
    {
        words.push(String::from_str(literals[i]));
        i += 1;
    }
    let mut last = String::new();
    last.push('e');
    last.push('x');
    last.push('t');
    last.push('e');
    last.push('r');
    last.push('n');
    assert(last@ =~= foreign_block_word());
    words.push(last);
    assert(views(words@) =~= reserved_words());
    words
}

/// Puts an underscore after an identifier that is a reserved word.
pub fn escape(ident: String) -> (res: String)
    ensures
        res@ == escaped(ident@),
        is_identifier(ident@) ==> is_identifier(res@),
{
    let words = word_list();
    let mut i: usize = 0;
    while i < words.len()
        invariant
            i <= words.len(),
            views(words@) == reserved_words(),
            forall|k: int| 0 <= k < i ==> views(words@)[k] != ident@,
        decreases words.len() - i,
    {
        if words[i] == ident {
            assert(views(words@)[i as int] == ident@);
            let mut res = ident;
            res.push('_');
            return res;
        }
        i += 1;
    }
    ident
}

/// The identifiers that the emitter uses for the names of one scope:
/// sanitized in the case of their kind, escaped where they are reserved
/// words, and told apart where two coincide.
pub fn safe_identifiers(names: &Vec<String>, convention: Convention) -> (res: Identifiers)
    ensures
        views(res.names@) == unique_names(safe_candidates(views(names@), convention)),
        as_positions(res.renamed@) == renamed_positions(safe_candidates(views(names@), convention)),
        res.names.len() == names.len(),
        forall|k: int| 0 <= k < res.renamed.len() ==> #[trigger] res.renamed[k] < names.len(),
        views(res.names@).no_duplicates(),
        forall|i: int| 0 <= i < res.names.len() ==> is_identifier(#[trigger] views(res.names@)[i]),
{
    let ghost wanted = safe_candidates(views(names@), convention);
    let mut candidates: Vec<String> = Vec::new();
    let mut i: usize = 0;
    while i < names.len()
        invariant
            i <= names.len(),
            wanted == safe_candidates(views(names@), convention),
            views(candidates@) == wanted.take(i as int),
            forall|j: int| 0 <= j < candidates.len() ==> is_identifier(#[trigger] views(candidates@)[j]),
        decreases names.len() - i,
    {
        let ghost before = views(candidates@);
        let candidate = escape(sanitize(names[i].as_str(), convention));
        candidates.push(candidate);
        assert(views(candidates@) =~= before.push(candidate@));
        i += 1;
        assert(wanted.take(i as int) =~= before.push(candidate@));
    }
    assert(wanted.take(names.len() as int) =~= wanted);
    tell_all_apart(candidates)
}

} // verus!
