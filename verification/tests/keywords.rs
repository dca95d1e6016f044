use svd2rust::ident::{tell_all_apart, Convention, Identifiers};
use svd2rust::keywords::{escape, safe_identifiers};

fn strings(items: &[&str]) -> Vec<String> {
    items.iter().map(|s| s.to_string()).collect()
}

#[test]
fn reserved_words_get_an_underscore() {
    for word in [
        "as", "break", "const", "continue", "crate", "else", "enum", "extern", "false", "fn",
        "for", "if", "impl", "in", "let", "loop", "match", "mod", "move", "mut", "pub", "ref",
        "return", "self", "Self", "static", "struct", "super", "trait", "true", "type", "unsafe",
        "use", "where", "while", "async", "await", "dyn", "abstract", "become", "box", "do",
        "final", "macro", "override", "priv", "typeof", "unsized", "virtual", "yield", "try",
        "gen",
    ] {
        assert_eq!(escape(word.to_string()), format!("{}_", word));
    }
}

#[test]
fn other_identifiers_stay_as_they_are() {
    for ident in ["ctrl", "Type", "selfish", "fn_", "_", "r"] {
        assert_eq!(escape(ident.to_string()), ident);
    }
}

#[test]
fn escaping_comes_before_telling_apart() {
    let Identifiers { names, renamed } =
        safe_identifiers(&strings(&["type", "TYPE_", "match", "x"]), Convention::Accessor);
    assert_eq!(names, strings(&["type_", "type__1", "match_", "x"]));
    assert_eq!(renamed, vec![1]);
}

#[test]
fn candidates_are_told_apart_in_order() {
    let Identifiers { names, renamed } = tell_all_apart(strings(&["b", "a", "b", "b_1", "b"]));
    assert_eq!(names, strings(&["b", "a", "b_1", "b_1_1", "b_2"]));
    assert_eq!(renamed, vec![2, 3, 4]);
}
