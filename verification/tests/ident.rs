use svd2rust::ident::{
    sanitize, shape_identifier, tell_apart, unique_identifiers, Convention, Identifiers,
};

fn strings(items: &[&str]) -> Vec<String> {
    items.iter().map(|s| s.to_string()).collect()
}

#[test]
fn type_names_join_capitalised_words() {
    assert_eq!(sanitize("hello world", Convention::TypeName), "HelloWorld");
    assert_eq!(sanitize("UART0", Convention::TypeName), "Uart0");
    assert_eq!(sanitize("MODE_SEL", Convention::TypeName), "ModeSel");
    assert_eq!(sanitize("enableIrq", Convention::TypeName), "EnableIrq");
}

#[test]
fn accessors_join_lower_case_words_by_underscores() {
    assert_eq!(sanitize("hello world", Convention::Accessor), "hello_world");
    assert_eq!(sanitize("UART0", Convention::Accessor), "uart0");
    assert_eq!(sanitize("MODE-SEL", Convention::Accessor), "mode_sel");
    assert_eq!(sanitize("enableIrq", Convention::Accessor), "enable_irq");
}

#[test]
fn names_that_differ_in_case_only_may_differ_as_identifiers() {
    assert_eq!(sanitize("aB", Convention::Accessor), "a_b");
    assert_eq!(sanitize("ab", Convention::Accessor), "ab");
}

#[test]
fn punctuation_is_dropped() {
    assert_eq!(sanitize("CTRL[0]", Convention::TypeName), "Ctrl0");
    assert_eq!(sanitize("a.b%c", Convention::Accessor), "abc");
    assert_eq!(shape_identifier("a b\tc-d"), "abcd");
}

#[test]
fn a_leading_digit_gets_an_underscore() {
    assert_eq!(sanitize("1WIRE", Convention::TypeName), "_1wire");
    assert_eq!(shape_identifier("9"), "_9");
}

#[test]
fn nothing_left_gives_an_underscore() {
    assert_eq!(sanitize("", Convention::Accessor), "_");
    assert_eq!(shape_identifier("%%"), "_");
    assert_eq!(shape_identifier("é"), "_");
}

#[test]
fn a_free_candidate_keeps_its_name() {
    assert_eq!(tell_apart(&strings(&["a", "b"]), "c".to_string()), "c");
    assert_eq!(tell_apart(&vec![], "c".to_string()), "c");
}

#[test]
fn a_taken_candidate_gets_the_first_free_number() {
    assert_eq!(tell_apart(&strings(&["c"]), "c".to_string()), "c_1");
    assert_eq!(tell_apart(&strings(&["c", "c_1", "c_3"]), "c".to_string()), "c_2");
    assert_eq!(tell_apart(&strings(&["c_1", "c", "c_2"]), "c".to_string()), "c_3");
}

#[test]
fn colliding_names_are_numbered_in_order_and_reported() {
    let Identifiers { names, renamed } =
        unique_identifiers(&strings(&["a b", "other", "A_B", "a-b"]), Convention::Accessor);
    assert_eq!(names, strings(&["a_b", "other", "a_b_1", "a_b_2"]));
    assert_eq!(renamed, vec![2, 3]);
}

#[test]
fn a_numbered_identifier_may_itself_collide() {
    let Identifiers { names, renamed } =
        unique_identifiers(&strings(&["x", "x", "x_1"]), Convention::Accessor);
    assert_eq!(names, strings(&["x", "x_1", "x_1_1"]));
    assert_eq!(renamed, vec![1, 2]);
}

#[test]
fn names_without_collision_are_not_reported() {
    let Identifiers { names, renamed } =
        unique_identifiers(&strings(&["CTRL", "STATUS"]), Convention::TypeName);
    assert_eq!(names, strings(&["Ctrl", "Status"]));
    assert!(renamed.is_empty());
    let none = unique_identifiers(&vec![], Convention::TypeName);
    assert!(none.names.is_empty() && none.renamed.is_empty());
}

#[test]
fn the_same_names_give_the_same_identifiers() {
    let names = strings(&["a", "A", "a", "b c", "B_C"]);
    assert_eq!(
        unique_identifiers(&names, Convention::Accessor),
        unique_identifiers(&names, Convention::Accessor)
    );
}
