use axumate::utils::common::{capitalize, pluralize, replace_initial, resolve, uppercase};

#[test]
fn capitalize_examples() {
    assert_eq!(capitalize(""), "");
    assert_eq!(capitalize("h"), "H");
    assert_eq!(capitalize("hello"), "Hello");
}

#[test]
fn capitalize_leaves_the_rest_alone() {
    assert_eq!(capitalize("helloWorld"), "HelloWorld");
    assert_eq!(capitalize("Hello"), "Hello");
    assert_eq!(capitalize("1abc"), "1abc");
    assert_eq!(capitalize("_x"), "_x");
    assert_eq!(capitalize("élan"), "Élan");
    assert_eq!(capitalize("ßa"), "SSa");
}

#[test]
fn replace_initial_puts_the_given_characters_first() {
    assert_eq!(replace_initial("hello", &vec!['J']), "Jello");
    assert_eq!(replace_initial("hello", &vec!['X', 'Y']), "XYello");
    assert_eq!(replace_initial("hello", &vec![]), "ello");
    assert_eq!(replace_initial("", &vec!['J']), "");
}

#[test]
fn uppercase_and_plural() {
    assert_eq!(uppercase("order"), "ORDER");
    assert_eq!(uppercase("order_line"), "ORDER_LINE");
    assert_eq!(uppercase(""), "");
    assert_eq!(pluralize("order"), "orders");
    assert_eq!(pluralize(""), "s");
}

#[test]
fn resolve_gives_all_forms() {
    let names = resolve("order");
    assert_eq!(names.identifier, "order");
    assert_eq!(names.capitalized, "Order");
    assert_eq!(names.plural, "orders");
}

#[test]
fn resolve_does_not_judge_the_name() {
    let names = resolve("my order");
    assert_eq!(names.identifier, "my order");
    assert_eq!(names.capitalized, "My order");
    assert_eq!(names.plural, "my orders");
}
