use octos_tui::i18n::interpolate;

fn fill(template: &str, names: &[&str], values: &[&str]) -> String {
    let values: Vec<String> = values.iter().map(|v| v.to_string()).collect();
    interpolate(template, names, &values)
}

#[test]
fn placeholders_are_replaced_by_name() {
    assert_eq!(fill("Step %{n} of %{m}", &["m", "n"], &["6", "2"]), "Step 2 of 6");
}

#[test]
fn unknown_and_unclosed_placeholders_stay() {
    assert_eq!(fill("%{x} and %{y", &["y"], &["1"]), "%{x} and %{y");
    assert_eq!(fill("100% {n}", &["n"], &["1"]), "100% {n}");
}

#[test]
fn values_are_not_scanned_again() {
    assert_eq!(fill("%{a}%{b}", &["a", "b"], &["%{b}", "!"]), "%{b}!");
}

#[test]
fn first_value_of_a_name_wins() {
    assert_eq!(fill("[%{k}]", &["k", "k"], &["first", "second"]), "[first]");
}

#[test]
fn empty_template_gives_empty_text() {
    assert_eq!(fill("", &["k"], &["v"]), "");
}
