use ws::picker::Picker;

fn rows(list: &[&str]) -> Vec<String> {
    list.iter().map(|s| s.to_string()).collect()
}

#[test]
fn picker_input_is_one_row_a_line() {
    assert_eq!(Picker::input(&rows(&["a", "b", "c"])), "a\nb\nc");
    assert_eq!(Picker::input(&rows(&["only"])), "only");
    assert_eq!(Picker::input(&rows(&[])), "");
    assert_eq!(Picker::input(&rows(&["", ""])), "\n");
    assert_eq!(Picker::input(&rows(&["a", "b"])), rows(&["a", "b"]).join("\n"));
}

#[test]
fn picked_row_is_the_first_that_reads_as_chosen() {
    let list = rows(&["session: a", "---", "project: x/a", "---"]);
    assert_eq!(Picker::pick(&list, false, Some("project: x/a")), Some(2));
    assert_eq!(Picker::pick(&list, false, Some("---")), Some(1));
    assert_eq!(Picker::pick(&list, false, Some("session: a")), Some(0));
}

#[test]
fn nothing_is_picked_on_abort_or_without_a_choice() {
    let list = rows(&["a", "b"]);
    assert_eq!(Picker::pick(&list, true, Some("a")), None);
    assert_eq!(Picker::pick(&list, false, None), None);
    assert_eq!(Picker::pick(&list, true, None), None);
}

#[test]
fn nothing_is_picked_for_a_text_that_is_no_row() {
    let list = rows(&["a", "b"]);
    assert_eq!(Picker::pick(&list, false, Some("c")), None);
    assert_eq!(Picker::pick(&Vec::new(), false, Some("a")), None);
}
