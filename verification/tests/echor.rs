use textutils::echor::echo;

fn words(items: &[&str]) -> Vec<String> {
    items.iter().map(|s| s.to_string()).collect()
}

#[test]
fn words_are_joined_with_spaces() {
    assert_eq!(echo(&words(&["Hello", "there"]), false), "Hello there\n");
    assert_eq!(echo(&words(&["Hello there"]), false), "Hello there\n");
    assert_eq!(echo(&words(&["a", "", "b"]), false), "a  b\n");
    assert_eq!(echo(&words(&[]), false), "\n");
}

#[test]
fn the_line_feed_can_be_left_out() {
    assert_eq!(echo(&words(&["Hello", "there"]), true), "Hello there");
    assert_eq!(echo(&words(&["Hello there"]), true), "Hello there");
    assert_eq!(echo(&words(&[]), true), "");
}

#[test]
fn joining_agrees_with_join() {
    for list in [vec![], vec!["x"], vec!["x", "y"], vec!["é", " ", "日本", ""]] {
        let text = words(&list);
        assert_eq!(echo(&text, true), text.join(" "));
        assert_eq!(echo(&text, false), format!("{}\n", text.join(" ")));
    }
}
