use textutils::findr::{filter_name, filter_type, run, Config, Entry, EntryType};
use textutils::pattern::Pattern;

fn entry(path: &str, name: &str, kind: EntryType) -> Entry {
    Entry {
        path: path.to_string(),
        name: name.to_string(),
        is_dir: kind == EntryType::Dir,
        is_file: kind == EntryType::File,
        is_symlink: kind == EntryType::Link,
    }
}

fn patterns(items: &[&str]) -> Vec<Pattern> {
    items.iter().map(|p| Pattern::compile(p, false).unwrap()).collect()
}

fn tree() -> Vec<Entry> {
    vec![
        entry(".", ".", EntryType::Dir),
        entry("./a.txt", "a.txt", EntryType::File),
        entry("./src", "src", EntryType::Dir),
        entry("./src/main.rs", "main.rs", EntryType::File),
        entry("./src/link", "link", EntryType::Link),
        entry("./b.TXT", "b.TXT", EntryType::File),
    ]
}

#[test]
fn without_filters_every_entry_passes() {
    let config = Config { paths: vec![], entry_names: vec![], entry_types: vec![] };
    assert_eq!(
        run(&config, &tree()),
        vec!["." , "./a.txt", "./src", "./src/main.rs", "./src/link", "./b.TXT"]
    );
    assert_eq!(run(&config, &vec![]), Vec::<String>::new());
}

#[test]
fn entries_are_chosen_by_kind() {
    let e = tree();
    assert!(filter_type(&e[1], &vec![]));
    assert!(filter_type(&e[1], &vec![EntryType::File]));
    assert!(!filter_type(&e[1], &vec![EntryType::Dir]));
    assert!(filter_type(&e[1], &vec![EntryType::Dir, EntryType::File]));
    assert!(filter_type(&e[4], &vec![EntryType::Link]));
    assert!(!filter_type(&e[4], &vec![EntryType::Dir, EntryType::File]));
    let config = Config { paths: vec![], entry_names: vec![], entry_types: vec![EntryType::Dir, EntryType::Link] };
    assert_eq!(run(&config, &e), vec![".", "./src", "./src/link"]);
}

#[test]
fn entries_are_chosen_by_name() {
    let e = tree();
    assert!(filter_name(&e[1], &vec![]));
    assert!(filter_name(&e[1], &patterns(&[r"\.txt$"])));
    assert!(!filter_name(&e[5], &patterns(&[r"\.txt$"])));
    assert!(filter_name(&e[5], &patterns(&[r"\.txt$", "^b"])));
    assert!(!filter_name(&e[3], &patterns(&["src"])));
    let config = Config { paths: vec![], entry_names: patterns(&[r"\.rs$", "^a"]), entry_types: vec![] };
    assert_eq!(run(&config, &e), vec!["./a.txt", "./src/main.rs"]);
}

#[test]
fn both_filters_must_pass() {
    let config = Config {
        paths: vec![".".to_string()],
        entry_names: patterns(&["s"]),
        entry_types: vec![EntryType::File],
    };
    assert_eq!(run(&config, &tree()), vec!["./src/main.rs"]);
    let an_entry_of_two_kinds = Entry {
        path: "x".to_string(),
        name: "x".to_string(),
        is_dir: true,
        is_file: false,
        is_symlink: true,
    };
    assert!(filter_type(&an_entry_of_two_kinds, &vec![EntryType::Link]));
    assert!(filter_type(&an_entry_of_two_kinds, &vec![EntryType::Dir]));
    assert!(!filter_type(&an_entry_of_two_kinds, &vec![EntryType::File]));
}
