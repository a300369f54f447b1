use edit_ini::{into_commands, process_commands, Action, Command};

fn strings(tokens: &[&str]) -> Vec<String> {
    tokens.iter().map(|t| String::from(*t)).collect()
}

#[test]
fn set_creates_section_and_key() {
    let cmds = into_commands(&strings(&["-s", "House", "Cat=meow"]));
    assert_eq!(
        cmds,
        vec![Command {
            action: Action::Put,
            section: String::from("House"),
            key: String::from("Cat"),
            value: String::from("meow"),
        }]
    );
    let mut store = ini::Ini::new();
    process_commands(cmds, &mut store);
    assert_eq!(store.section(Some("House")).unwrap().get("Cat"), Some("meow"));
}

#[test]
fn removing_last_key_prunes_section() {
    let mut store = ini::Ini::new();
    process_commands(into_commands(&strings(&["-s", "House", "Cat=meow"])), &mut store);
    assert!(store.section(Some("House")).is_some());
    process_commands(into_commands(&strings(&["-r", "House", "Cat"])), &mut store);
    assert!(store.section(Some("House")).is_none());
}

#[test]
fn removing_non_last_key_keeps_section() {
    let mut store = ini::Ini::new();
    process_commands(
        into_commands(&strings(&["-s", "House", "Cat=meow", "-s", "House", "Dog=woof"])),
        &mut store,
    );
    process_commands(into_commands(&strings(&["-r", "House", "Cat"])), &mut store);
    let props = store.section(Some("House")).unwrap();
    assert_eq!(props.get("Cat"), None);
    assert_eq!(props.get("Dog"), Some("woof"));
}

#[test]
fn remove_without_key_deletes_whole_section() {
    let mut store = ini::Ini::new();
    process_commands(
        into_commands(&strings(&["-s", "House", "Cat=meow", "-s", "House", "Dog=woof"])),
        &mut store,
    );
    process_commands(into_commands(&strings(&["-r", "House"])), &mut store);
    assert!(store.section(Some("House")).is_none());
}

#[test]
fn empty_section_text_targets_default_section() {
    let mut store = ini::Ini::new();
    process_commands(into_commands(&strings(&["-s", "", "K=V"])), &mut store);
    assert_eq!(store.get_from(None::<String>, "K"), Some("V"));
}

#[test]
fn set_overwrites_existing_value() {
    let mut store = ini::Ini::new();
    process_commands(
        into_commands(&strings(&["-s", "House", "Cat=123", "-s", "House", "Cat=456"])),
        &mut store,
    );
    assert_eq!(store.section(Some("House")).unwrap().get("Cat"), Some("456"));
    assert_eq!(store.section(Some("House")).unwrap().len(), 1);
}

#[test]
fn repeated_set_is_idempotent() {
    let mut once = ini::Ini::new();
    process_commands(into_commands(&strings(&["-s", "A", "K=V"])), &mut once);
    let mut twice = ini::Ini::new();
    process_commands(into_commands(&strings(&["-s", "A", "K=V", "-s", "A", "K=V"])), &mut twice);
    assert_eq!(once.section(Some("A")).unwrap().get("K"), Some("V"));
    assert_eq!(twice.section(Some("A")).unwrap().get("K"), Some("V"));
    assert_eq!(once.section(Some("A")).unwrap().len(), twice.section(Some("A")).unwrap().len());
    assert_eq!(once.len(), twice.len());
}

#[test]
fn set_then_remove_nets_to_absent_section() {
    let mut store = ini::Ini::new();
    process_commands(
        into_commands(&strings(&["-s", "S", "K=V", "-r", "S", "K"])),
        &mut store,
    );
    assert!(store.section(Some("S")).is_none());
}

#[test]
fn set_then_remove_keeps_other_keys() {
    let mut store = ini::Ini::new();
    process_commands(into_commands(&strings(&["-s", "S", "Other=1"])), &mut store);
    process_commands(
        into_commands(&strings(&["-s", "S", "K=V", "-r", "S", "K"])),
        &mut store,
    );
    let props = store.section(Some("S")).unwrap();
    assert_eq!(props.get("K"), None);
    assert_eq!(props.get("Other"), Some("1"));
}

#[test]
fn set_with_empty_key_is_skipped() {
    let mut store = ini::Ini::new();
    process_commands(into_commands(&strings(&["-s", "House", "=abc"])), &mut store);
    assert!(store.section(Some("House")).is_none());
}

#[test]
fn remove_of_absent_section_or_key_is_noop() {
    let mut store = ini::Ini::new();
    process_commands(into_commands(&strings(&["-s", "House", "Cat=meow"])), &mut store);
    process_commands(into_commands(&strings(&["-r", "Barn", "Cat"])), &mut store);
    process_commands(into_commands(&strings(&["-r", "House", "Dog"])), &mut store);
    assert_eq!(store.section(Some("House")).unwrap().get("Cat"), Some("meow"));
    assert!(store.section(Some("Barn")).is_none());
}

#[test]
fn unrelated_flags_are_ignored_while_edits_apply_in_order() {
    let mut store = ini::Ini::new();
    process_commands(
        into_commands(&strings(&[
            "-i", "in.ini", "-s", "House", "Cat=meow", "-o", "out.ini", "-r", "House", "Cat",
        ])),
        &mut store,
    );
    assert!(store.section(Some("House")).is_none());
}

#[test]
fn whitespace_section_is_distinct_from_default() {
    let mut store = ini::Ini::new();
    process_commands(into_commands(&strings(&["-s", "   ", "K=V"])), &mut store);
    assert_eq!(store.section(Some("   ")).unwrap().get("K"), Some("V"));
    assert_eq!(store.get_from(None::<String>, "K"), None);
}
