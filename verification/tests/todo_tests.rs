use todo::codec::{decode, encode};
use todo::command::{apply, parse_command, Command, Outcome};
use todo::item::Item;
use todo::ops::{add, delete, delete_done, done, done_toggler, edit, undone};
use todo::select::{parse_picker, parse_usize_token, TodoPicker};

fn item(title: &str, due: Option<&str>, done: bool) -> Item {
    Item { title: title.to_string(), due: due.map(|d| d.to_string()), done }
}

#[test]
fn encode_empty_list() {
    let v: Vec<Item> = Vec::new();
    assert_eq!(encode(&v), "[]");
}

#[test]
fn encode_one_item_exact() {
    let v = vec![item("Milk", None, false)];
    assert_eq!(encode(&v), "[{\"title\":\"Milk\",\"due\":null,\"done\":false}]");
}

#[test]
fn encode_two_items_with_due_and_done() {
    let v = vec![item("a", Some("tomorrow"), true), item("b", None, false)];
    assert_eq!(
        encode(&v),
        "[{\"title\":\"a\",\"due\":\"tomorrow\",\"done\":true},{\"title\":\"b\",\"due\":null,\"done\":false}]"
    );
}

#[test]
fn encode_escapes_specials() {
    let v = vec![item("say \"hi\"\\\n\t", None, false)];
    assert_eq!(
        encode(&v),
        "[{\"title\":\"say \\\"hi\\\"\\\\\\n\\t\",\"due\":null,\"done\":false}]"
    );
}

#[test]
fn encode_escapes_control_char_as_hex() {
    let v = vec![item("\u{1}\u{1f}", None, false)];
    assert_eq!(encode(&v), "[{\"title\":\"\\u0001\\u001f\",\"due\":null,\"done\":false}]");
}

#[test]
fn round_trip_empty() {
    let v: Vec<Item> = Vec::new();
    assert_eq!(decode(&encode(&v)).unwrap(), v);
}

#[test]
fn round_trip_mixed_list() {
    let v = vec![
        item("Buy milk", None, false),
        item("quote \" backslash \\", Some("due \n date"), true),
        item("control \u{3} char", Some(""), false),
        item("", None, true),
    ];
    assert_eq!(decode(&encode(&v)).unwrap(), v);
}

#[test]
fn decode_unicode_escape() {
    let s = "[{\"title\":\"\\u0041\\u00e9\",\"due\":null,\"done\":false}]";
    let v = decode(&s.to_string()).unwrap();
    assert_eq!(v[0].title, "A\u{e9}");
}

#[test]
fn decode_rejects_corrupt_input() {
    assert!(decode("").is_none());
    assert!(decode("[").is_none());
    assert!(decode("{}").is_none());
    assert!(decode("[{]").is_none());
    assert!(decode("[{\"title\":\"a\",\"due\":null,\"done\":false}").is_none());
    assert!(decode("[{\"title\":\"a\",\"due\":null,\"done\":false}]x").is_none());
    assert!(decode("[{\"title\":\"a\",\"due\":null,\"done\":maybe}]").is_none());
}

#[test]
fn add_appends_one_undone_item() {
    let mut v = vec![item("a", Some("d"), true)];
    add(&mut v, "b c".to_string(), None);
    assert_eq!(v.len(), 2);
    assert_eq!(v[0], item("a", Some("d"), true));
    assert_eq!(v[1], item("b c", None, false));
}

#[test]
fn edit_replaces_title_and_clears_due() {
    let mut v = vec![item("a", Some("d"), true), item("b", None, false)];
    let ok = edit(&mut v, 0, "new".to_string(), None);
    assert!(ok);
    assert_eq!(v[0], item("new", None, true));
    assert_eq!(v[1], item("b", None, false));
}

#[test]
fn edit_empty_title_keeps_old_title_but_clears_due() {
    let mut v = vec![item("a", Some("d"), false)];
    let ok = edit(&mut v, 0, "".to_string(), None);
    assert!(ok);
    assert_eq!(v[0], item("a", None, false));
}

#[test]
fn edit_out_of_range_changes_nothing() {
    let mut v = vec![item("a", Some("d"), false)];
    let ok = edit(&mut v, 1, "new".to_string(), None);
    assert!(!ok);
    assert_eq!(v[0], item("a", Some("d"), false));
}

#[test]
fn done_by_index_sets_flag() {
    let mut v = vec![item("a", None, false), item("b", None, false)];
    let r = done(&mut v, TodoPicker::Index(1));
    assert_eq!(r, Some(1));
    assert!(!v[0].done);
    assert!(v[1].done);
}

#[test]
fn done_prefix_is_case_insensitive() {
    let mut v = vec![item("Buy milk", None, false)];
    let r = done(&mut v, TodoPicker::Title("bUY".to_string()));
    assert_eq!(r, Some(0));
    assert!(v[0].done);
}

#[test]
fn prefix_tie_break_done_takes_last_delete_takes_first() {
    let mut v = vec![item("Buy milk", None, false), item("Buy bread", None, false)];
    let r = done(&mut v, TodoPicker::Title("buy".to_string()));
    assert_eq!(r, Some(1));
    assert!(!v[0].done);
    assert!(v[1].done);

    let mut w = vec![item("Buy milk", None, false), item("Buy bread", None, true)];
    let removed = delete(&mut w, TodoPicker::Title("buy".to_string()));
    assert_eq!(removed, Some(item("Buy milk", None, false)));
    assert_eq!(w, vec![item("Buy bread", None, true)]);
}

#[test]
fn toggle_twice_is_idempotent() {
    let mut v = vec![item("a", None, false), item("ab", None, true)];
    done(&mut v, TodoPicker::Title("a".to_string()));
    let after_once = v.clone();
    done(&mut v, TodoPicker::Title("a".to_string()));
    assert_eq!(v, after_once);
}

#[test]
fn toggle_then_untoggle_restores_flag() {
    let mut v = vec![item("a", None, false)];
    done(&mut v, TodoPicker::Index(0));
    assert!(v[0].done);
    undone(&mut v, TodoPicker::Index(0));
    assert!(!v[0].done);
}

#[test]
fn done_toggler_can_set_both_ways() {
    let mut v = vec![item("a", None, true)];
    let r = done_toggler(&mut v, TodoPicker::Index(0), false);
    assert_eq!(r, Some(0));
    assert!(!v[0].done);
}

#[test]
fn unresolved_selector_changes_nothing() {
    let mut v = vec![item("a", None, false), item("b", None, true)];
    let before = encode(&v);
    assert_eq!(done(&mut v, TodoPicker::Index(5)), None);
    assert_eq!(done(&mut v, TodoPicker::Title("zzz".to_string())), None);
    assert_eq!(delete(&mut v, TodoPicker::Index(5)), None);
    assert_eq!(delete(&mut v, TodoPicker::Title("zzz".to_string())), None);
    assert_eq!(encode(&v), before);
}

#[test]
fn delete_shrinks_by_one_and_keeps_order() {
    let mut v = vec![
        item("a", None, false),
        item("b", None, true),
        item("c", None, false),
    ];
    let removed = delete(&mut v, TodoPicker::Index(1));
    assert_eq!(removed, Some(item("b", None, true)));
    assert_eq!(v, vec![item("a", None, false), item("c", None, false)]);
}

#[test]
fn delete_done_removes_exactly_the_done_subset_in_order() {
    let mut v = vec![
        item("a", None, true),
        item("b", None, false),
        item("c", None, true),
        item("d", None, false),
    ];
    let removed = delete_done(&mut v);
    assert_eq!(removed, vec![item("a", None, true), item("c", None, true)]);
    assert_eq!(v, vec![item("b", None, false), item("d", None, false)]);
}

#[test]
fn delete_done_on_all_undone_removes_nothing() {
    let mut v = vec![item("a", None, false)];
    let removed = delete_done(&mut v);
    assert!(removed.is_empty());
    assert_eq!(v, vec![item("a", None, false)]);
}

#[test]
fn picker_parses_index_or_title() {
    assert_eq!(parse_picker("5".to_string()), TodoPicker::Index(5));
    assert_eq!(parse_picker(" +07 ".to_string()), TodoPicker::Index(7));
    assert_eq!(parse_picker("buy".to_string()), TodoPicker::Title("buy".to_string()));
    assert_eq!(parse_picker("".to_string()), TodoPicker::Title("".to_string()));
    assert_eq!(parse_picker("-1".to_string()), TodoPicker::Title("-1".to_string()));
    assert_eq!(
        parse_picker("99999999999999999999999999".to_string()),
        TodoPicker::Title("99999999999999999999999999".to_string())
    );
}

#[test]
fn parse_usize_token_trims_and_bounds() {
    assert_eq!(parse_usize_token("  42\t"), Some(42));
    assert_eq!(parse_usize_token("0007"), Some(7));
    assert_eq!(parse_usize_token(&usize::MAX.to_string()), Some(usize::MAX));
    assert_eq!(parse_usize_token("18446744073709551616"), None);
    assert_eq!(parse_usize_token("4x"), None);
    assert_eq!(parse_usize_token("+"), None);
    assert_eq!(parse_usize_token(""), None);
}

fn args(words: &[&str]) -> Vec<String> {
    words.iter().map(|w| w.to_string()).collect()
}

#[test]
fn command_classification() {
    assert_eq!(parse_command(&args(&[])), Command::List);
    assert_eq!(parse_command(&args(&["what"])), Command::Unknown("what".to_string()));
    assert_eq!(
        parse_command(&args(&["add", "Buy", "milk"])),
        Command::Add("Buy milk".to_string())
    );
    assert_eq!(
        parse_command(&args(&["edit", "2", "new", "title"])),
        Command::Edit(2, "new title".to_string())
    );
    assert_eq!(parse_command(&args(&["edit", "x", "t"])), Command::EditBadIndex);
    assert_eq!(
        parse_command(&args(&["done", "1"])),
        Command::Done(TodoPicker::Index(1))
    );
    assert_eq!(
        parse_command(&args(&["undone", "milk"])),
        Command::Undone(TodoPicker::Title("milk".to_string()))
    );
    assert_eq!(
        parse_command(&args(&["delete", "milk"])),
        Command::Delete(TodoPicker::Title("milk".to_string()))
    );
    assert_eq!(parse_command(&args(&["delete", "done"])), Command::DeleteDone);
    assert_eq!(parse_command(&args(&["frobnicate", "x"])), Command::Usage);
}

#[test]
fn end_to_end_add_done_delete_done() {
    let mut v: Vec<Item> = decode("[]").unwrap();
    assert!(v.is_empty());

    let out = apply(&mut v, parse_command(&args(&["add", "Milk"])));
    assert_eq!(out, Outcome::Highlight(0));
    assert_eq!(v, vec![item("Milk", None, false)]);

    let out = apply(&mut v, parse_command(&args(&["done", "0"])));
    assert_eq!(out, Outcome::Highlight(0));
    assert_eq!(v, vec![item("Milk", None, true)]);

    let out = apply(&mut v, parse_command(&args(&["delete", "done"])));
    assert_eq!(out, Outcome::Removed(vec![item("Milk", None, true)]));
    assert!(v.is_empty());
    assert_eq!(encode(&v), "[]");
}

#[test]
fn apply_soft_errors_change_nothing() {
    let mut v = vec![item("a", None, false)];
    let before = encode(&v);
    assert_eq!(apply(&mut v, Command::Edit(9, "t".to_string())), Outcome::EditWhat);
    assert_eq!(
        apply(&mut v, Command::Done(TodoPicker::Title("zzz".to_string()))),
        Outcome::DoneWhat
    );
    assert_eq!(
        apply(&mut v, Command::Delete(TodoPicker::Index(7))),
        Outcome::DeleteWhat
    );
    assert_eq!(apply(&mut v, Command::EditBadIndex), Outcome::BadIndex);
    assert_eq!(apply(&mut v, Command::Usage), Outcome::Usage);
    assert_eq!(encode(&v), before);
}

#[test]
fn render_lines() {
    assert_eq!(item("Milk", None, true).render(), "[x] Milk ");
    assert_eq!(item("Call mom", None, false).render(), "[ ] Call mom ");
    assert_eq!(
        item("Pay rent", Some("friday"), false).render(),
        "[ ] Pay rent (friday)"
    );
}
