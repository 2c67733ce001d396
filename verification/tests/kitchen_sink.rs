use arcdps_example_plugin::{
    compare_i32, compare_rows, compare_text, decimal_string, initial_rows, label, last_drop,
    push_decimal, selection_item, signed_string, sort_rows, Comparison, State, TableRow,
    INITIAL_ROW_COUNT, SELECTION_COUNT, SLOT_COUNT,
};
use std::cmp::Ordering;

fn row(name: &str, value: i32, ratio_eighths: i32) -> TableRow {
    TableRow { name: name.to_string(), value, ratio_eighths }
}

fn summary(rows: &[TableRow]) -> Vec<(String, i32, i32)> {
    rows.iter().map(|r| (r.name.clone(), r.value, r.ratio_eighths)).collect()
}

fn to_ordering(c: Comparison) -> Ordering {
    match c {
        Comparison::Less => Ordering::Less,
        Comparison::Equal => Ordering::Equal,
        Comparison::Greater => Ordering::Greater,
    }
}

/// The sort the table header triggers, written with std's stable `sort_by`.
fn reference_sort(rows: &mut Vec<TableRow>, col: usize, ascending: bool) {
    rows.sort_by(|a, b| {
        let ord = match col {
            0 => a.name.cmp(&b.name),
            1 => a.value.cmp(&b.value),
            _ => a.ratio_eighths.cmp(&b.ratio_eighths),
        };
        if ascending { ord } else { ord.reverse() }
    });
}

fn sample_rows() -> Vec<TableRow> {
    vec![
        row("delta", 3, 5),
        row("alpha", 7, 1),
        row("charlie", 3, 5),
        row("bravo", -2, 0),
        row("alpha", 1, 8),
        row("écho", 7, 2),
        row("row 10", 3, 1),
        row("row 2", 0, 5),
    ]
}

#[test]
fn decimal_string_writes_digits() {
    assert_eq!(decimal_string(0), "0");
    assert_eq!(decimal_string(7), "7");
    assert_eq!(decimal_string(10), "10");
    assert_eq!(decimal_string(1234567890), "1234567890");
    assert_eq!(decimal_string(u64::MAX), u64::MAX.to_string());
}

#[test]
fn signed_string_matches_format() {
    for v in [0, 5, -5, 42, -42, 1000, i32::MAX, i32::MIN, -1] {
        assert_eq!(signed_string(v), format!("{}", v));
    }
}

#[test]
fn label_prefixes_the_number() {
    assert_eq!(label("row ", 3), "row 3");
    assert_eq!(label("slot ", 12), "slot 12");
    assert_eq!(label("", 0), "0");
    let mut s = String::from("frame_count = ");
    push_decimal(&mut s, 905);
    assert_eq!(s, "frame_count = 905");
}

#[test]
fn compare_text_agrees_with_str_order() {
    let words = ["", "a", "ab", "abc", "abd", "b", "row 10", "row 2", "é", "z", "Z", "écho", "e"];
    for a in words {
        for b in words {
            assert_eq!(to_ordering(compare_text(a, b)), a.cmp(b), "{a:?} vs {b:?}");
        }
    }
    assert_eq!(compare_text("row 10", "row 2"), Comparison::Less);
    assert_eq!(compare_text("é", "z"), Comparison::Greater);
}

#[test]
fn compare_i32_orders_integers() {
    assert_eq!(compare_i32(-3, 2), Comparison::Less);
    assert_eq!(compare_i32(2, 2), Comparison::Equal);
    assert_eq!(compare_i32(i32::MAX, i32::MIN), Comparison::Greater);
    assert_eq!(Comparison::Less.reverse(), Comparison::Greater);
    assert_eq!(Comparison::Equal.reverse(), Comparison::Equal);
}

#[test]
fn compare_rows_uses_column_and_direction() {
    let a = row("alpha", 9, 1);
    let b = row("beta", 2, 1);
    assert_eq!(compare_rows(&a, &b, 0, true), Comparison::Less);
    assert_eq!(compare_rows(&a, &b, 0, false), Comparison::Greater);
    assert_eq!(compare_rows(&a, &b, 1, true), Comparison::Greater);
    assert_eq!(compare_rows(&a, &b, 1, false), Comparison::Less);
    assert_eq!(compare_rows(&a, &b, 2, true), Comparison::Equal);
    assert_eq!(compare_rows(&a, &b, 7, false), Comparison::Equal);
}

#[test]
fn initial_rows_are_numbered() {
    let rows = initial_rows();
    assert_eq!(rows.len(), INITIAL_ROW_COUNT);
    for (i, r) in rows.iter().enumerate() {
        assert_eq!(r.name, format!("row {i}"));
        assert_eq!(r.value, i as i32 * 7);
        assert_eq!(r.ratio_eighths, i as i32);
    }
}

#[test]
fn sort_matches_stable_sort_by_for_every_column() {
    for col in 0..4usize {
        for ascending in [true, false] {
            let mut mine = sample_rows();
            let mut theirs = sample_rows();
            sort_rows(&mut mine, col, ascending);
            reference_sort(&mut theirs, col, ascending);
            assert_eq!(summary(&mine), summary(&theirs), "column {col}, ascending {ascending}");
        }
    }
}

#[test]
fn sort_by_value_is_stable() {
    let mut rows = sample_rows();
    sort_rows(&mut rows, 1, true);
    let names: Vec<&str> = rows.iter().map(|r| r.name.as_str()).collect();
    assert_eq!(names, ["bravo", "row 2", "alpha", "delta", "charlie", "row 10", "alpha", "écho"]);
    let mut rows = sample_rows();
    sort_rows(&mut rows, 1, false);
    let names: Vec<&str> = rows.iter().map(|r| r.name.as_str()).collect();
    assert_eq!(names, ["alpha", "écho", "delta", "charlie", "row 10", "alpha", "row 2", "bravo"]);
}

#[test]
fn sort_by_name_descending_reverses_initial_rows() {
    let mut rows = initial_rows();
    sort_rows(&mut rows, 0, false);
    let names: Vec<String> = rows.iter().map(|r| r.name.clone()).collect();
    let expected: Vec<String> = (0..8).rev().map(|i| format!("row {i}")).collect();
    assert_eq!(names, expected);
}

#[test]
fn sorting_sorted_rows_changes_nothing() {
    let mut rows = sample_rows();
    sort_rows(&mut rows, 2, false);
    let once = summary(&rows);
    sort_rows(&mut rows, 2, false);
    assert_eq!(summary(&rows), once);
    let mut initial = initial_rows();
    sort_rows(&mut initial, 1, true);
    assert_eq!(summary(&initial), summary(&initial_rows()));
}

#[test]
fn sort_of_empty_and_single() {
    let mut empty: Vec<TableRow> = Vec::new();
    sort_rows(&mut empty, 0, true);
    assert!(empty.is_empty());
    let mut one = vec![row("x", 1, 1)];
    sort_rows(&mut one, 1, false);
    assert_eq!(summary(&one), vec![("x".to_string(), 1, 1)]);
}

#[test]
fn default_state_holds_initial_values() {
    let s = State::default();
    assert!(s.open && s.show_demo && s.show_kitchen && s.checkbox);
    assert!(!s.show_metrics && !s.show_about && !s.show_style_editor && !s.show_user_guide);
    assert!(!s.tree_open);
    assert_eq!(s.text_buf, "hello arcdps");
    assert_eq!(s.multiline_buf, "line one\nline two\n");
    assert_eq!(s.password_buf, "");
    assert_eq!(s.hint_buf, "");
    assert_eq!(s.last_tab, "");
    assert_eq!(s.int_val, 42);
    assert_eq!(s.slider_i, 50);
    assert_eq!(s.drag_arr, [1, 2, 3, 4]);
    assert_eq!(s.flag_bits, 0b0010);
    assert_eq!(s.radio, 0);
    assert_eq!(s.combo_idx, 0);
    assert_eq!(s.list_idx, 0);
    assert_eq!(s.selectable_idx, -1);
    assert_eq!(s.dnd_slots, [0xff_00_00_ff, 0xff_00_ff_00, 0xff_ff_00_00]);
    assert_eq!(summary(&s.table_rows), summary(&initial_rows()));
}

#[test]
fn reset_restores_initial_values() {
    let mut s = State::default();
    s.text_buf = String::from("changed");
    s.int_val = -7;
    s.show_metrics = true;
    s.select_combo(3);
    s.apply_drop(Some((1, 0x12345678)));
    s.sort_table(0, false);
    s.reset();
    let fresh = State::default();
    assert_eq!(s.text_buf, fresh.text_buf);
    assert_eq!(s.int_val, fresh.int_val);
    assert_eq!(s.show_metrics, fresh.show_metrics);
    assert_eq!(s.combo_idx, fresh.combo_idx);
    assert_eq!(s.dnd_slots, fresh.dnd_slots);
    assert_eq!(summary(&s.table_rows), summary(&fresh.table_rows));
}

#[test]
fn selection_updates_and_preview() {
    let names: Vec<&str> = (0..SELECTION_COUNT).map(selection_item).collect();
    assert_eq!(names, ["alpha", "beta", "gamma", "delta", "epsilon"]);
    let mut s = State::default();
    assert_eq!(s.combo_preview(), "alpha");
    s.select_combo(2);
    assert_eq!(s.combo_idx, 2);
    assert_eq!(s.combo_preview(), "gamma");
    s.select_list(4);
    assert_eq!(s.list_idx, 4);
    s.select_selectable(0);
    assert_eq!(s.selectable_idx, 0);
    assert_eq!(s.combo_idx, 2);
}

#[test]
fn last_drop_takes_the_last_accepted_slot() {
    assert_eq!(last_drop(&[None, None, None]), None);
    assert_eq!(last_drop(&[]), None);
    assert_eq!(last_drop(&[None, Some(5), None]), Some((1, 5)));
    assert_eq!(last_drop(&[Some(1), None, Some(9)]), Some((2, 9)));
}

#[test]
fn apply_drop_recolours_one_slot() {
    let mut s = State::default();
    s.apply_drop(None);
    assert_eq!(s.dnd_slots, [0xff_00_00_ff, 0xff_00_ff_00, 0xff_ff_00_00]);
    s.apply_drop(Some((2, 0xff_00_00_ff)));
    assert_eq!(s.dnd_slots, [0xff_00_00_ff, 0xff_00_ff_00, 0xff_00_00_ff]);
    assert_eq!(SLOT_COUNT, 3);
}

#[test]
fn paste_takes_clipboard_text() {
    let mut s = State::default();
    s.paste(None);
    assert_eq!(s.text_buf, "hello arcdps");
    s.paste(Some(String::from("from clipboard")));
    assert_eq!(s.text_buf, "from clipboard");
}
