use outliner::edit::{
    adjust_indent, byte_offset_to_column, clamp_caret_column, current_caret_column,
    duplicate_subtree, handle_backspace, handle_backspace_on_empty, handle_enter, handle_input,
    handle_keydown, has_children, indent_subtree, insert_after, insert_root_line, is_visible,
    merge_with_previous, move_caret_vertical, move_single_line, move_subtree, selected_line_range,
    subtree_range, toggle_checkbox, visible_nodes, EditKey, MoveDirection,
};
use outliner::model::{Document, SelectionRange};

fn doc(lines: &[(&str, usize)]) -> Document {
    let blob = lines
        .iter()
        .map(|(text, indent)| format!("{}{}", "\t".repeat(*indent), text))
        .collect::<Vec<_>>()
        .join("\n");
    Document::from_text(&blob)
}

fn shape(d: &Document) -> Vec<(String, usize)> {
    d.lines.iter().map(|l| (l.text.clone(), l.indent)).collect()
}

#[test]
fn subtree_range_covers_deeper_lines() {
    let d = doc(&[("a", 0), ("b", 1), ("c", 2), ("d", 1), ("e", 0)]);
    assert_eq!(subtree_range(&d.lines, 0), (0, 4));
    assert_eq!(subtree_range(&d.lines, 1), (1, 3));
    assert_eq!(subtree_range(&d.lines, 2), (2, 3));
    assert_eq!(subtree_range(&d.lines, 4), (4, 5));
}

#[test]
fn subtree_range_end_is_len_or_shallower_line() {
    let d = doc(&[("a", 0), ("b", 2), ("c", 1), ("d", 0)]);
    for start in 0..d.lines.len() {
        let (s, e) = subtree_range(&d.lines, start);
        assert_eq!(s, start);
        assert!(e - s >= 1);
        assert!(e == d.lines.len() || d.lines[e].indent <= d.lines[start].indent);
    }
}

#[test]
fn has_children_checks_next_line() {
    let d = doc(&[("Item A", 0), ("Item B", 1)]);
    assert!(has_children(&d.lines, 0));
    assert!(!has_children(&d.lines, 1));
    assert!(!has_children(&d.lines, 7));
}

#[test]
fn collapsing_hides_descendants_from_visible_nodes() {
    let mut d = doc(&[("Item A", 0), ("Item B", 1)]);
    assert!(is_visible(&d.lines, 0));
    assert!(is_visible(&d.lines, 1));
    d.lines[0].collapsed = true;
    let rows = visible_nodes(&d);
    assert_eq!(rows.len(), 1);
    assert_eq!(rows[0].index, 0);
    assert_eq!(rows[0].text, "Item A");
    assert!(rows[0].collapsed);
    assert!(rows[0].has_children);
}

#[test]
fn collapsed_grandparent_hides_whole_subtree() {
    let mut d = doc(&[("a", 0), ("b", 1), ("c", 2), ("d", 0)]);
    d.lines[0].collapsed = true;
    assert!(is_visible(&d.lines, 0));
    assert!(!is_visible(&d.lines, 1));
    assert!(!is_visible(&d.lines, 2));
    assert!(is_visible(&d.lines, 3));
    let rows = visible_nodes(&d);
    let indices: Vec<usize> = rows.iter().map(|r| r.index).collect();
    assert_eq!(indices, vec![0, 3]);
}

#[test]
fn split_at_end_of_line_makes_empty_line_below() {
    let mut d = doc(&[("hello", 0)]);
    let sel = handle_enter(&mut d, 0, 5).unwrap();
    assert_eq!(shape(&d), vec![("hello".to_string(), 0), ("".to_string(), 0)]);
    assert_eq!((sel.focus.line, sel.focus.column), (1, 0));
    assert_ne!(d.lines[0].id, d.lines[1].id);
}

#[test]
fn split_mid_line_divides_text_at_character_column() {
    let mut d = doc(&[("héllo", 1)]);
    let sel = handle_enter(&mut d, 0, 2).unwrap();
    assert_eq!(
        shape(&d),
        vec![("hé".to_string(), 1), ("llo".to_string(), 1)]
    );
    assert_eq!((sel.focus.line, sel.focus.column), (1, 0));
}

#[test]
fn split_on_stale_index_is_noop() {
    let mut d = doc(&[("a", 0)]);
    let before = shape(&d);
    let next_before = d.next_id;
    assert!(handle_enter(&mut d, 5, 0).is_none());
    assert_eq!(shape(&d), before);
    assert_eq!(d.next_id, next_before);
}

#[test]
fn split_then_merge_restores_text() {
    for col in 0..=5 {
        let mut d = doc(&[("hello", 0), ("next", 1)]);
        handle_enter(&mut d, 0, col).unwrap();
        let prev_len = merge_with_previous(&mut d, 1).unwrap();
        assert_eq!(prev_len, col);
        assert_eq!(
            shape(&d),
            vec![("hello".to_string(), 0), ("next".to_string(), 1)]
        );
    }
}

#[test]
fn backspace_at_indent_outdents_one_level() {
    let mut d = doc(&[("a", 0), ("b", 2)]);
    let sel = handle_backspace(&mut d, 1).unwrap();
    assert_eq!(d.lines.len(), 2);
    assert_eq!(d.lines[1].indent, 1);
    assert_eq!((sel.focus.line, sel.focus.column), (1, 0));
}

#[test]
fn backspace_at_root_merges_with_previous() {
    let mut d = doc(&[("ab", 0), ("cd", 0)]);
    let sel = handle_backspace(&mut d, 1).unwrap();
    assert_eq!(shape(&d), vec![("abcd".to_string(), 0)]);
    assert_eq!((sel.focus.line, sel.focus.column), (0, 2));
}

#[test]
fn backspace_on_first_root_line_is_noop() {
    let mut d = doc(&[("a", 0), ("b", 0)]);
    assert!(handle_backspace(&mut d, 0).is_none());
    assert_eq!(d.lines.len(), 2);
}

#[test]
fn outdent_stops_at_zero() {
    let mut d = doc(&[("a", 0)]);
    let sel = SelectionRange::caret(0, 0);
    for _ in 0..4 {
        adjust_indent(&mut d, &sel, false);
        assert_eq!(d.lines[0].indent, 0);
    }
}

#[test]
fn indent_shift_covers_selected_line_range() {
    let mut d = doc(&[("a", 0), ("b", 1), ("c", 2)]);
    let mut sel = SelectionRange::caret(2, 0);
    sel.focus = outliner::model::CaretPosition { line: 1, column: 0 };
    assert_eq!(selected_line_range(&d, &sel), (1, 3));
    adjust_indent(&mut d, &sel, true);
    assert_eq!(
        d.lines.iter().map(|l| l.indent).collect::<Vec<_>>(),
        vec![0, 2, 3]
    );
}

#[test]
fn insert_root_line_ignores_current_indent() {
    let mut d = doc(&[("a", 0), ("b", 3)]);
    let sel = insert_root_line(&mut d, 1).unwrap();
    assert_eq!(
        shape(&d),
        vec![
            ("a".to_string(), 0),
            ("b".to_string(), 3),
            ("".to_string(), 0),
        ]
    );
    assert_eq!((sel.focus.line, sel.focus.column), (2, 0));
    assert_eq!(d.lines[2].id, 2);
    assert_eq!(d.next_id, 3);
}

#[test]
fn insert_after_carries_indent_and_clamps() {
    let mut d = doc(&[("a", 2)]);
    let pos = insert_after(&mut d.lines, 0, 77);
    assert_eq!(pos, 1);
    assert_eq!(d.lines[1].indent, 2);
    assert_eq!(d.lines[1].id, 77);
    assert_eq!(d.lines[1].text, "");
    let pos2 = insert_after(&mut d.lines, 9, 78);
    assert_eq!(pos2, 2);
    assert_eq!(d.lines[2].indent, 0);
}

#[test]
fn move_caret_vertical_clamps_and_stops_at_edges() {
    let d = doc(&[("long line", 0), ("ab", 0)]);
    assert!(move_caret_vertical(&d, 0, MoveDirection::Up, 3).is_none());
    let down = move_caret_vertical(&d, 0, MoveDirection::Down, 7).unwrap();
    assert_eq!((down.focus.line, down.focus.column), (1, 2));
    assert!(move_caret_vertical(&d, 1, MoveDirection::Down, 0).is_none());
    let up = move_caret_vertical(&d, 1, MoveDirection::Up, 1).unwrap();
    assert_eq!((up.focus.line, up.focus.column), (0, 1));
}

#[test]
fn clamp_caret_column_uses_character_count() {
    let d = doc(&[("héllo", 0)]);
    assert_eq!(clamp_caret_column(&d, 0, 3), 3);
    assert_eq!(clamp_caret_column(&d, 0, 12), 5);
    assert_eq!(clamp_caret_column(&d, 4, 12), 0);
}

#[test]
fn current_caret_column_prefers_focused_line() {
    let sel = SelectionRange::caret(1, 4);
    assert_eq!(current_caret_column(1, &sel, 9), 4);
    assert_eq!(current_caret_column(0, &sel, 9), 9);
}

#[test]
fn move_single_line_swaps_without_touching_indent() {
    let mut d = doc(&[("a", 0), ("b", 1)]);
    let sel = move_single_line(&mut d, 0, MoveDirection::Down, 1).unwrap();
    assert_eq!(shape(&d), vec![("b".to_string(), 1), ("a".to_string(), 0)]);
    assert_eq!(sel.focus.line, 1);
    assert!(move_single_line(&mut d, 1, MoveDirection::Down, 0).is_none());
    assert!(move_single_line(&mut d, 0, MoveDirection::Up, 0).is_none());
}

#[test]
fn move_subtree_swaps_sibling_blocks() {
    let mut d = doc(&[("a", 0), ("a1", 1), ("b", 0), ("b1", 1), ("b2", 1)]);
    let sel = move_subtree(&mut d, 0, MoveDirection::Down, 0).unwrap();
    assert_eq!(
        shape(&d),
        vec![
            ("b".to_string(), 0),
            ("b1".to_string(), 1),
            ("b2".to_string(), 1),
            ("a".to_string(), 0),
            ("a1".to_string(), 1),
        ]
    );
    assert_eq!(sel.focus.line, 3);
    let sel2 = move_subtree(&mut d, 3, MoveDirection::Up, 0).unwrap();
    assert_eq!(
        shape(&d),
        vec![
            ("a".to_string(), 0),
            ("a1".to_string(), 1),
            ("b".to_string(), 0),
            ("b1".to_string(), 1),
            ("b2".to_string(), 1),
        ]
    );
    assert_eq!(sel2.focus.line, 0);
}

#[test]
fn move_subtree_without_sibling_is_noop() {
    let mut d = doc(&[("a", 0), ("a1", 1)]);
    assert!(move_subtree(&mut d, 0, MoveDirection::Up, 0).is_none());
    assert!(move_subtree(&mut d, 0, MoveDirection::Down, 0).is_none());
    assert!(move_subtree(&mut d, 1, MoveDirection::Down, 0).is_none());
    assert_eq!(shape(&d), vec![("a".to_string(), 0), ("a1".to_string(), 1)]);
}

#[test]
fn move_subtree_skips_deeper_lines_when_searching_up() {
    let mut d = doc(&[("a", 0), ("a1", 1), ("a2", 1), ("b", 0)]);
    let sel = move_subtree(&mut d, 3, MoveDirection::Up, 0).unwrap();
    assert_eq!(
        shape(&d),
        vec![
            ("b".to_string(), 0),
            ("a".to_string(), 0),
            ("a1".to_string(), 1),
            ("a2".to_string(), 1),
        ]
    );
    assert_eq!(sel.focus.line, 0);
}

#[test]
fn duplicate_subtree_clones_block_with_fresh_ids() {
    let mut d = doc(&[("a", 0), ("a1", 1), ("b", 0)]);
    let old_ids: Vec<u64> = d.lines.iter().map(|l| l.id).collect();
    let old_next = d.next_id;
    let sel = duplicate_subtree(&mut d, 0, MoveDirection::Down, 0).unwrap();
    assert_eq!(
        shape(&d),
        vec![
            ("a".to_string(), 0),
            ("a1".to_string(), 1),
            ("a".to_string(), 0),
            ("a1".to_string(), 1),
            ("b".to_string(), 0),
        ]
    );
    assert_eq!(sel.focus.line, 2);
    assert_eq!(d.next_id, old_next + 2);
    let clone_ids = [d.lines[2].id, d.lines[3].id];
    for id in clone_ids {
        assert!(!old_ids.contains(&id));
    }
    assert_ne!(clone_ids[0], clone_ids[1]);
}

#[test]
fn duplicate_subtree_up_inserts_before_block() {
    let mut d = doc(&[("a", 0), ("a1", 1)]);
    let sel = duplicate_subtree(&mut d, 0, MoveDirection::Up, 0).unwrap();
    assert_eq!(d.lines.len(), 4);
    assert_eq!(sel.focus.line, 0);
    assert_eq!(d.lines[0].text, "a");
    assert_eq!(d.lines[1].text, "a1");
}

#[test]
fn backspace_on_empty_line_removes_subtree() {
    let mut d = doc(&[("a", 0), ("", 0), ("kid", 1), ("z", 0)]);
    let focus = handle_backspace_on_empty(&mut d.lines, 1);
    assert_eq!(focus, Some(0));
    assert_eq!(shape(&d), vec![("a".to_string(), 0), ("z".to_string(), 0)]);
}

#[test]
fn backspace_on_empty_keeps_last_line_and_skips_nonempty() {
    let mut d = doc(&[("only", 0)]);
    assert_eq!(handle_backspace_on_empty(&mut d.lines, 0), None);
    let mut e = Document::from_text("");
    assert_eq!(handle_backspace_on_empty(&mut e.lines, 0), Some(0));
    assert_eq!(e.lines.len(), 1);
}

#[test]
fn indent_subtree_shifts_block_and_respects_floor() {
    let mut d = doc(&[("a", 0), ("a1", 1), ("b", 0)]);
    indent_subtree(&mut d.lines, 0, 1);
    assert_eq!(
        d.lines.iter().map(|l| l.indent).collect::<Vec<_>>(),
        vec![1, 2, 0]
    );
    indent_subtree(&mut d.lines, 0, -1);
    assert_eq!(
        d.lines.iter().map(|l| l.indent).collect::<Vec<_>>(),
        vec![0, 1, 0]
    );
    // outdenting a root-level line is a no-op for the whole subtree
    indent_subtree(&mut d.lines, 0, -1);
    assert_eq!(
        d.lines.iter().map(|l| l.indent).collect::<Vec<_>>(),
        vec![0, 1, 0]
    );
}

#[test]
fn handle_input_sets_text_and_converts_byte_offset() {
    let mut d = doc(&[("old", 0)]);
    let sel = handle_input(&mut d, 0, "héllo".to_string(), 3);
    assert_eq!(d.lines[0].text, "héllo");
    assert_eq!((sel.focus.line, sel.focus.column), (0, 2));
    let sel2 = handle_input(&mut d, 9, "ignored".to_string(), 0);
    assert_eq!(d.lines.len(), 1);
    assert_eq!(d.lines[0].text, "héllo");
    assert_eq!(sel2.focus.line, 9);
}

#[test]
fn byte_offset_to_column_clamps() {
    assert_eq!(byte_offset_to_column("héllo", 0), 0);
    assert_eq!(byte_offset_to_column("héllo", 1), 1);
    assert_eq!(byte_offset_to_column("héllo", 3), 2);
    assert_eq!(byte_offset_to_column("héllo", 99), 5);
}

#[test]
fn toggle_checkbox_flips_prefix() {
    let mut d = doc(&[("[ ] task", 0)]);
    toggle_checkbox(&mut d, 0);
    assert_eq!(d.lines[0].text, "[x] task");
    toggle_checkbox(&mut d, 0);
    assert_eq!(d.lines[0].text, "[ ] task");
    let mut e = doc(&[("[X] caps", 0), ("plain", 0)]);
    toggle_checkbox(&mut e, 0);
    assert_eq!(e.lines[0].text, "[ ] caps");
    toggle_checkbox(&mut e, 1);
    assert_eq!(e.lines[1].text, "plain");
}

#[test]
fn keydown_enter_splits_at_caret() {
    let mut d = doc(&[("hello", 0)]);
    let sel = SelectionRange::caret(0, 5);
    let (sel2, prevented) = handle_keydown(&mut d, &sel, 0, EditKey::Enter, false, false, false);
    assert!(prevented);
    assert_eq!(shape(&d), vec![("hello".to_string(), 0), ("".to_string(), 0)]);
    assert_eq!((sel2.focus.line, sel2.focus.column), (1, 0));
}

#[test]
fn keydown_shift_enter_inserts_root_sibling() {
    let mut d = doc(&[("a", 2)]);
    let sel = SelectionRange::caret(0, 1);
    let (sel2, prevented) = handle_keydown(&mut d, &sel, 0, EditKey::Enter, true, false, false);
    assert!(prevented);
    assert_eq!(d.lines.len(), 2);
    assert_eq!(d.lines[1].indent, 0);
    assert_eq!(sel2.focus.line, 1);
}

#[test]
fn keydown_tab_indents_and_shift_tab_outdents() {
    let mut d = doc(&[("a", 1)]);
    let sel = SelectionRange::caret(0, 0);
    let (_, p1) = handle_keydown(&mut d, &sel, 0, EditKey::Tab, false, false, false);
    assert!(p1);
    assert_eq!(d.lines[0].indent, 2);
    let (_, p2) = handle_keydown(&mut d, &sel, 0, EditKey::Tab, true, false, false);
    assert!(p2);
    assert_eq!(d.lines[0].indent, 1);
}

#[test]
fn keydown_backspace_at_column_zero_outdents_indent_two() {
    let mut d = doc(&[("line", 2), ("x", 0)]);
    let sel = SelectionRange::caret(0, 0);
    let (sel2, prevented) =
        handle_keydown(&mut d, &sel, 0, EditKey::Backspace, false, false, false);
    assert!(prevented);
    assert_eq!(d.lines.len(), 2);
    assert_eq!(d.lines[0].indent, 1);
    assert_eq!((sel2.focus.line, sel2.focus.column), (0, 0));
}

#[test]
fn keydown_backspace_mid_line_is_left_to_the_field() {
    let mut d = doc(&[("line", 2)]);
    let sel = SelectionRange::caret(0, 2);
    let (sel2, prevented) =
        handle_keydown(&mut d, &sel, 0, EditKey::Backspace, false, false, false);
    assert!(!prevented);
    assert_eq!(d.lines[0].indent, 2);
    assert_eq!(sel2, sel);
}

#[test]
fn keydown_space_at_column_zero_indents() {
    let mut d = doc(&[("a", 0)]);
    let sel = SelectionRange::caret(0, 0);
    let (_, prevented) = handle_keydown(&mut d, &sel, 0, EditKey::Space, false, false, false);
    assert!(prevented);
    assert_eq!(d.lines[0].indent, 1);
    let sel_mid = SelectionRange::caret(0, 1);
    let (_, p2) = handle_keydown(&mut d, &sel_mid, 0, EditKey::Space, false, false, false);
    assert!(!p2);
    assert_eq!(d.lines[0].indent, 1);
}

#[test]
fn keydown_alt_arrows_move_subtree() {
    let mut d = doc(&[("a", 0), ("b", 0)]);
    let sel = SelectionRange::caret(0, 0);
    let (sel2, prevented) =
        handle_keydown(&mut d, &sel, 0, EditKey::ArrowDown, false, false, true);
    assert!(prevented);
    assert_eq!(shape(&d), vec![("b".to_string(), 0), ("a".to_string(), 0)]);
    assert_eq!(sel2.focus.line, 1);
}

#[test]
fn keydown_plain_arrows_move_caret() {
    let mut d = doc(&[("abc", 0), ("z", 0)]);
    let sel = SelectionRange::caret(0, 3);
    let (sel2, prevented) =
        handle_keydown(&mut d, &sel, 0, EditKey::ArrowDown, false, false, false);
    assert!(prevented);
    assert_eq!((sel2.focus.line, sel2.focus.column), (1, 1));
    let (sel3, _) = handle_keydown(&mut d, &sel, 0, EditKey::ArrowUp, false, false, false);
    assert_eq!(sel3, sel);
}

#[test]
fn keydown_ctrl_arrows_shift_indent() {
    let mut d = doc(&[("a", 0)]);
    let sel = SelectionRange::caret(0, 0);
    let (_, p) = handle_keydown(&mut d, &sel, 0, EditKey::ArrowRight, false, true, false);
    assert!(p);
    assert_eq!(d.lines[0].indent, 1);
    let (_, q) = handle_keydown(&mut d, &sel, 0, EditKey::ArrowLeft, false, true, false);
    assert!(q);
    assert_eq!(d.lines[0].indent, 0);
    let (_, r) = handle_keydown(&mut d, &sel, 0, EditKey::ArrowLeft, false, false, false);
    assert!(!r);
}

#[test]
fn keydown_alt_shift_arrows_duplicate_subtree() {
    let mut d = doc(&[("a", 0), ("a1", 1)]);
    let sel = SelectionRange::caret(0, 0);
    let (sel2, prevented) = handle_keydown(&mut d, &sel, 0, EditKey::ArrowDown, true, false, true);
    assert!(prevented);
    assert_eq!(d.lines.len(), 4);
    assert_eq!(sel2.focus.line, 2);
}

#[test]
fn toggle_collapse_flips_flag_and_visibility() {
    let mut d = doc(&[("a", 0), ("b", 1)]);
    outliner::edit::toggle_collapse(&mut d, 0);
    assert!(d.lines[0].collapsed);
    assert_eq!(visible_nodes(&d).len(), 1);
    outliner::edit::toggle_collapse(&mut d, 0);
    assert!(!d.lines[0].collapsed);
    assert_eq!(visible_nodes(&d).len(), 2);
    outliner::edit::toggle_collapse(&mut d, 9);
    assert_eq!(d.lines.len(), 2);
}
