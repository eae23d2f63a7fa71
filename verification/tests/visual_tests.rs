use toyoterm::visual::{
    cell_category, snap_to_cell_start, visual_last_cell_column, visual_next_column,
    start_visual_mode, visual_line_end_column, visual_next_word, visual_prev_column, visual_prev_word, CharCategory,
    SelectionMotion, VisualCell, VisualEffects, VisualPosition, VisualSnapshot,
};

/// A screen showing `lines`, with East Asian ideographs two columns wide.
fn snapshot(columns: u16, rows: u16, lines: &[&str]) -> VisualSnapshot {
    let mut cells = Vec::new();
    for row in 0..rows as usize {
        let line = lines.get(row).copied().unwrap_or("");
        let mut column = 0u16;
        let mut row_cells = Vec::new();
        for character in line.chars() {
            let width: u8 = if (character as u32) >= 0x2e80 { 2 } else { 1 };
            row_cells.push(VisualCell {
                column,
                width,
                category: cell_category(Some(character)),
            });
            column += u16::from(width);
        }
        cells.push(row_cells);
    }
    VisualSnapshot {
        columns,
        rows,
        cells,
    }
}

#[test]
fn visual_navigation_navigates_wide_characters_and_clamps_boundaries() {
    let snapshot = snapshot(20, 3, &["short", "wide: 猫犬"]);

    assert_eq!(snap_to_cell_start(&snapshot, 1, 6), 6);
    assert_eq!(snap_to_cell_start(&snapshot, 1, 7), 6);
    assert_eq!(snap_to_cell_start(&snapshot, 1, 8), 8);
    assert_eq!(snap_to_cell_start(&snapshot, 1, 9), 8);
    assert_eq!(snap_to_cell_start(&snapshot, 1, 15), 8);
    assert_eq!(snap_to_cell_start(&snapshot, 2, 5), 0);

    assert_eq!(visual_next_column(&snapshot, 0, 0), 1);
    assert_eq!(visual_next_column(&snapshot, 0, 3), 4);
    assert_eq!(visual_next_column(&snapshot, 0, 4), 4);
    assert_eq!(visual_next_column(&snapshot, 1, 5), 6);
    assert_eq!(visual_next_column(&snapshot, 1, 6), 8);
    assert_eq!(visual_next_column(&snapshot, 1, 8), 8);

    assert_eq!(visual_prev_column(&snapshot, 0, 4), 3);
    assert_eq!(visual_prev_column(&snapshot, 0, 1), 0);
    assert_eq!(visual_prev_column(&snapshot, 0, 0), 0);
    assert_eq!(visual_prev_column(&snapshot, 1, 8), 6);
    assert_eq!(visual_prev_column(&snapshot, 1, 6), 5);

    assert_eq!(visual_last_cell_column(&snapshot, 0), 4);
    assert_eq!(visual_last_cell_column(&snapshot, 1), 8);
    assert_eq!(visual_last_cell_column(&snapshot, 2), 0);
}

#[test]
fn visual_word_navigation_navigates_words_punctuation_empty_lines_and_wide_chars() {
    let snapshot = snapshot(30, 4, &["hello   world foo.bar", "", "  wide: 猫 犬"]);

    assert_eq!(visual_next_word(&snapshot, 0, 0), (8, 0));
    assert_eq!(visual_next_word(&snapshot, 0, 2), (8, 0));
    assert_eq!(visual_next_word(&snapshot, 0, 5), (8, 0));
    assert_eq!(visual_next_word(&snapshot, 0, 8), (14, 0));
    assert_eq!(visual_next_word(&snapshot, 0, 14), (17, 0));
    assert_eq!(visual_next_word(&snapshot, 0, 17), (18, 0));

    assert_eq!(visual_next_word(&snapshot, 0, 18), (0, 1));
    assert_eq!(visual_next_word(&snapshot, 0, 20), (0, 1));

    assert_eq!(visual_next_word(&snapshot, 1, 0), (2, 2));

    assert_eq!(visual_next_word(&snapshot, 2, 2), (6, 2));
    assert_eq!(visual_next_word(&snapshot, 2, 6), (8, 2));
    assert_eq!(visual_next_word(&snapshot, 2, 8), (11, 2));

    assert_eq!(visual_next_word(&snapshot, 2, 11), (0, 3));
    assert_eq!(visual_next_word(&snapshot, 3, 0), (0, 3));

    assert_eq!(visual_prev_word(&snapshot, 3, 0), (11, 2));
    assert_eq!(visual_prev_word(&snapshot, 2, 11), (8, 2));
    assert_eq!(visual_prev_word(&snapshot, 2, 8), (6, 2));
    assert_eq!(visual_prev_word(&snapshot, 2, 6), (2, 2));
    assert_eq!(visual_prev_word(&snapshot, 2, 2), (0, 1));
    assert_eq!(visual_prev_word(&snapshot, 1, 0), (18, 0));
    assert_eq!(visual_prev_word(&snapshot, 0, 20), (18, 0));
    assert_eq!(visual_prev_word(&snapshot, 0, 18), (17, 0));
    assert_eq!(visual_prev_word(&snapshot, 0, 17), (14, 0));
    assert_eq!(visual_prev_word(&snapshot, 0, 14), (8, 0));
    assert_eq!(visual_prev_word(&snapshot, 0, 8), (0, 0));
    assert_eq!(visual_prev_word(&snapshot, 0, 0), (0, 0));
}

#[test]
fn cells_are_classified_by_their_first_character() {
    assert_eq!(cell_category(None), CharCategory::Whitespace);
    assert_eq!(cell_category(Some(' ')), CharCategory::Whitespace);
    assert_eq!(cell_category(Some('\u{3000}')), CharCategory::Whitespace);
    assert_eq!(cell_category(Some('a')), CharCategory::Word);
    assert_eq!(cell_category(Some('_')), CharCategory::Word);
    assert_eq!(cell_category(Some('猫')), CharCategory::Word);
    assert_eq!(cell_category(Some('.')), CharCategory::Punctuation);
}

#[test]
fn visual_selection_moves_by_motion_and_scrolls_at_the_edges() {
    let screen = snapshot(20, 3, &["short", "wide: 猫犬", "x"]);
    let mut visual = start_visual_mode(&screen, VisualPosition { column: 9, row: 5 });
    assert_eq!(visual.anchor, None);
    assert_eq!(visual.current, VisualPosition { column: 0, row: 2 });

    let mut visual = start_visual_mode(&screen, VisualPosition { column: 9, row: 1 });
    assert_eq!(visual.current, VisualPosition { column: 8, row: 1 });
    let effects = visual.move_visual_selection(&screen, SelectionMotion::Left);
    assert_eq!(effects, VisualEffects { scroll: 0, update_selection: false });
    assert_eq!(visual.current, VisualPosition { column: 6, row: 1 });

    visual.select_visual_selection();
    assert_eq!(visual.anchor, Some(VisualPosition { column: 6, row: 1 }));
    let effects = visual.move_visual_selection(&screen, SelectionMotion::Up);
    assert_eq!(effects, VisualEffects { scroll: 0, update_selection: true });
    assert_eq!(visual.current, VisualPosition { column: 4, row: 0 });
    let effects = visual.move_visual_selection(&screen, SelectionMotion::Up);
    assert_eq!(effects, VisualEffects { scroll: 1, update_selection: true });
    assert_eq!(visual.current, VisualPosition { column: 4, row: 0 });

    let effects = visual.move_visual_selection(&screen, SelectionMotion::LineStart);
    assert_eq!(effects.scroll, 0);
    assert_eq!(visual.current, VisualPosition { column: 0, row: 0 });
    visual.move_visual_selection(&screen, SelectionMotion::LineEnd);
    assert_eq!(visual.current, VisualPosition { column: 4, row: 0 });
    visual.move_visual_selection(&screen, SelectionMotion::Right);
    assert_eq!(visual.current, VisualPosition { column: 4, row: 0 });
    visual.move_visual_selection(&screen, SelectionMotion::Down);
    visual.move_visual_selection(&screen, SelectionMotion::Down);
    assert_eq!(visual.current, VisualPosition { column: 0, row: 2 });
    let effects = visual.move_visual_selection(&screen, SelectionMotion::Down);
    assert_eq!(effects, VisualEffects { scroll: -1, update_selection: true });
    assert_eq!(visual.current, VisualPosition { column: 0, row: 2 });

    let mut words = start_visual_mode(&screen, VisualPosition { column: 0, row: 1 });
    words.move_visual_selection(&screen, SelectionMotion::WordForward);
    assert_eq!(words.current, VisualPosition { column: 4, row: 1 });
    words.move_visual_selection(&screen, SelectionMotion::WordBackward);
    assert_eq!(words.current, VisualPosition { column: 0, row: 1 });
}

#[test]
fn visual_line_end_stops_at_the_last_content_cell() {
    let snapshot = snapshot(20, 2, &["short", "wide: 猫"]);

    assert_eq!(visual_line_end_column(&snapshot, 0), 4);
    assert_eq!(visual_line_end_column(&snapshot, 1), 7);
    assert_eq!(visual_line_end_column(&snapshot, 5), 0);
    let narrow = snapshot_cols(3);
    assert_eq!(visual_line_end_column(&narrow, 0), 2);
}

fn snapshot_cols(columns: u16) -> VisualSnapshot {
    snapshot(columns, 1, &["abcdef"])
}
