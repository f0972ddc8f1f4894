use ty_resolver::position::lsp_position;

#[test]
fn lsp_columns_count_utf16_code_units() {
    assert_eq!(lsp_position("a😀b", "a😀".len()), (0, 3));
}

#[test]
fn lines_are_counted_by_line_feeds() {
    let source = "first\nsecond\nthird";
    assert_eq!(lsp_position(source, 0), (0, 0));
    assert_eq!(lsp_position(source, 5), (0, 5));
    assert_eq!(lsp_position(source, 6), (1, 0));
    assert_eq!(lsp_position(source, 13), (2, 0));
    assert_eq!(lsp_position(source, source.len()), (2, 5));
}

#[test]
fn carriage_returns_restart_the_column_only() {
    assert_eq!(lsp_position("ab\rcd", 5), (0, 2));
    assert_eq!(lsp_position("ab\r\ncd", 5), (1, 1));
    assert_eq!(lsp_position("ab\r\ncd", 3), (0, 0));
}

#[test]
fn offsets_that_cut_nothing_off_mean_the_end() {
    let source = "é\nxy";
    assert_eq!(lsp_position(source, 1), (1, 2));
    assert_eq!(lsp_position(source, 100), (1, 2));
    assert_eq!(lsp_position(source, usize::MAX), (1, 2));
}

#[test]
fn two_byte_characters_are_one_code_unit() {
    assert_eq!(lsp_position("éé", 2), (0, 1));
    assert_eq!(lsp_position("日本", 6), (0, 2));
    assert_eq!(lsp_position("\u{ffff}\u{10000}", 7), (0, 3));
}

#[test]
fn text_behind_the_place_does_not_matter() {
    let before = "x = 1\n  y";
    let short = format!("{before}\n");
    let long = format!("{before}😀\n\n\nend");
    assert_eq!(lsp_position(&short, before.len()), (1, 3));
    assert_eq!(lsp_position(&long, before.len()), (1, 3));
}

#[test]
fn lines_do_not_go_back() {
    let source = "a\nb\r\nc\n\n";
    let mut last = 0;
    for offset in 0..=source.len() {
        let line = lsp_position(source, offset).0;
        assert!(line >= last);
        last = line;
    }
    assert_eq!(last, 4);
}
