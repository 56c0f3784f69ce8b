use lico::ir::item::{ScopeIndex, Symbol};
use lico::position::get_line_column_range;

#[test]
fn line_column_on_first_line() {
    assert_eq!(get_line_column_range("ab\ncd", 0..1), Some(((1, 0), (1, 1))));
}

#[test]
fn line_column_on_later_lines() {
    // A position on the last line is counted from the start of the line before it.
    assert_eq!(get_line_column_range("ab\ncd", 3..5), Some(((1, 3), (1, 5))));
    assert_eq!(get_line_column_range("a\nb\nc", 2..4), Some(((2, 0), (2, 2))));
    assert_eq!(get_line_column_range("a\nb\nc", 0..2), Some(((1, 0), (2, 0))));
}

#[test]
fn line_column_out_of_range() {
    assert_eq!(get_line_column_range("ab\ncd", 5..5), None);
    assert_eq!(get_line_column_range("ab\ncd", 0..6), None);
    assert_eq!(get_line_column_range("ab\ncd", 2..1), None);
    assert_eq!(get_line_column_range("", 0..0), None);
}

#[test]
fn line_column_counts_bytes_of_line_starts() {
    // Line starts are byte offsets; spans are char positions.
    assert_eq!(get_line_column_range("é\nx", 2..3), Some(((1, 2), (1, 3))));
}

#[test]
fn scope_index_numbers() {
    let s = ScopeIndex::new();
    assert_eq!(s.as_u32(), 1);
    assert_eq!(s.make_next().as_u32(), 2);
    assert_eq!(s.make_next().make_next().as_u32(), 3);
    assert_eq!(ScopeIndex::default(), s);
}

#[test]
fn symbol_parts() {
    let scope = ScopeIndex::new().make_next();
    let sym = Symbol::new("x".to_string(), scope);
    assert_eq!(sym.text(), "x");
    assert_eq!(sym.scope(), scope);
    assert_eq!(sym.clone(), sym);
}
