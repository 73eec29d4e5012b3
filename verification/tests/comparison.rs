use port_scanner::comparison::{comparison_table_lines, comparisons, push_padded};

#[test]
fn rows_are_padded_like_the_format_string() {
    for c in comparisons() {
        let expected = format!(
            "| {:<8} | {:<14} | {:<14} | {:<12} | {:<10} |",
            c.language, c.buffer_overflow, c.use_after_free, c.data_race, c.null_deref
        );
        assert_eq!(c.row(), expected);
    }
}

#[test]
fn first_row() {
    let rows = comparisons();
    assert_eq!(rows.len(), 4);
    assert_eq!(rows[0].language, "Rust");
    assert_eq!(rows[3].language, "Python");
    let cell = "✅ 可能";
    let expected = format!(
        "| C{} | {}{} | {}{} | {}{} | {}{} |",
        " ".repeat(7),
        cell,
        " ".repeat(10),
        cell,
        " ".repeat(10),
        cell,
        " ".repeat(8),
        cell,
        " ".repeat(6)
    );
    assert_eq!(rows[2].row(), expected);
}

#[test]
fn table_lines() {
    let lines = comparison_table_lines();
    assert_eq!(lines.len(), 7);
    assert_eq!(lines[0], "\n=== 内存安全对比表 ===");
    assert_eq!(lines[3], comparisons()[0].row());
}

#[test]
fn padding() {
    let mut out = String::from(">");
    push_padded(&mut out, "ab", 4);
    assert_eq!(out, ">ab  ");
    let mut out = String::new();
    push_padded(&mut out, "abcdef", 4);
    assert_eq!(out, "abcdef");
}
