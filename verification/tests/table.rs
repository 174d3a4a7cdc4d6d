use once::table::{check_tab, render_tab, tab_output, TabError};
use unicode_width::UnicodeWidthStr;

fn strings(v: &[&str]) -> Vec<String> {
    v.iter().map(|s| s.to_string()).collect()
}

fn rows(v: &[&[&str]]) -> Vec<Vec<String>> {
    v.iter().map(|r| strings(r)).collect()
}

/// The first `k` bytes of `s`, moved back to the character boundary at or before `k`.
fn cut(s: &str, k: usize) -> &str {
    let mut i = k.min(s.len());
    while !s.is_char_boundary(i) {
        i -= 1;
    }
    &s[..i]
}

/// The table text computed with `format!` and `unicode_width`, the way the tool
/// builds it before printing it.
fn reference_tab(header: &[String], data: &[Vec<String>]) -> String {
    let n = header.len();
    let max_item_width: usize = 20;
    let mut lengths: Vec<usize> = vec![0; n];
    for (i, h) in header.iter().enumerate() {
        lengths[i] = h.width();
    }
    for row in data {
        for (i, d) in row.iter().enumerate() {
            lengths[i] = lengths[i].max(d.width());
        }
    }
    for length in &mut lengths {
        if *length > max_item_width {
            *length = max_item_width;
        }
    }
    let total_width = lengths.iter().fold(3 * n + 1, |acc, &len| acc + len);
    let mut s = String::new();
    s.push_str(&format!("{}\n", "=".repeat(total_width)));
    s.push_str("| ");
    for (i, h) in header.iter().enumerate() {
        let width = lengths[i];
        let display_str = if h.width() > width {
            format!("{}...", cut(h, width.saturating_sub(3)))
        } else {
            h.clone()
        };
        s.push_str(&format!("{:^width$} | ", display_str, width = width));
    }
    s.push('\n');
    s.push_str("|");
    for width in &lengths {
        s.push_str(&format!("{}|", "-".repeat(width + 2)));
    }
    s.push('\n');
    for row in data {
        s.push_str("| ");
        for (i, cell) in row.iter().enumerate() {
            let width = lengths[i];
            let display_str = if cell.width() > width {
                format!("{}...", cut(cell, width.saturating_sub(3)))
            } else {
                cell.clone()
            };
            s.push_str(&format!(
                "{:<width$} | ",
                display_str,
                width = width - display_str.width() + display_str.chars().count()
            ));
        }
        s.push('\n');
    }
    s.push_str(&"=".repeat(total_width));
    s
}

#[test]
fn display_width() {
    assert_eq!(once::table::display_width("李"), 2);
    assert_eq!("李".len(), 3);
}

#[test]
fn width_of_mixed_text() {
    assert_eq!(once::table::display_width("abc"), 3);
    assert_eq!(once::table::display_width("张三"), 4);
    assert_eq!(once::table::display_width(""), 0);
}

#[test]
fn test_print_tab() {
    let header = strings(&["ID", "name", "age", "city"]);
    let data = rows(&[
        &["1", "张三", "25", "beijing"],
        &["2", "lisi", "30", "shanghai"],
        &["3", "安杰洛", "28", "guangzhou"],
    ]);
    let out = tab_output(&header, &data);
    match &out {
        Some(Ok(text)) => println!("{}", text),
        _ => panic!("the table should be drawn"),
    }
    assert_eq!(out, Some(Ok(reference_tab(&header, &data))));
}

#[test]
fn small_table_exact() {
    let header = strings(&["a", "bb"]);
    let data = rows(&[&["x", "yyy"]]);
    let expected = "===========\n| a | bb  | \n|---|-----|\n| x | yyy | \n===========";
    assert_eq!(render_tab(&header, &data), expected);
    assert_eq!(tab_output(&header, &data), Some(Ok(expected.to_string())));
}

#[test]
fn empty_header_is_refused() {
    let header: Vec<String> = Vec::new();
    let data = rows(&[&["x"]]);
    assert_eq!(check_tab(&header, &data), Err(TabError::EmptyHeader));
    assert_eq!(tab_output(&header, &data), Some(Err(TabError::EmptyHeader)));
}

#[test]
fn first_bad_row_is_reported() {
    let header = strings(&["a", "b"]);
    let data = rows(&[&["1", "2"], &["1"], &["1", "2", "3"]]);
    let err = TabError::RowLength { row: 1, found: 1, expected: 2 };
    assert_eq!(check_tab(&header, &data), Err(err));
    assert_eq!(tab_output(&header, &data), Some(Err(err)));
}

#[test]
fn table_without_rows() {
    let header = strings(&["name", "state"]);
    let data: Vec<Vec<String>> = Vec::new();
    assert_eq!(check_tab(&header, &data), Ok(()));
    assert_eq!(tab_output(&header, &data), Some(Ok(reference_tab(&header, &data))));
}

#[test]
fn long_cells_are_cut_to_twenty_columns() {
    let header = strings(&["key", "a-very-long-column-title-here"]);
    let data = rows(&[&["k1", "0123456789012345678901234"], &["k2", "short"]]);
    let text = match tab_output(&header, &data) {
        Some(Ok(t)) => t,
        other => panic!("unexpected {:?}", other),
    };
    assert_eq!(text, reference_tab(&header, &data));
    assert!(text.contains("01234567890123456..."));
    assert!(text.contains("a-very-long-colum..."));
    assert_eq!(text.lines().next().unwrap().chars().count(), 3 * 2 + 1 + 3 + 20);
}

#[test]
fn wide_cell_cut_inside_a_character_is_cut_before_it() {
    // 26 columns of three-byte characters: byte 17 falls inside the sixth one, so
    // the cell is cut after five characters (15 bytes).
    let header = strings(&["name"]);
    let data = rows(&[&["安杰洛安杰洛安杰洛安杰洛安"]]);
    let out = tab_output(&header, &data);
    assert_eq!(out, Some(Ok(reference_tab(&header, &data))));
    let text = match out {
        Some(Ok(t)) => t,
        other => panic!("unexpected {:?}", other),
    };
    assert!(text.contains("| 安杰洛安杰..."));
}

#[test]
fn wide_title_cut_inside_a_character_is_cut_before_it() {
    let header = strings(&["一二三四五六七八九十一"]);
    let data: Vec<Vec<String>> = Vec::new();
    let out = tab_output(&header, &data);
    assert_eq!(out, Some(Ok(reference_tab(&header, &data))));
    let text = match out {
        Some(Ok(t)) => t,
        other => panic!("unexpected {:?}", other),
    };
    assert!(text.contains("一二三四五..."));
    assert_eq!(text.lines().count(), 4);
}

#[test]
fn wide_cell_cut_at_a_boundary_is_drawn() {
    // 2 ASCII bytes and 5 three-byte characters make 17 bytes before the cut.
    let header = strings(&["name"]);
    let data = rows(&[&["ab安杰洛安杰洛安杰洛安杰洛"]]);
    let out = tab_output(&header, &data);
    assert_eq!(out, Some(Ok(reference_tab(&header, &data))));
}

#[test]
fn separator_spans_the_table() {
    let header = strings(&["ID", "name", "city"]);
    let data = rows(&[&["1", "张三", "beijing"], &["22", "x", "a-place-with-a-very-long-name"]]);
    let text = render_tab(&header, &data);
    let lines: Vec<&str> = text.lines().collect();
    assert_eq!(lines[2].chars().count(), lines[0].chars().count());
    assert_eq!(lines[lines.len() - 1], lines[0]);
}
