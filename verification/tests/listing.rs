use session_mux::listing::{list_rows, render_tab_list};
use session_mux::entry::TabEntry;
use session_mux::size::TerminalSize;

fn entry(window_id: u64, tab_id: u64, cols: u16, rows: u16, title: &str) -> TabEntry {
    TabEntry { window_id, tab_id, size: TerminalSize { cols, rows }, title: title.to_string() }
}

#[test]
fn rows_follow_the_order_of_the_entries() {
    let entries = vec![entry(1, 1, 80, 24, "a"), entry(2, 5, 132, 43, "b")];
    let rows = list_rows(&entries);
    assert_eq!(rows, vec![vec!["1", "1", "80x24", "a"], vec!["2", "5", "132x43", "b"]]);
}

#[test]
fn listing_is_laid_out_by_column_width() {
    let entries = vec![entry(1, 1, 80, 24, "a"), entry(2, 5, 132, 43, "b")];
    let text = render_tab_list(&entries).unwrap();
    assert_eq!(
        text,
        "WINID TABID SIZE   TITLE\n    1     1 80x24  a    \n    2     5 132x43 b    \n"
    );
}

#[test]
fn columns_of_the_listing() {
    let columns = session_mux::listing::list_columns();
    let names: Vec<&str> = columns.iter().map(|c| c.name.as_str()).collect();
    assert_eq!(names, vec!["WINID", "TABID", "SIZE", "TITLE"]);
    assert!(matches!(columns[0].alignment, tabout::Alignment::Right));
    assert!(matches!(columns[1].alignment, tabout::Alignment::Right));
    assert!(matches!(columns[2].alignment, tabout::Alignment::Left));
    assert!(matches!(columns[3].alignment, tabout::Alignment::Left));
}

#[test]
fn row_of_one_entry() {
    let row = session_mux::listing::list_row(&entry(12, 345, 132, 43, "vim notes.txt"));
    assert_eq!(row, vec!["12", "345", "132x43", "vim notes.txt"]);
}

#[test]
fn wide_titles_take_their_columns() {
    let entries = vec![entry(1, 1, 80, 24, "日本語"), entry(10, 2, 80, 24, "x")];
    let text = render_tab_list(&entries).unwrap();
    assert_eq!(
        text,
        "WINID TABID SIZE  TITLE \n    1     1 80x24 日本語\n   10     2 80x24 x     \n"
    );
}

#[test]
fn failed_output_becomes_a_list_error() {
    use_result(Err(std::io::Error::new(std::io::ErrorKind::Other, "closed")), None);
    use_result(Ok("table\n".to_string()), Some("table\n"));
}

fn use_result(rendered: Result<String, std::io::Error>, expected: Option<&str>) {
    let r = session_mux::listing::listing_result(rendered);
    match expected {
        Some(text) => assert_eq!(r, Ok(text.to_string())),
        None => assert_eq!(r, Err(session_mux::listing::ListError::Output)),
    }
}
