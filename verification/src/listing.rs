//! The query command: the table of windows and tabs that a server lists.
use crate::entry::{entry_views, TabEntry, TabEntryView};
use crate::text::{decimal, push_decimal, decimal_string};
use tabout::{Alignment, Column};
use vstd::prelude::*;

verus! {

/// `tabout::Alignment`: how a column is aligned.
#[verifier::external_type_specification]
pub struct ExAlignment(Alignment);

/// `tabout::Column`: the header and the alignment of a column.
#[verifier::external_type_specification]
pub struct ExColumn(Column);

/// `std::io::Error`, which tabout returns where it cannot write.
#[verifier::external_type_specification]
#[verifier::external_body]
pub struct ExIoError(std::io::Error);

/// A column as a mathematical value: its header and its alignment.
pub open spec fn column_view(c: Column) -> (Seq<char>, Alignment) {
    (c.name@, c.alignment)
}

pub open spec fn column_views(columns: Seq<Column>) -> Seq<(Seq<char>, Alignment)> {
    columns.map_values(|c: Column| column_view(c))
}

pub open spec fn cell_views(row: Vec<String>) -> Seq<Seq<char>> {
    row@.map_values(|cell: String| cell@)
}

pub open spec fn row_views(rows: Seq<Vec<String>>) -> Seq<Seq<Seq<char>>> {
    rows.map_values(|row: Vec<String>| cell_views(row))
}

/// What tabout makes of a table: the text that it lays the table out as,
/// or nothing where it reports an error.  It is a function of the columns
/// and of the cells, row by row.
pub uninterp spec fn tabulated(
    columns: Seq<(Seq<char>, Alignment)>,
    rows: Seq<Seq<Seq<char>>>,
) -> Option<Seq<char>>;

/// `tabout::tabulate_output_as_string`: the header line and one line for
/// each row, each cell padded to the width of its column.  Whether it
/// returns the text or an error, and which text, depends on the columns
/// and the rows alone.
#[verifier::external_body]
fn tabulate(columns: &Vec<Column>, rows: &Vec<Vec<String>>) -> (r: Result<String, std::io::Error>)
    ensures
        match r {
            Ok(text) => tabulated(column_views(columns@), row_views(rows@)) == Some(text@),
            Err(_) => tabulated(column_views(columns@), row_views(rows@)) is None,
        },
{
    tabout::tabulate_output_as_string(columns, rows)
}

/// Why the table could not be produced.
#[derive(Clone, Copy, Debug, PartialEq, Eq, Structural)]
pub enum ListError {
    /// The table could not be written out.
    Output,
}

/// The columns of the listing: the window and the tab identifier, aligned
/// to the right, then the size and the title, aligned to the left.
pub open spec fn list_columns_view() -> Seq<(Seq<char>, Alignment)> {
    seq![
        ("WINID"@, Alignment::Right),
        ("TABID"@, Alignment::Right),
        ("SIZE"@, Alignment::Left),
        ("TITLE"@, Alignment::Left),
    ]
}

/// The columns of the listing.
pub fn list_columns() -> (columns: Vec<Column>)
    ensures
        column_views(columns@) == list_columns_view(),
{
    let mut columns: Vec<Column> = Vec::new();
    columns.push(Column { name: "WINID".to_owned(), alignment: Alignment::Right });
    columns.push(Column { name: "TABID".to_owned(), alignment: Alignment::Right });
    columns.push(Column { name: "SIZE".to_owned(), alignment: Alignment::Left });
    columns.push(Column { name: "TITLE".to_owned(), alignment: Alignment::Left });
    proof {
        assert(column_views(columns@) =~= list_columns_view());
    }
    columns
}

/// A size as text: the columns, an `x`, the rows.
pub open spec fn size_text(cols: u16, rows: u16) -> Seq<char> {
    decimal(cols as nat) + seq!['x'] + decimal(rows as nat)
}

/// The cells of the row of one entry.
pub open spec fn row_view(e: TabEntryView) -> Seq<Seq<char>> {
    seq![
        decimal(e.window_id as nat),
        decimal(e.tab_id as nat),
        size_text(e.size.cols, e.size.rows),
        e.title,
    ]
}

/// The cells of the rows of the entries, in the order of the entries.
pub open spec fn list_rows_view(entries: Seq<TabEntryView>) -> Seq<Seq<Seq<char>>> {
    entries.map_values(|e: TabEntryView| row_view(e))
}

/// The row of one entry: its window, its tab, its size and its title.
pub fn list_row(entry: &TabEntry) -> (row: Vec<String>)
    ensures
        cell_views(row) == row_view(entry@),
{
    let mut size = String::new();
    push_decimal(&mut size, entry.size.cols as u64);
    size.push('x');
    push_decimal(&mut size, entry.size.rows as u64);
    let mut row: Vec<String> = Vec::new();
    row.push(decimal_string(entry.window_id));
    row.push(decimal_string(entry.tab_id));
    row.push(size);
    row.push(entry.title.clone());
    proof {
        assert(size@ =~= size_text(entry.size.cols, entry.size.rows));
        assert(cell_views(row) =~= row_view(entry@));
    }
    row
}

/// One row for each entry, in the order of the entries.
pub fn list_rows(entries: &Vec<TabEntry>) -> (rows: Vec<Vec<String>>)
    ensures
        row_views(rows@) == list_rows_view(entry_views(entries@)),
{
    let mut rows: Vec<Vec<String>> = Vec::new();
    let mut i: usize = 0;
    while i < entries.len()
        invariant
            i <= entries.len(),
            row_views(rows@) =~= list_rows_view(entry_views(entries@).take(i as int)),
        decreases entries.len() - i,
    {
        let row = list_row(&entries[i]);
        proof {
            let all = entry_views(entries@);
            assert(list_rows_view(all.take(i + 1)) =~= list_rows_view(all.take(i as int)).push(
                row_view(all[i as int]),
            ));
            assert(row_views(rows@.push(row)) =~= row_views(rows@).push(cell_views(row)));
        }
        rows.push(row);
        i += 1;
    }
    proof {
        assert(entry_views(entries@).take(i as int) =~= entry_views(entries@));
    }
    rows
}

/// The text of the listing of `entries`, given what tabout made of their
/// rows.
pub fn listing_result(rendered: Result<String, std::io::Error>) -> (r: Result<String, ListError>)
    ensures
        match (r, rendered) {
            (Ok(text), Ok(given)) => text == given,
            (Err(e), Err(_)) => e == ListError::Output,
            _ => false,
        },
{
    match rendered {
        Ok(text) => Ok(text),
        Err(_) => Err(ListError::Output),
    }
}

/// What tabout makes of the listing of `entries`: of the columns of the
/// listing and of one row for each entry, in the order of the entries.
pub open spec fn listing_text(entries: Seq<TabEntryView>) -> Option<Seq<char>> {
    tabulated(list_columns_view(), list_rows_view(entries))
}

/// The listing that the query command prints: the table of the entries,
/// one row for each, in the order in which the server returned them.  The
/// result is the text exactly where tabout lays the table out, and the
/// error exactly where tabout reports one.
pub fn render_tab_list(entries: &Vec<TabEntry>) -> (r: Result<String, ListError>)
    ensures
        match r {
            Ok(text) => listing_text(entry_views(entries@)) == Some(text@),
            Err(e) => e == ListError::Output && listing_text(entry_views(entries@)) is None,
        },
{
    let columns = list_columns();
    let rows = list_rows(entries);
    listing_result(tabulate(&columns, &rows))
}

} // verus!
