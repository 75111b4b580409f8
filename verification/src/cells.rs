//! The table types of `cli_table`, and what the library relies on of them.
//!
//! A cell is modelled by its lines, its horizontal justification and whether it
//! is bold; a table by its title row, its rows and whether it is bold. Both
//! models say whether everything else is as the crate has it by default. The
//! contracts of this module are taken from the crate and are not proved.

use cli_table::format::Justify;
use cli_table::{Cell, CellStruct, Style, Table, TableStruct};
use vstd::prelude::*;

verus! {

/// Horizontal justification of a cell.
#[derive(Clone, Copy, Debug, PartialEq, Eq, Structural)]
pub enum Side {
    Left,
    Right,
    Center,
}

/// What the library knows of a `CellStruct`.
#[verifier::ext_equal]
pub struct CellModel {
    pub lines: Seq<Seq<char>>,
    pub side: Side,
    pub bold: bool,
    /// Whether the vertical alignment, the padding, the colours and the other
    /// styles are those of a new cell.
    pub otherwise_default: bool,
}

/// What the library knows of a `TableStruct`.
#[verifier::ext_equal]
pub struct TableModel {
    pub title: Option<Seq<CellModel>>,
    pub rows: Seq<Seq<CellModel>>,
    pub bold: bool,
    /// Whether the borders, the separators, the colours, the other styles and
    /// the choice of when to colour are those of a new table.
    pub otherwise_default: bool,
}

/// A cell of `cli_table`.
#[verifier::external_type_specification]
#[verifier::external_body]
pub struct ExCellStruct(CellStruct);

/// A table of `cli_table`.
#[verifier::external_type_specification]
#[verifier::external_body]
pub struct ExTableStruct(TableStruct);

/// What a cell holds.
pub uninterp spec fn cell_model(cell: CellStruct) -> CellModel;

/// What a table holds.
pub uninterp spec fn table_model(table: TableStruct) -> TableModel;

/// What the cells of a row hold.
pub open spec fn row_model(row: Seq<CellStruct>) -> Seq<CellModel> {
    Seq::new(row.len(), |i: int| cell_model(row[i]))
}

/// What the cells of several rows hold.
pub open spec fn rows_model(rows: Seq<Vec<CellStruct>>) -> Seq<Seq<CellModel>> {
    Seq::new(rows.len(), |i: int| row_model(rows[i]@))
}

/// A line without the carriage return that may end it.
pub open spec fn without_return(line: Seq<char>) -> Seq<char> {
    if line.len() > 0 && line.last() == '\r' {
        line.drop_last()
    } else {
        line
    }
}

/// The lines of a text. A line ends at a line feed, which may follow a carriage
/// return; the last line needs no ending.
pub open spec fn lines_of(text: Seq<char>) -> Seq<Seq<char>>
    decreases text.len(),
{
    proof {
        text.index_of_first_ensures('\n');
    }
    if text.len() == 0 {
        Seq::empty()
    } else if text.contains('\n') {
        let end = text.index_of_first('\n')->0;
        seq![without_return(text.take(end))] + lines_of(text.skip(end + 1))
    } else {
        seq![text]
    }
}

/// The model of a plain cell: left justified, not bold, and default otherwise.
pub open spec fn plain_cell(text: Seq<char>) -> CellModel {
    CellModel {
        lines: lines_of(text),
        side: Side::Left,
        bold: false,
        otherwise_default: true,
    }
}

/// Calls `cli_table::Cell::cell` on a text: the cell holds the lines of the
/// text, as `str::lines` splits them, in the default format and style.
#[verifier::external_body]
pub(crate) fn cell(text: &str) -> (cell: CellStruct)
    ensures
        cell_model(cell) == plain_cell(text@),
{
    text.cell()
}

/// Calls `CellStruct::justify`, which changes the justification alone.
#[verifier::external_body]
pub(crate) fn justify(cell: CellStruct, side: Side) -> (justified: CellStruct)
    ensures
        cell_model(justified) == (CellModel { side, ..cell_model(cell) }),
{
    cell.justify(
        match side {
            Side::Left => Justify::Left,
            Side::Right => Justify::Right,
            Side::Center => Justify::Center,
        },
    )
}

/// Calls `cli_table::Style::bold` on a cell, which sets the bold style alone.
#[verifier::external_body]
pub(crate) fn bold_cell(cell: CellStruct, bold: bool) -> (styled: CellStruct)
    ensures
        cell_model(styled) == (CellModel { bold, ..cell_model(cell) }),
{
    cell.bold(bold)
}

/// Calls `cli_table::Table::table` on rows of cells: the table holds the rows in
/// their order, without a title, in the default format and style.
#[verifier::external_body]
pub(crate) fn table(rows: Vec<Vec<CellStruct>>) -> (table: TableStruct)
    ensures
        table_model(table) == (TableModel {
            title: None,
            rows: rows_model(rows@),
            bold: false,
            otherwise_default: true,
        }),
{
    rows.table()
}

/// Calls `TableStruct::title` with a row of cells, which sets the title alone.
#[verifier::external_body]
pub(crate) fn title(table: TableStruct, row: Vec<CellStruct>) -> (titled: TableStruct)
    ensures
        table_model(titled) == (TableModel {
            title: Some(row_model(row@)),
            ..table_model(table)
        }),
{
    table.title(row)
}

/// Calls `cli_table::Style::bold` on a table, which sets the bold style alone.
#[verifier::external_body]
pub(crate) fn bold_table(table: TableStruct, bold: bool) -> (styled: TableStruct)
    ensures
        table_model(styled) == (TableModel { bold, ..table_model(table) }),
{
    table.bold(bold)
}

/// The lines of a text are what stands between its line feeds, each without the
/// carriage return that ends it; the last one needs no line feed.
pub proof fn lines_stand_between_line_feeds(first: Seq<char>, rest: Seq<char>)
    requires
        forall|i: int| 0 <= i < first.len() ==> #[trigger] first[i] != '\n',
    ensures
        lines_of(Seq::empty()).len() == 0,
        first.len() > 0 ==> lines_of(first) == seq![first],
        ({
            let lines = lines_of(first + seq!['\n'] + rest);
            &&& lines.len() == 1 + lines_of(rest).len()
            &&& lines.skip(1) == lines_of(rest)
            &&& lines[0] == (if first.len() > 0 && first.last() == '\r' {
                first.drop_last()
            } else {
                first
            })
        }),
{
    let text = first + seq!['\n'] + rest;
    let end = first.len() as int;
    text.index_of_first_ensures('\n');
    assert(text[end] == '\n');
    assert forall|j: int| 0 <= j < end implies text[j] != '\n' by {
        assert(text[j] == first[j]);
    }
    assert(text.contains('\n'));
    assert(text.index_of_first('\n') == Some(end));
    assert(text.take(end) =~= first);
    assert(text.skip(end + 1) =~= rest);
    assert(lines_of(text).skip(1) =~= lines_of(rest));
}

/// The model of a row holds the models of its cells, each in its place, and so
/// do the models of several rows.
pub proof fn rows_keep_their_cells(rows: Seq<Vec<CellStruct>>, i: int, j: int)
    requires
        0 <= i < rows.len(),
        0 <= j < rows[i]@.len(),
    ensures
        row_model(rows[i]@).len() == rows[i]@.len(),
        row_model(rows[i]@)[j] == cell_model(rows[i]@[j]),
        rows_model(rows).len() == rows.len(),
        rows_model(rows)[i] == row_model(rows[i]@),
{
}

} // verus!
