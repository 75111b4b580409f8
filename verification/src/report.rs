//! The result table.

use cli_table::{CellStruct, TableStruct};
use vstd::prelude::*;

use crate::bench::TestName;
use crate::cells::{
    bold_cell, bold_table, cell, cell_model, justify, lines_of, plain_cell, row_model, rows_model, table, table_model,
    title, CellModel, Side, TableModel,
};
use crate::text::{decimal, decimal_reads_back, decimal_string, is_digit};

verus! {

/// The kind of device that the model runs on.
#[derive(Clone, Copy, Debug, PartialEq, Eq, Structural)]
pub enum Device {
    Cpu,
    Cuda,
    Metal,
}

impl Device {
    /// The name of the backend in the result table.
    pub open spec fn backend_spec(self) -> Seq<char> {
        match self {
            Device::Cpu => "CPU"@,
            Device::Cuda => "CUDA"@,
            Device::Metal => "Metal"@,
        }
    }

    /// Names the backend for the result table.
    pub fn backend(&self) -> (name: &'static str)
        ensures
            name@ == self.backend_spec(),
            *self is Cpu ==> name@ == "CPU"@,
            *self is Cuda ==> name@ == "CUDA"@,
            *self is Metal ==> name@ == "Metal"@,
    {
        match self {
            Device::Cpu => "CPU",
            Device::Cuda => "CUDA",
            Device::Metal => "Metal",
        }
    }
}

/// One result with its figures printed.
#[derive(Debug, PartialEq, Eq)]
pub struct ReportLine {
    pub test_name: TestName,
    /// Tokens per second, mean and deviation.
    pub tok_s: String,
    /// Milliseconds per token, mean and deviation.
    pub ms_tok: String,
    pub concurrency: usize,
    /// Tokens per second over all concurrent requests.
    pub throughput: String,
}

/// The model of a right justified cell.
pub open spec fn right_cell(text: Seq<char>) -> CellModel {
    CellModel { side: Side::Right, ..plain_cell(text) }
}

/// The model of a column heading.
pub open spec fn heading(text: Seq<char>) -> CellModel {
    CellModel { bold: true, ..plain_cell(text) }
}

/// The column headings.
pub open spec fn headings() -> Seq<CellModel> {
    seq![
        heading("model"@),
        heading("backend"@),
        heading("test"@),
        heading("t/s"@),
        heading("ms/t"@),
        heading("concurrency"@),
        heading("throughput/s"@),
    ]
}

/// The row of one result.
pub open spec fn report_row(model: Seq<char>, device: Device, line: ReportLine) -> Seq<CellModel> {
    seq![
        plain_cell(model),
        plain_cell(device.backend_spec()),
        plain_cell(line.test_name.label_spec()),
        right_cell(line.tok_s@),
        right_cell(line.ms_tok@),
        right_cell(decimal(line.concurrency as nat)),
        right_cell(line.throughput@),
    ]
}

/// The rows of the results, in order.
pub open spec fn report_rows(model: Seq<char>, device: Device, lines: Seq<ReportLine>) -> Seq<
    Seq<CellModel>,
> {
    Seq::new(lines.len(), |i: int| report_row(model, device, lines[i]))
}

/// The whole table: bold, the headings over one row for each result, and
/// nothing else changed of the default format.
pub open spec fn report_model(
    model: Seq<char>,
    device: Device,
    lines: Seq<ReportLine>,
) -> TableModel {
    TableModel {
        title: Some(headings()),
        rows: report_rows(model, device, lines),
        bold: true,
        otherwise_default: true,
    }
}

fn heading_cell(text: &str) -> (c: CellStruct)
    ensures
        cell_model(c) == heading(text@),
{
    bold_cell(cell(text), true)
}

fn right(text: &str) -> (c: CellStruct)
    ensures
        cell_model(c) == right_cell(text@),
{
    justify(cell(text), Side::Right)
}

fn heading_row() -> (row: Vec<CellStruct>)
    ensures
        row_model(row@) == headings(),
{
    let row = vec![
        heading_cell("model"),
        heading_cell("backend"),
        heading_cell("test"),
        heading_cell("t/s"),
        heading_cell("ms/t"),
        heading_cell("concurrency"),
        heading_cell("throughput/s"),
    ];
    assert(row_model(row@) =~= headings());
    row
}

fn result_row(model: &str, device: Device, line: &ReportLine) -> (row: Vec<CellStruct>)
    ensures
        row_model(row@) == report_row(model@, device, *line),
{
    let row = vec![
        cell(model),
        cell(device.backend()),
        cell(line.test_name.label().as_str()),
        right(line.tok_s.as_str()),
        right(line.ms_tok.as_str()),
        right(decimal_string(line.concurrency).as_str()),
        right(line.throughput.as_str()),
    ];
    assert(row_model(row@) =~= report_row(model@, device, *line));
    row
}

/// Lays out the results of one level of concurrency.
pub fn usage_table(model: &str, device: Device, lines: &Vec<ReportLine>) -> (t: TableStruct)
    ensures
        table_model(t) == report_model(model@, device, lines@),
{
    let mut rows: Vec<Vec<CellStruct>> = Vec::new();
    let mut i: usize = 0;
    while i < lines.len()
        invariant
            i <= lines.len(),
            rows@.len() == i,
            forall|j: int|
                0 <= j < i ==> row_model(#[trigger] rows@[j]@) == report_row(
                    model@,
                    device,
                    lines@[j],
                ),
        decreases lines.len() - i,
    {
        rows.push(result_row(model, device, &lines[i]));
        i += 1;
    }
    assert(rows_model(rows@) =~= report_rows(model@, device, lines@));
    bold_table(title(table(rows), heading_row()), true)
}

/// The table has one row for each result, and each row has as many cells as
/// there are headings.
pub proof fn report_is_rectangular(model: Seq<char>, device: Device, lines: Seq<ReportLine>)
    ensures
        report_model(model, device, lines).rows.len() == lines.len(),
        forall|i: int|
            0 <= i < lines.len() ==> (
            #[trigger] report_model(model, device, lines).rows[i]).len() == headings().len(),
{
}

/// Labels, backends and numbers are shown as they are, on one line.
pub proof fn fixed_texts_fill_one_line(test_name: TestName, device: Device, n: usize)
    ensures
        lines_of(test_name.label_spec()) == seq![test_name.label_spec()],
        lines_of(device.backend_spec()) == seq![device.backend_spec()],
        lines_of(decimal(n as nat)) == seq![decimal(n as nat)],
{
    reveal_strlit("pp ");
    reveal_strlit("tg ");
    reveal_strlit("CPU");
    reveal_strlit("CUDA");
    reveal_strlit("Metal");
    let tokens = match test_name {
        TestName::Prompt(tokens) => tokens,
        TestName::Gen(tokens) => tokens,
    };
    decimal_reads_back(tokens);
    decimal_reads_back(n);
    let label = test_name.label_spec();
    assert forall|i: int| 0 <= i < label.len() implies label[i] != '\n' by {
        if i >= 3 {
            assert(label[i] == decimal(tokens as nat)[i - 3]);
            assert(is_digit(decimal(tokens as nat)[i - 3]));
        }
    }
    assert forall|i: int| 0 <= i < decimal(n as nat).len() implies decimal(n as nat)[i] != '\n' by {
        assert(is_digit(decimal(n as nat)[i]));
    }
}

/// Each result has its own row, in the place of the result: what was run stands
/// on the left, and the figures of that result on the right.
pub proof fn rows_show_their_results(
    model: Seq<char>,
    device: Device,
    lines: Seq<ReportLine>,
    i: int,
)
    requires
        0 <= i < lines.len(),
    ensures
        report_model(model, device, lines).rows.len() == lines.len(),
        ({
            let row = report_model(model, device, lines).rows[i];
            let line = lines[i];
            &&& row.len() == 7
            &&& row[0] == (CellModel {
                lines: lines_of(model),
                side: Side::Left,
                bold: false,
                otherwise_default: true,
            })
            &&& device is Cpu ==> row[1] == (CellModel {
                lines: lines_of("CPU"@),
                side: Side::Left,
                bold: false,
                otherwise_default: true,
            })
            &&& device is Cuda ==> row[1] == (CellModel {
                lines: lines_of("CUDA"@),
                side: Side::Left,
                bold: false,
                otherwise_default: true,
            })
            &&& device is Metal ==> row[1] == (CellModel {
                lines: lines_of("Metal"@),
                side: Side::Left,
                bold: false,
                otherwise_default: true,
            })
            &&& row[2] == (CellModel {
                lines: lines_of(line.test_name.label_spec()),
                side: Side::Left,
                bold: false,
                otherwise_default: true,
            })
            &&& row[3] == (CellModel {
                lines: lines_of(line.tok_s@),
                side: Side::Right,
                bold: false,
                otherwise_default: true,
            })
            &&& row[4] == (CellModel {
                lines: lines_of(line.ms_tok@),
                side: Side::Right,
                bold: false,
                otherwise_default: true,
            })
            &&& row[5] == (CellModel {
                lines: lines_of(decimal(line.concurrency as nat)),
                side: Side::Right,
                bold: false,
                otherwise_default: true,
            })
            &&& row[6] == (CellModel {
                lines: lines_of(line.throughput@),
                side: Side::Right,
                bold: false,
                otherwise_default: true,
            })
            &&& row[5].lines == seq![decimal(line.concurrency as nat)]
        }),
{
    fixed_texts_fill_one_line(lines[i].test_name, device, lines[i].concurrency);
}

/// The table is bold under bold headings, whatever it holds.
pub proof fn headings_name_the_columns(model: Seq<char>, device: Device, lines: Seq<ReportLine>)
    ensures
        report_model(model, device, lines).bold,
        report_model(model, device, lines).otherwise_default,
        report_model(model, device, lines).title matches Some(title) && {
            &&& title.len() == 7
            &&& title[0] == (CellModel {
                lines: lines_of("model"@),
                side: Side::Left,
                bold: true,
                otherwise_default: true,
            })
            &&& title[1] == (CellModel {
                lines: lines_of("backend"@),
                side: Side::Left,
                bold: true,
                otherwise_default: true,
            })
            &&& title[2] == (CellModel {
                lines: lines_of("test"@),
                side: Side::Left,
                bold: true,
                otherwise_default: true,
            })
            &&& title[3] == (CellModel {
                lines: lines_of("t/s"@),
                side: Side::Left,
                bold: true,
                otherwise_default: true,
            })
            &&& title[4] == (CellModel {
                lines: lines_of("ms/t"@),
                side: Side::Left,
                bold: true,
                otherwise_default: true,
            })
            &&& title[5] == (CellModel {
                lines: lines_of("concurrency"@),
                side: Side::Left,
                bold: true,
                otherwise_default: true,
            })
            &&& title[6] == (CellModel {
                lines: lines_of("throughput/s"@),
                side: Side::Left,
                bold: true,
                otherwise_default: true,
            })
        },
{
}

/// A result's row does not depend on the other results.
pub proof fn rows_are_independent(
    model: Seq<char>,
    device: Device,
    before: Seq<ReportLine>,
    line: ReportLine,
    after: Seq<ReportLine>,
)
    ensures
        report_model(model, device, before + seq![line] + after).rows == report_model(
            model,
            device,
            before,
        ).rows + report_model(model, device, seq![line]).rows + report_model(
            model,
            device,
            after,
        ).rows,
{
    assert(report_rows(model, device, before + seq![line] + after) =~= report_rows(
        model,
        device,
        before,
    ) + report_rows(model, device, seq![line]) + report_rows(model, device, after));
}

} // verus!
