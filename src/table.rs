//! A forecast laid out as rows of cells, ready for a terminal.

use vstd::prelude::*;
use crate::parameter::{
    all_names, color_of, name_text, parameter_text, Color, ParameterName,
};
use crate::report::{ReportView, TimeSeries, TimeSeriesView, WeatherReport};
use crate::time::Timestamp;

verus! {

/// One cell: its text and a colour hint.
pub struct TableCell {
    pub text: String,
    pub color: Option<(Color, Color)>,
}

/// One hour of the table: its time, then one cell per shown parameter.
pub struct TableRow {
    pub time: Timestamp,
    pub cells: Vec<TableCell>,
}

/// A forecast as a table: a title per column, the time column first.
pub struct ForecastTable {
    pub titles: Vec<String>,
    pub rows: Vec<TableRow>,
}

/// The text shown for a name at an hour; `N/A` where the hour lacks it.
pub open spec fn cell_text(ts: TimeSeriesView, name: ParameterName) -> Seq<char> {
    if ts.parameters.contains_key(name) {
        parameter_text(name, ts.parameters[name].value)
    } else {
        "N/A"@
    }
}

/// The colour hint for a name at an hour; none where the hour lacks it.
pub open spec fn cell_color(ts: TimeSeriesView, name: ParameterName) -> Option<(Color, Color)> {
    if ts.parameters.contains_key(name) {
        color_of(name, ts.parameters[name].value)
    } else {
        None
    }
}

/// How many hours are shown: as asked, but no more than there are.
pub open spec fn row_count(available: nat, hours: Option<u8>) -> nat {
    match hours {
        Some(h) => if (h as nat) < available {
            h as nat
        } else {
            available
        },
        None => available,
    }
}

/// Whether a row shows the given hour for the given names.
pub open spec fn row_shows(row: TableRow, ts: TimeSeriesView, names: Seq<ParameterName>) -> bool {
    &&& row.time == ts.valid_time
    &&& row.cells@.len() == names.len()
    &&& forall|j: int|
        0 <= j < names.len() ==> (#[trigger] row.cells@[j]).text@ == cell_text(ts, names[j])
            && row.cells@[j].color == cell_color(ts, names[j])
}

/// Whether a table shows the report's first hours for the given names.
pub open spec fn table_shows(
    t: ForecastTable,
    report: ReportView,
    names: Seq<ParameterName>,
    hours: Option<u8>,
) -> bool {
    &&& t.titles@.len() == names.len() + 1
    &&& t.titles@[0]@ == "Time"@
    &&& forall|j: int| 0 <= j < names.len() ==> (#[trigger] t.titles@[j + 1])@ == name_text(names[j])
    &&& t.rows@.len() == row_count(report.time_series.len(), hours)
    &&& forall|i: int|
        0 <= i < t.rows@.len() ==> row_shows(#[trigger] t.rows@[i], report.time_series[i], names)
}

/// The names shown: those asked for, else every name in enumeration order.
pub open spec fn shown_names(parameters: Option<Seq<ParameterName>>) -> Seq<ParameterName> {
    match parameters {
        Some(p) => p,
        None => all_names(),
    }
}

fn build_row(ts: &TimeSeries, names: &[ParameterName]) -> (r: TableRow)
    requires
        ts.wf(),
    ensures
        row_shows(r, ts@, names@),
{
    let mut cells: Vec<TableCell> = Vec::new();
    let mut j: usize = 0;
    proof {
        reveal_strlit("N/A");
    }
    while j < names.len()
        invariant
            j <= names@.len(),
            ts.wf(),
            cells@.len() == j,
            forall|k: int|
                0 <= k < j ==> (#[trigger] cells@[k]).text@ == cell_text(ts@, names@[k])
                    && cells@[k].color == cell_color(ts@, names@[k]),
        decreases names@.len() - j,
    {
        let name = names[j];
        let cell = match ts.get(name) {
            Some(p) => TableCell { text: p.to_text(), color: p.get_color() },
            None => TableCell { text: String::from_str("N/A"), color: None },
        };
        cells.push(cell);
        j = j + 1;
    }
    TableRow { time: ts.valid_time, cells }
}

/// Lays out the report's first hours as a table: the time, then one cell
/// per asked-for name (every name when none are given), `N/A` where an hour
/// lacks it. Shows as many hours as asked, or all of them.
pub fn forecast_table(
    report: &WeatherReport,
    parameters: Option<&[ParameterName]>,
    hours: Option<u8>,
) -> (r: ForecastTable)
    requires
        report.wf(),
    ensures
        table_shows(
            r,
            report@,
            shown_names(
                match parameters {
                    Some(p) => Some(p@),
                    None => None,
                },
            ),
            hours,
        ),
{
    let all = ParameterName::all();
    let names: &[ParameterName] = match parameters {
        Some(p) => p,
        None => all.as_slice(),
    };
    let mut titles: Vec<String> = Vec::new();
    titles.push(String::from_str("Time"));
    let mut j: usize = 0;
    while j < names.len()
        invariant
            j <= names@.len(),
            titles@.len() == j + 1,
            titles@[0]@ == "Time"@,
            forall|k: int| 0 <= k < j ==> (#[trigger] titles@[k + 1])@ == name_text(names@[k]),
        decreases names@.len() - j,
    {
        let title = String::from_str(names[j].as_str());
        titles.push(title);
        j = j + 1;
    }
    let available = report.time_series.len();
    let count: usize = match hours {
        Some(h) => if (h as usize) < available {
            h as usize
        } else {
            available
        },
        None => available,
    };
    let mut rows: Vec<TableRow> = Vec::new();
    let mut i: usize = 0;
    while i < count
        invariant
            i <= count <= report.time_series@.len(),
            report.wf(),
            rows@.len() == i,
            forall|k: int|
                0 <= k < i ==> row_shows(
                    #[trigger] rows@[k],
                    report@.time_series[k],
                    names@,
                ),
        decreases count - i,
    {
        let row = build_row(&report.time_series[i], names);
        rows.push(row);
        i = i + 1;
    }
    ForecastTable { titles, rows }
}

/// A table asked for with no parameters has the time column alone: one
/// title and no cells in any row.
pub proof fn lemma_no_parameters_time_column_only(
    t: ForecastTable,
    report: ReportView,
    hours: Option<u8>,
)
    requires
        table_shows(t, report, Seq::empty(), hours),
    ensures
        t.titles@.len() == 1,
        forall|i: int| 0 <= i < t.rows@.len() ==> (#[trigger] t.rows@[i]).cells@.len() == 0,
{
    assert forall|i: int| 0 <= i < t.rows@.len() implies (#[trigger] t.rows@[i]).cells@.len()
        == 0 by {
        assert(row_shows(t.rows@[i], report.time_series[i], Seq::empty()));
    }
}

} // verus!
