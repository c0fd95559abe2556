//! The status page: a table with the newest record, and below it a table
//! with every record that was fetched, newest first.

use vstd::prelude::*;
use vstd::string::StringExecFns;
use crate::circuit_data::{placeholder_text, zero_number};
use crate::database::{recent, is_log, record_views, Record, RecordView};
use crate::clock::local_timestamp;
use crate::decimal::{fixed2_text, plain_text, Decimal, Number};
use crate::digits::{int_text, push_int};
use crate::timestamp::{age_of, age_seconds, age_text, is_stamp, push_age};

verus! {

/// How many records the page shows unless told otherwise.
pub const DEFAULT_TABLE_SIZE: u8 = 30;

/// The page up to the first entry of the status table.
pub const PAGE_HEAD: &'static str = r#"<!DOCTYPE html>
<html lang = "en">

<head>
	<meta charset = "UTF-8">
	<title>BeagleBone Green - Circuit Data</title>
	<style>
		body {
			font-family: Arial, sans-serif;
			margin: 40px;
			background-color: #F5F5F5;
		}

		h1, h2 {
			text-align: center;
			color: #333
		}

		table {
			margin: auto;
			border-collapse: collapse;
			width: 80%;
			background-color: #FFF;
			box-shadow: 0 2px 5px rgba(0, 0, 0, 0.1);
			margin-bottom: 40px;
		}

		th, td {
			border: 1px solid #CCC;
			padding: 12px;
			text-align: center;
		}

		th {
			background-color: #E16419;
			color: white;
		}

		tr:nth-child(even) {
			background-color: #F2F2F2;
		}
	</style>
</head>

<body>
	<h1>Circuit Data</h1>
	<table>
		<tr>
			<th>Parameter</th>
			<th>Value</th>
		</tr>
"#;

/// The page between the last entry of the status table and the first row of
/// the history.
pub const PAGE_MIDDLE: &'static str = r#"	</table>

	<h2>Recent Data</h2>
	<table>
		<tr>
			<th>ID</th>
			<th>Circuit State</th>
			<th>Expected Voltage</th>
			<th>Circuit Voltage</th>
			<th>Circuit Current</th>
			<th>Circuit Uptime</th>
			<th>Received Time</th>
			<th>Insertion Time</th>
		</tr>
"#;

/// The page after the last row of the history.
pub const PAGE_TAIL: &'static str = r#"	</table>
</body>
</html>
"#;

/// What stands before, between and after the name and the value of an entry
/// of the status table.
pub const ENTRY_OPEN: &'static str = "\t\t<tr>\n\t\t\t<td>";

pub const ENTRY_MIDDLE: &'static str = "</td>\n\t\t\t<td>";

pub const ENTRY_CLOSE: &'static str = "</td>\n\t\t</tr>\n";

/// What stands before and after a row of the history, and before and after
/// each of its cells.
pub const ROW_OPEN: &'static str = "\t\t<tr>\n";

pub const CELL_OPEN: &'static str = "\t\t\t<td>";

pub const CELL_CLOSE: &'static str = "</td>\n";

pub const ROW_CLOSE: &'static str = "\t\t</tr>\n";

/// One entry of the status table: a name and a value.
pub open spec fn entry_text(name: Seq<char>, value: Seq<char>) -> Seq<char> {
    ENTRY_OPEN@ + name + ENTRY_MIDDLE@ + value + ENTRY_CLOSE@
}

/// One cell of a history row.
pub open spec fn cell_text(value: Seq<char>) -> Seq<char> {
    CELL_OPEN@ + value + CELL_CLOSE@
}

/// What the status table shows.
pub struct StatusRow {
    pub id: int,
    pub circuit_state: Seq<char>,
    pub expected_voltage: Number,
    pub circuit_voltage: Number,
    pub circuit_current: Number,
    pub circuit_uptime: Seq<char>,
    pub received_timestamp: Seq<char>,
    pub insertion_timestamp: Seq<char>,
}

/// What the status table shows where there is no record: the number zero,
/// every value zero, every text the placeholder.
pub open spec fn placeholder_row() -> StatusRow {
    StatusRow {
        id: 0,
        circuit_state: placeholder_text(),
        expected_voltage: zero_number(),
        circuit_voltage: zero_number(),
        circuit_current: zero_number(),
        circuit_uptime: placeholder_text(),
        received_timestamp: placeholder_text(),
        insertion_timestamp: placeholder_text(),
    }
}

/// What the status table shows of a record.
pub open spec fn row_of(record: RecordView) -> StatusRow {
    StatusRow {
        id: record.id,
        circuit_state: record.data.circuit_state.label_text(),
        expected_voltage: record.data.expected_voltage,
        circuit_voltage: record.data.circuit_voltage,
        circuit_current: record.data.circuit_current,
        circuit_uptime: record.data.circuit_uptime,
        received_timestamp: record.data.received_timestamp,
        insertion_timestamp: record.data.insertion_timestamp,
    }
}

/// What the status table shows for the records that were fetched: the first
/// of them, or the placeholder where there is none.
pub open spec fn current_row(records: Seq<RecordView>) -> StatusRow {
    if records.len() == 0 {
        placeholder_row()
    } else {
        row_of(records[0])
    }
}

/// How stale what the status table shows is at `now`: the seconds since it
/// was received, where both times are known and the first is not after the
/// second.
pub open spec fn staleness(row: StatusRow, now: Seq<char>) -> Option<nat> {
    age_of(now, row.received_timestamp)
}

/// The entries of the status table at `now`. Numbers are written in full;
/// the last entry is the age of what is shown.
pub open spec fn status_text(row: StatusRow, now: Seq<char>) -> Seq<char> {
    entry_text("ID"@, int_text(row.id)) + entry_text("Circuit State"@, row.circuit_state)
        + entry_text("Expected Voltage"@, plain_text(row.expected_voltage) + " V"@) + entry_text(
        "Circuit Voltage"@,
        plain_text(row.circuit_voltage) + " V"@,
    ) + entry_text("Circuit Current"@, plain_text(row.circuit_current) + " mA"@) + entry_text(
        "Circuit Uptime"@,
        row.circuit_uptime,
    ) + entry_text("Received Time"@, row.received_timestamp) + entry_text(
        "Insertion Time"@,
        row.insertion_timestamp,
    ) + entry_text("Data Age"@, age_text(staleness(row, now)))
}

/// One row of the history. Numbers are written with two decimals.
pub open spec fn history_row_text(record: RecordView) -> Seq<char> {
    ROW_OPEN@ + cell_text(int_text(record.id)) + cell_text(record.data.circuit_state.label_text())
        + cell_text(fixed2_text(record.data.expected_voltage) + " V"@) + cell_text(
        fixed2_text(record.data.circuit_voltage) + " V"@,
    ) + cell_text(fixed2_text(record.data.circuit_current) + " mA"@) + cell_text(
        record.data.circuit_uptime,
    ) + cell_text(record.data.received_timestamp) + cell_text(record.data.insertion_timestamp)
        + ROW_CLOSE@
}

/// The rows of the history, one for each record, in the order of the records.
pub open spec fn history_text(records: Seq<RecordView>) -> Seq<char>
    decreases records.len(),
{
    if records.len() == 0 {
        Seq::<char>::empty()
    } else {
        history_text(records.drop_last()) + history_row_text(records.last())
    }
}

/// The whole page, at `now`, for the records that were fetched.
pub open spec fn page_text(records: Seq<RecordView>, now: Seq<char>) -> Seq<char> {
    PAGE_HEAD@ + status_text(current_row(records), now) + PAGE_MIDDLE@ + history_text(records)
        + PAGE_TAIL@
}

fn push_entry(out: &mut String, name: &str, value: &str)
    ensures
        final(out)@ == old(out)@ + entry_text(name@, value@),
{
    out.append(ENTRY_OPEN);
    out.append(name);
    out.append(ENTRY_MIDDLE);
    out.append(value);
    out.append(ENTRY_CLOSE);
    assert(out@ =~= old(out)@ + entry_text(name@, value@));
}

fn push_cell(out: &mut String, value: &str)
    ensures
        final(out)@ == old(out)@ + cell_text(value@),
{
    out.append(CELL_OPEN);
    out.append(value);
    out.append(CELL_CLOSE);
    assert(out@ =~= old(out)@ + cell_text(value@));
}

/// A whole number as text.
fn id_text(id: i64) -> (out: String)
    ensures
        out@ == int_text(id as int),
{
    let mut out = String::new();
    push_int(&mut out, id);
    assert(out@ =~= int_text(id as int));
    out
}

/// A number written in full, with its unit after it.
fn plain_with_unit(value: &Decimal, unit: &str) -> (out: String)
    ensures
        out@ == plain_text(value@) + unit@,
{
    let mut out = value.to_plain();
    out.append(unit);
    out
}

/// A number written with two decimals, with its unit after it.
fn fixed2_with_unit(value: &Decimal, unit: &str) -> (out: String)
    ensures
        out@ == fixed2_text(value@) + unit@,
{
    let mut out = value.to_fixed2();
    out.append(unit);
    out
}

/// An age as the status table shows it.
fn age_shown(now: &str, then: &str) -> (out: String)
    ensures
        out@ == age_text(age_of(now@, then@)),
{
    let mut out = String::new();
    push_age(&mut out, age_seconds(now, then));
    assert(out@ =~= age_text(age_of(now@, then@)));
    out
}

fn push_status(out: &mut String, records: &Vec<Record>, now: &str)
    ensures
        final(out)@ == old(out)@ + status_text(current_row(record_views(records@)), now@),
{
    let ghost row = current_row(record_views(records@));
    if records.len() == 0 {
        let zero = Decimal::zero();
        push_entry(out, "ID", id_text(0).as_str());
        push_entry(out, "Circuit State", "-");
        push_entry(out, "Expected Voltage", plain_with_unit(&zero, " V").as_str());
        push_entry(out, "Circuit Voltage", plain_with_unit(&zero, " V").as_str());
        push_entry(out, "Circuit Current", plain_with_unit(&zero, " mA").as_str());
        push_entry(out, "Circuit Uptime", "-");
        push_entry(out, "Received Time", "-");
        push_entry(out, "Insertion Time", "-");
        push_entry(out, "Data Age", age_shown(now, "-").as_str());
    } else {
        let newest = &records[0];
        assert(record_views(records@)[0] == newest@);
        push_entry(out, "ID", id_text(newest.id).as_str());
        push_entry(out, "Circuit State", newest.data.circuit_state.label());
        push_entry(
            out,
            "Expected Voltage",
            plain_with_unit(&newest.data.expected_voltage, " V").as_str(),
        );
        push_entry(
            out,
            "Circuit Voltage",
            plain_with_unit(&newest.data.circuit_voltage, " V").as_str(),
        );
        push_entry(
            out,
            "Circuit Current",
            plain_with_unit(&newest.data.circuit_current, " mA").as_str(),
        );
        push_entry(out, "Circuit Uptime", newest.data.circuit_uptime.as_str());
        push_entry(out, "Received Time", newest.data.received_timestamp.as_str());
        push_entry(out, "Insertion Time", newest.data.insertion_timestamp.as_str());
        push_entry(
            out,
            "Data Age",
            age_shown(now, newest.data.received_timestamp.as_str()).as_str(),
        );
    }
    assert(out@ =~= old(out)@ + status_text(row, now@));
}

fn push_history_row(out: &mut String, record: &Record)
    ensures
        final(out)@ == old(out)@ + history_row_text(record@),
{
    out.append(ROW_OPEN);
    push_cell(out, id_text(record.id).as_str());
    push_cell(out, record.data.circuit_state.label());
    push_cell(out, fixed2_with_unit(&record.data.expected_voltage, " V").as_str());
    push_cell(out, fixed2_with_unit(&record.data.circuit_voltage, " V").as_str());
    push_cell(out, fixed2_with_unit(&record.data.circuit_current, " mA").as_str());
    push_cell(out, record.data.circuit_uptime.as_str());
    push_cell(out, record.data.received_timestamp.as_str());
    push_cell(out, record.data.insertion_timestamp.as_str());
    out.append(ROW_CLOSE);
    assert(out@ =~= old(out)@ + history_row_text(record@));
}

/// The status page.
pub struct WebServer {}

impl WebServer {
    /// The page, by the local clock, for the records that were fetched from
    /// the store, newest first.
    pub fn render_page(records: &Vec<Record>) -> (page: String)
        ensures
            exists|now: Seq<char>| page@ == page_text(record_views(records@), now),
    {
        let now = local_timestamp();
        WebServer::render_page_at(records, now.as_str())
    }

    /// The page, at `now`, for the records that were fetched from the store,
    /// newest first. Where none was fetched the status table shows the
    /// placeholder and the history is empty.
    pub fn render_page_at(records: &Vec<Record>, now: &str) -> (page: String)
        ensures
            page@ == page_text(record_views(records@), now@),
    {
        let ghost views = record_views(records@);
        let mut page = String::new();
        page.append(PAGE_HEAD);
        push_status(&mut page, records, now);
        page.append(PAGE_MIDDLE);
        let ghost start = page@;
        assert(views.take(0) =~= Seq::<RecordView>::empty());
        let mut i: usize = 0;
        while i < records.len()
            invariant
                i <= records.len(),
                views == record_views(records@),
                page@ == start + history_text(views.take(i as int)),
            decreases records.len() - i,
        {
            push_history_row(&mut page, &records[i]);
            proof {
                let next = views.take(i + 1);
                assert(next.drop_last() =~= views.take(i as int));
                assert(next.last() == records@[i as int]@);
                assert(page@ =~= start + history_text(next));
            }
            i = i + 1;
        }
        assert(views.take(records.len() as int) =~= views);
        page.append(PAGE_TAIL);
        assert(page@ =~= page_text(views, now@));
        page
    }
}

/// With nothing in the store the status table shows the placeholder: the
/// number zero, `-` for the state, and no age; and the history has no row.
pub proof fn lemma_empty_store_shows_placeholder(n: nat, now: Seq<char>)
    ensures
        current_row(recent(Seq::<RecordView>::empty(), n)) == placeholder_row(),
        placeholder_row().id == 0,
        placeholder_row().circuit_state == "-"@,
        staleness(placeholder_row(), now) is None,
        page_text(recent(Seq::<RecordView>::empty(), n), now) == PAGE_HEAD@ + status_text(
            placeholder_row(),
            now,
        ) + PAGE_MIDDLE@ + PAGE_TAIL@,
{
    let fetched = recent(Seq::<RecordView>::empty(), n);
    assert(fetched.len() == 0);
    assert(page_text(fetched, now) =~= PAGE_HEAD@ + status_text(placeholder_row(), now)
        + PAGE_MIDDLE@ + PAGE_TAIL@);
    reveal_strlit("-");
    assert(!is_stamp("-"@));
}

/// With a record in the store, and at least one record asked for, the status
/// table shows the record that was appended last, which is the one with the
/// greatest number, field by field.
pub proof fn lemma_status_shows_newest(log: Seq<RecordView>, n: nat, now: Seq<char>)
    requires
        is_log(log),
        log.len() >= 1,
        n >= 1,
    ensures
        current_row(recent(log, n)) == row_of(log.last()),
        forall|i: int| 0 <= i < log.len() ==> log[i].id <= log.last().id,
        page_text(recent(log, n), now) == PAGE_HEAD@ + status_text(row_of(log.last()), now)
            + PAGE_MIDDLE@ + history_text(recent(log, n)) + PAGE_TAIL@,
{
}

/// What the status table shows does not look fresh when no frame comes in:
/// the age of a record that is shown at two times, the second not before the
/// first, is not lower at the second.
pub proof fn lemma_staleness_grows(row: StatusRow, earlier: Seq<char>, later: Seq<char>)
    requires
        is_stamp(earlier),
        is_stamp(later),
        crate::timestamp::not_after(
            crate::timestamp::moment_of(earlier),
            crate::timestamp::moment_of(later),
        ),
        staleness(row, earlier) is Some,
    ensures
        staleness(row, later) is Some,
        staleness(row, earlier)->0 <= staleness(row, later)->0,
{
    crate::timestamp::lemma_seconds_keep_order(
        crate::timestamp::moment_of(earlier),
        crate::timestamp::moment_of(later),
    );
}

} // verus!
