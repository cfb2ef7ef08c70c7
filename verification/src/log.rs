//! The probe's log, line by line.

use crate::names::SHM_COUNT;
use crate::probe::Changed;
use crate::probe::Listed;
use crate::probe::Record;
use crate::probe::PROBE_BYTES;
use crate::probe::PROBE_INTERVAL;
use crate::single::Single;
use crate::text::align_right;
use crate::text::decimal_text;
use crate::text::fixed_text;
use vstd::prelude::*;
use vstd::string::*;

verus! {

/// The lines at the top of the log.
pub open spec fn header() -> Seq<Seq<char>> {
    seq![
        "=== AC Evo SHM Probe ==="@,
        "Probing "@ + crate::text::decimal(SHM_COUNT as nat) + " SHM names every "@
            + crate::text::decimal((PROBE_INTERVAL / 1_000_000) as nat) + "ms, "@
            + crate::text::decimal(PROBE_BYTES as nat) + " bytes each"@,
        ""@,
    ]
}

/// A flag, in words.
pub open spec fn flag(on: bool) -> Seq<char> {
    if on {
        "true"@
    } else {
        "false"@
    }
}

/// A mapping in a list of them.
pub open spec fn listed_line(row: crate::probe::ListedView) -> Seq<char> {
    "  "@ + row.name + " — has_data:"@ + flag(row.has_data) + " nonzero_f32s:"@
        + crate::text::decimal(row.nonzero) + "/"@ + crate::text::decimal(row.total)
}

/// A value at an offset.
pub open spec fn value_line(value: (usize, Single)) -> Seq<char> {
    "    off "@ + crate::text::right_aligned(crate::text::decimal(value.0 as nat), 4) + ": "@
        + crate::text::right_aligned(crate::text::fixed_number(value.1, 6), 14)
}

/// A value that has moved.
pub open spec fn changed_line(row: Changed) -> Seq<char> {
    "  off "@ + crate::text::right_aligned(crate::text::decimal(row.offset as nat), 4) + ": "@
        + crate::text::right_aligned(crate::text::fixed_number(row.value, 6), 10) + " (was "@
        + crate::text::right_aligned(crate::text::fixed_number(row.base, 6), 10) + ", d="@
        + crate::text::fixed_number(row.delta, 4) + ")"@ + if row.marked {
        " <<<ABS?"@
    } else {
        ""@
    }
}

/// The lines of an entry. `elapsed` tells the seconds since the loop started.
pub open spec fn lines_of(record: crate::probe::RecordView, elapsed: Seq<char>) -> Seq<Seq<char>> {
    match record {
        crate::probe::RecordView::List(rows) => seq![
            "[t="@ + elapsed + "s] SHM scan — "@ + crate::text::decimal(rows.len())
                + " mappings found:"@,
        ] + rows.map_values(|row: crate::probe::ListedView| listed_line(row)) + seq![""@],
        crate::probe::RecordView::Active { name, values } => seq![
            "[t="@ + elapsed + "s] >>> ACTIVE SHM FOUND: "@ + name + " <<<"@,
            "  Non-zero values:"@,
        ] + values.map_values(|value: (usize, Single)| value_line(value)) + seq![""@],
        crate::probe::RecordView::Snapshot { name, values } => seq![
            "[SNAPSHOT t="@ + elapsed + "s] "@ + name,
        ] + values.map_values(|value: (usize, Single)| value_line(value)) + seq![""@],
        crate::probe::RecordView::Nothing => seq![
            "[t="@ + elapsed + "s] No SHM mappings found — game not running?"@,
        ],
        crate::probe::RecordView::Moved { brake, rows } => seq![
            "[t="@ + elapsed + "s] brake="@ + crate::text::fixed_number(brake, 3) + " | "@
                + crate::text::decimal(rows.len()) + " changed:"@,
        ] + rows.map_values(|row: Changed| changed_line(row)),
    }
}

/// What some lines say.
pub open spec fn texts(lines: Seq<String>) -> Seq<Seq<char>> {
    lines.map_values(|line: String| line@)
}

/// Adds a line to some lines.
fn push_line(lines: &mut Vec<String>, line: String)
    ensures
        texts(final(lines)@) == texts(old(lines)@).push(line@),
{
    lines.push(line);
    assert(texts(lines@) =~= texts(old(lines)@).push(line@));
}

/// The lines at the top of the log.
pub fn header_lines() -> (lines: Vec<String>)
    ensures
        texts(lines@) == header(),
{
    let mut lines: Vec<String> = Vec::new();
    push_line(&mut lines, "=== AC Evo SHM Probe ===".to_owned());
    push_line(
        &mut lines,
        "Probing ".to_owned().concat(decimal_text(SHM_COUNT as u128).as_str()).concat(
            " SHM names every ",
        ).concat(decimal_text((PROBE_INTERVAL / 1_000_000) as u128).as_str()).concat("ms, ").concat(
            decimal_text(PROBE_BYTES as u128).as_str(),
        ).concat(" bytes each"),
    );
    push_line(&mut lines, "".to_owned());
    assert(texts(lines@) =~= header());
    lines
}

/// A mapping in a list of them.
fn write_listed(row: &Listed) -> (line: String)
    ensures
        line@ == listed_line(row@),
{
    let flag: &str = if row.has_data {
        "true"
    } else {
        "false"
    };
    "  ".to_owned().concat(row.name.as_str()).concat(" — has_data:").concat(flag).concat(
        " nonzero_f32s:",
    ).concat(decimal_text(row.nonzero as u128).as_str()).concat("/").concat(
        decimal_text(row.total as u128).as_str(),
    )
}

/// A value at an offset.
fn write_value(offset: usize, value: Single) -> (line: String)
    ensures
        line@ == value_line((offset, value)),
{
    "    off ".to_owned().concat(align_right(decimal_text(offset as u128), 4).as_str()).concat(
        ": ",
    ).concat(align_right(fixed_text(value, 6), 14).as_str())
}

/// A value that has moved.
fn write_changed(row: &Changed) -> (line: String)
    ensures
        line@ == changed_line(*row),
{
    let mark: &str = if row.marked {
        " <<<ABS?"
    } else {
        ""
    };
    "  off ".to_owned().concat(align_right(decimal_text(row.offset as u128), 4).as_str()).concat(
        ": ",
    ).concat(align_right(fixed_text(row.value, 6), 10).as_str()).concat(" (was ").concat(
        align_right(fixed_text(row.base, 6), 10).as_str(),
    ).concat(", d=").concat(fixed_text(row.delta, 4).as_str()).concat(")").concat(mark)
}

/// Adds the lines of some values to some lines, and an empty one.
fn push_values(lines: &mut Vec<String>, values: &Vec<(usize, Single)>)
    ensures
        texts(final(lines)@) == texts(old(lines)@) + values@.map_values(
            |value: (usize, Single)| value_line(value),
        ) + seq![""@],
{
    let ghost start = texts(lines@);
    let ghost all = values@.map_values(|value: (usize, Single)| value_line(value));
    let mut i: usize = 0;
    assert(start =~= start + all.take(0));
    while i < values.len()
        invariant
            i <= values.len(),
            all == values@.map_values(|value: (usize, Single)| value_line(value)),
            texts(lines@) == start + all.take(i as int),
        decreases values.len() - i,
    {
        let (offset, value): (usize, Single) = values[i];
        push_line(lines, write_value(offset, value));
        assert(start + all.take(i + 1) =~= (start + all.take(i as int)).push(all[i as int]));
        i = i + 1;
    }
    assert(all.take(values@.len() as int) =~= all);
    push_line(lines, "".to_owned());
    assert(texts(lines@) =~= start + all + seq![""@]);
}

/// The lines of an entry. `elapsed` tells the seconds since the loop started.
pub fn record_lines(record: &Record, elapsed: &str) -> (lines: Vec<String>)
    ensures
        texts(lines@) == lines_of(record@, elapsed@),
{
    let mut lines: Vec<String> = Vec::new();
    match record {
        Record::List(rows) => {
            push_line(
                &mut lines,
                "[t=".to_owned().concat(elapsed).concat("s] SHM scan — ").concat(
                    decimal_text(rows.len() as u128).as_str(),
                ).concat(" mappings found:"),
            );
            let ghost start = texts(lines@);
            let ghost views = rows@.map_values(|r: Listed| r@);
            let ghost all = views.map_values(|row: crate::probe::ListedView| listed_line(row));
            let mut i: usize = 0;
            assert(start =~= start + all.take(0));
            while i < rows.len()
                invariant
                    i <= rows.len(),
                    views == rows@.map_values(|r: Listed| r@),
                    all == views.map_values(|row: crate::probe::ListedView| listed_line(row)),
                    texts(lines@) == start + all.take(i as int),
                decreases rows.len() - i,
            {
                push_line(&mut lines, write_listed(&rows[i]));
                assert(start + all.take(i + 1) =~= (start + all.take(i as int)).push(
                    all[i as int],
                ));
                i = i + 1;
            }
            assert(all.take(rows@.len() as int) =~= all);
            push_line(&mut lines, "".to_owned());
        },
        Record::Active { name, values } => {
            push_line(
                &mut lines,
                "[t=".to_owned().concat(elapsed).concat("s] >>> ACTIVE SHM FOUND: ").concat(
                    name.as_str(),
                ).concat(" <<<"),
            );
            push_line(&mut lines, "  Non-zero values:".to_owned());
            push_values(&mut lines, values);
        },
        Record::Snapshot { name, values } => {
            push_line(
                &mut lines,
                "[SNAPSHOT t=".to_owned().concat(elapsed).concat("s] ").concat(name.as_str()),
            );
            push_values(&mut lines, values);
        },
        Record::Nothing => {
            push_line(
                &mut lines,
                "[t=".to_owned().concat(elapsed).concat(
                    "s] No SHM mappings found — game not running?",
                ),
            );
        },
        Record::Moved { brake, rows } => {
            push_line(
                &mut lines,
                "[t=".to_owned().concat(elapsed).concat("s] brake=").concat(
                    fixed_text(*brake, 3).as_str(),
                ).concat(" | ").concat(decimal_text(rows.len() as u128).as_str()).concat(
                    " changed:",
                ),
            );
            let ghost start = texts(lines@);
            let ghost all = rows@.map_values(|row: Changed| changed_line(row));
            let mut i: usize = 0;
            assert(start =~= start + all.take(0));
            while i < rows.len()
                invariant
                    i <= rows.len(),
                    all == rows@.map_values(|row: Changed| changed_line(row)),
                    texts(lines@) == start + all.take(i as int),
                decreases rows.len() - i,
            {
                push_line(&mut lines, write_changed(&rows[i]));
                assert(start + all.take(i + 1) =~= (start + all.take(i as int)).push(
                    all[i as int],
                ));
                i = i + 1;
            }
            assert(all.take(rows@.len() as int) =~= all);
        },
    }
    assert(texts(lines@) =~= lines_of(record@, elapsed@));
    lines
}

} // verus!
