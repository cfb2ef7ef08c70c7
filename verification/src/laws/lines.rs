//! The fixed texts and colours, and the lines of the log.

use crate::color::Palette;
use crate::color::Rgba;
use crate::probe::Changed;
use crate::probe::ListedView;
use crate::probe::RecordView;
use crate::single::Single;
use vstd::prelude::*;

verus! {

/// The six mappings, those of the newer game first.
pub proof fn law_labels()
    ensures
        crate::names::SHM_COUNT == 6,
        crate::names::shm_label(0) == "Local\\acevo_pmf_physics"@,
        crate::names::shm_label(1) == "Local\\acevo_pmf_graphics"@,
        crate::names::shm_label(2) == "Local\\acevo_pmf_static"@,
        crate::names::shm_label(3) == "Local\\acpmf_physics"@,
        crate::names::shm_label(4) == "Local\\acpmf_graphics"@,
        crate::names::shm_label(5) == "Local\\acpmf_static"@,
{
}

/// The name of a mapping is its label, closed by a NUL; as bytes it has one for each
/// character.
pub proof fn law_names(i: int, text: Seq<char>)
    ensures
        crate::names::shm_name(i).len() == crate::names::shm_label(i).len() + 1,
        crate::names::shm_name(i).last() == '\0',
        crate::names::shm_name(i).drop_last() == crate::names::shm_label(i),
        crate::names::ascii_bytes(text).len() == text.len(),
        forall|k: int|
            0 <= k < text.len() ==> #[trigger] crate::names::ascii_bytes(text)[k] == text[k] as u8,
{
    assert(crate::names::shm_name(i).drop_last() =~= crate::names::shm_label(i));
}

/// The colours of the overlay: those that are opaque as they are, the others as they are
/// blended.
pub proof fn law_palette(colors: Palette)
    requires
        colors.genuine(),
    ensures
        colors.text == (Rgba { r: 220, g: 225, b: 232, a: 255 }),
        crate::color::may_blend_to(22, 26, 35, 230, colors.panel) && colors.panel.a == 230,
        crate::color::may_blend_to(12, 14, 20, 240, colors.graph_fill) && colors.graph_fill.a
            == 240,
        crate::color::may_blend_to(60, 70, 100, 80, colors.graph_outline)
            && colors.graph_outline.a == 80,
        crate::color::may_blend_to(255, 200, 40, 50, colors.glow) && colors.glow.a == 50,
        crate::color::may_blend_to(18, 22, 30, 230, colors.gear_fill) && colors.gear_fill.a == 230,
        crate::color::may_blend_to(80, 90, 110, 80, colors.gear_outline) && colors.gear_outline.a
            == 80,
        crate::color::may_blend_to(180, 180, 200, 160, colors.grip) && colors.grip.a == 160,
{
}

/// The log begins by saying that six mappings are looked into every 200 ms, 1500 bytes of
/// each, and with an empty line.
pub proof fn law_header()
    ensures
        crate::log::header().len() == 3,
        crate::log::header()[0] == "=== AC Evo SHM Probe ==="@,
        crate::log::header()[1] == "Probing 6 SHM names every 200ms, 1500 bytes each"@,
        crate::log::header()[2].len() == 0,
{
    reveal_strlit("Probing ");
    reveal_strlit(" SHM names every ");
    reveal_strlit("ms, ");
    reveal_strlit(" bytes each");
    reveal_strlit("Probing 6 SHM names every 200ms, 1500 bytes each");
    reveal_strlit("");
    reveal_with_fuel(crate::text::decimal, 4);
    assert(crate::log::header()[1] =~= "Probing 6 SHM names every 200ms, 1500 bytes each"@);
}

/// A line of the list names the mapping, tells whether it has data, and how many of its
/// values are not zero.
pub proof fn law_listed_line(row: ListedView)
    ensures
        row.has_data ==> crate::log::listed_line(row) == "  "@ + row.name + " — has_data:"@
            + "true"@ + " nonzero_f32s:"@ + crate::text::decimal(row.nonzero) + "/"@
            + crate::text::decimal(row.total),
        !row.has_data ==> crate::log::listed_line(row) == "  "@ + row.name + " — has_data:"@
            + "false"@ + " nonzero_f32s:"@ + crate::text::decimal(row.nonzero) + "/"@
            + crate::text::decimal(row.total),
{
}

/// The line of a value has its offset, to the right in four places, and its number with six
/// decimals, to the right in fourteen.
pub proof fn law_value_line(offset: usize, value: Single)
    ensures
        crate::log::value_line((offset, value)) == "    off "@ + crate::text::right_aligned(
            crate::text::decimal(offset as nat),
            4,
        ) + ": "@ + crate::text::right_aligned(crate::text::fixed_number(value, 6), 14),
{
}

/// The line of a row has its offset, both readings and how far they are apart, and at its
/// end the mark, if the row has it.
pub proof fn law_changed_line(row: Changed)
    ensures
        ({
            let start: Seq<char> = "  off "@ + crate::text::right_aligned(
                crate::text::decimal(row.offset as nat),
                4,
            ) + ": "@ + crate::text::right_aligned(crate::text::fixed_number(row.value, 6), 10)
                + " (was "@ + crate::text::right_aligned(
                crate::text::fixed_number(row.base, 6),
                10,
            ) + ", d="@ + crate::text::fixed_number(row.delta, 4) + ")"@;
            &&& row.marked ==> crate::log::changed_line(row) == start + " <<<ABS?"@
            &&& !row.marked ==> crate::log::changed_line(row) == start
        }),
{
    reveal_strlit("");
    if !row.marked {
        assert(crate::log::changed_line(row) =~= crate::log::changed_line(row) + ""@);
    }
}

/// The texts of some lines are what the lines say, one for one.
pub proof fn law_texts(lines: Seq<String>, k: int)
    ensures
        crate::log::texts(lines).len() == lines.len(),
        0 <= k < lines.len() ==> crate::log::texts(lines)[k] == lines[k]@,
{
}

/// An entry has a line that tells the time and what it is about, and then a line for each
/// of its values; a list, a live mapping and a snapshot end with an empty line.
pub proof fn law_entries(record: RecordView, elapsed: Seq<char>, k: int)
    ensures
        ({
            let lines: Seq<Seq<char>> = crate::log::lines_of(record, elapsed);
            &&& record matches RecordView::List(rows) ==> {
                &&& lines.len() == rows.len() + 2
                &&& lines[0] == "[t="@ + elapsed + "s] SHM scan — "@ + crate::text::decimal(
                    rows.len(),
                ) + " mappings found:"@
                &&& 0 <= k < rows.len() ==> lines[k + 1] == crate::log::listed_line(rows[k])
                &&& lines.last().len() == 0
            }
            &&& record matches RecordView::Active { name, values } ==> {
                &&& lines.len() == values.len() + 3
                &&& lines[0] == "[t="@ + elapsed + "s] >>> ACTIVE SHM FOUND: "@ + name + " <<<"@
                &&& lines[1] == "  Non-zero values:"@
                &&& 0 <= k < values.len() ==> lines[k + 2] == crate::log::value_line(values[k])
                &&& lines.last().len() == 0
            }
            &&& record matches RecordView::Snapshot { name, values } ==> {
                &&& lines.len() == values.len() + 2
                &&& lines[0] == "[SNAPSHOT t="@ + elapsed + "s] "@ + name
                &&& 0 <= k < values.len() ==> lines[k + 1] == crate::log::value_line(values[k])
                &&& lines.last().len() == 0
            }
            &&& record is Nothing ==> {
                &&& lines.len() == 1
                &&& lines[0] == "[t="@ + elapsed
                    + "s] No SHM mappings found — game not running?"@
            }
            &&& record matches RecordView::Moved { brake, rows } ==> {
                &&& lines.len() == rows.len() + 1
                &&& lines[0] == "[t="@ + elapsed + "s] brake="@ + crate::text::fixed_number(
                    brake,
                    3,
                ) + " | "@ + crate::text::decimal(rows.len()) + " changed:"@
                &&& 0 <= k < rows.len() ==> lines[k + 1] == crate::log::changed_line(rows[k])
            }
        }),
{
    reveal_strlit("");
}

} // verus!
