//! The SQL text of the views that join the data tables with the dimensional
//! tables and the timestamp blocks.
use vstd::prelude::*;
use crate::archive::{contains_chars, has_infix};
use crate::naming::name_parts;
use crate::text::{chars_of, string_of};

verus! {

fn push_text(out: &mut Vec<char>, s: &str)
    ensures
        final(out)@ == old(out)@ + s@,
{
    let c = chars_of(s);
    let ghost start = out@;
    let mut i: usize = 0;
    while i < c.len()
        invariant
            c@ == s@,
            i <= c@.len(),
            out@ == start + c@.take(i as int),
        decreases c@.len() - i,
    {
        out.push(c[i]);
        i = i + 1;
        assert(c@.take(i as int) =~= c@.take(i - 1).push(c@[i - 1]));
    }
    assert(c@.take(i as int) =~= c@);
}

/// The view over timestamp block `name`: an interval block is grouped by
/// interval, every other block is numbered row by row.
pub open spec fn timestamp_view_text(name: Seq<char>) -> Seq<char> {
    if has_infix(name, "Interval"@) {
        "CREATE VIEW processed.timestamp_block_"@ + name
            + " AS SELECT interval_id AS block_id, MIN(datetime) AS datetime, COUNT(*) AS interval_length FROM raw.timestamp_block_"@
            + name + " GROUP BY interval_id;"@
    } else {
        "CREATE VIEW processed.timestamp_block_"@ + name
            + " AS SELECT ROW_NUMBER() OVER () AS block_id, datetime, 1 AS interval_length FROM raw.timestamp_block_"@
            + name + ";"@
    }
}

pub fn timestamp_view_sql(name: &str) -> (r: String)
    ensures
        r@ == timestamp_view_text(name@),
{
    let interval = chars_of("Interval");
    let is_interval = contains_chars(&chars_of(name), &interval);
    let mut out: Vec<char> = Vec::new();
    push_text(&mut out, "CREATE VIEW processed.timestamp_block_");
    push_text(&mut out, name);
    if is_interval {
        push_text(
            &mut out,
            " AS SELECT interval_id AS block_id, MIN(datetime) AS datetime, COUNT(*) AS interval_length FROM raw.timestamp_block_",
        );
        push_text(&mut out, name);
        push_text(&mut out, " GROUP BY interval_id;");
    } else {
        push_text(
            &mut out,
            " AS SELECT ROW_NUMBER() OVER () AS block_id, datetime, 1 AS interval_length FROM raw.timestamp_block_",
        );
        push_text(&mut out, name);
        push_text(&mut out, ";");
    }
    string_of(&out)
}

/// The report view of data table `table`: its values with the sample, the
/// membership's names, the period's instant and length, and the property's
/// unit, the value column named after the property.
pub open spec fn report_view_text(table: Seq<char>, phase: Seq<char>, period: Seq<char>, property: Seq<char>) -> Seq<char> {
    "CREATE VIEW report.\""@ + table
        + "\" AS SELECT d.band_id AS band, s.sample_name, m.child_name AS name, m.child_category AS category, p.datetime AS timestamp, p.interval_length AS interval_length, d.value AS \""@
        + property + "\", pr.unit AS unit, FROM data.\""@ + table
        + "\" d LEFT JOIN raw.samples s ON d.sample_id = s.sample_id LEFT JOIN processed.memberships m ON d.membership_id = m.membership_id LEFT JOIN processed.timestamp_block_"@
        + phase + "__"@ + period
        + " p ON d.block_id = p.block_id LEFT JOIN raw.keys k ON d.key_id = k.key_id LEFT JOIN processed.properties pr ON k.property_id = pr.property_id AND k.is_summary = pr.is_summary ORDER BY d.band_id, s.sample_id, m.membership_id, p.datetime;"@
}

/// The report view of data table `table`; `None` where its name does not
/// split into phase, period, collection and property.
pub fn report_view_sql(table: &str) -> (r: Option<String>)
    ensures
        match name_parts(table@) {
            Some((phase, period, _collection, property)) => r matches Some(s) && s@ == report_view_text(
                table@,
                phase,
                period,
                property,
            ),
            None => r is None,
        },
{
    let parts = match crate::naming::table_name_parts(table) {
        Some(p) => p,
        None => return None,
    };
    let mut out: Vec<char> = Vec::new();
    push_text(&mut out, "CREATE VIEW report.\"");
    push_text(&mut out, table);
    push_text(
        &mut out,
        "\" AS SELECT d.band_id AS band, s.sample_name, m.child_name AS name, m.child_category AS category, p.datetime AS timestamp, p.interval_length AS interval_length, d.value AS \"",
    );
    push_text(&mut out, parts.property.as_str());
    push_text(&mut out, "\", pr.unit AS unit, FROM data.\"");
    push_text(&mut out, table);
    push_text(
        &mut out,
        "\" d LEFT JOIN raw.samples s ON d.sample_id = s.sample_id LEFT JOIN processed.memberships m ON d.membership_id = m.membership_id LEFT JOIN processed.timestamp_block_",
    );
    push_text(&mut out, parts.phase.as_str());
    push_text(&mut out, "__");
    push_text(&mut out, parts.period.as_str());
    push_text(
        &mut out,
        " p ON d.block_id = p.block_id LEFT JOIN raw.keys k ON d.key_id = k.key_id LEFT JOIN processed.properties pr ON k.property_id = pr.property_id AND k.is_summary = pr.is_summary ORDER BY d.band_id, s.sample_id, m.membership_id, p.datetime;",
    );
    Some(string_of(&out))
}

} // verus!
