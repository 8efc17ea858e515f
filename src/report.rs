use vstd::prelude::*;

use crate::record::{MARKER, TAB};

verus! {

pub open spec fn digit_char(d: nat) -> char {
    ((d + '0' as nat) as u32) as char
}

/// The decimal digits of `v`, with no sign and no leading zero.
pub open spec fn decimal(v: nat) -> Seq<char>
    decreases v,
{
    if v < 10 {
        seq![digit_char(v)]
    } else {
        decimal(v / 10).push(digit_char(v % 10))
    }
}

/// Relies on `ToString` for `u64` (its `Display`): the value in decimal
/// digits, with no sign and no padding.
#[verifier::external_body]
fn decimal_string(v: u64) -> (r: String)
    ensures
        r@ == decimal(v as nat),
{
    v.to_string()
}

/// Each field preceded by a tab, one after the other.
pub open spec fn tabbed(fields: Seq<Seq<char>>) -> Seq<char>
    decreases fields.len(),
{
    if fields.len() == 0 {
        Seq::empty()
    } else {
        tabbed(fields.drop_last()) + seq![TAB] + fields.last()
    }
}

pub open spec fn decimals(vals: Seq<u64>) -> Seq<Seq<char>> {
    vals.map_values(|v: u64| decimal(v as nat))
}

/// `id` without its leading marker characters.
pub open spec fn strip_markers(id: Seq<char>) -> Seq<char>
    decreases id.len(),
{
    if id.len() > 0 && id[0] == MARKER {
        strip_markers(id.drop_first())
    } else {
        id
    }
}

/// The prefix of a summary row: the marker pair, unless the report strips
/// markers.
pub open spec fn summary_prefix(strip_marker: bool) -> Seq<char> {
    if strip_marker {
        Seq::empty()
    } else {
        seq![MARKER, MARKER]
    }
}

/// A summary row: its name, then one value per sample.
pub open spec fn summary_line(strip_marker: bool, name: Seq<char>, vals: Seq<u64>) -> Seq<char> {
    summary_prefix(strip_marker) + name + tabbed(decimals(vals))
}

/// A metafeature row of the report: the identifier, then a tab and the
/// row's values as they stood.
pub open spec fn metafeature_line(strip_marker: bool, id: Seq<char>, values: Seq<char>) -> Seq<char> {
    (if strip_marker {
        strip_markers(id)
    } else {
        id
    }) + seq![TAB] + values
}

/// The header of a report of its own: `feature`, then the sample names.
pub open spec fn report_header(names: Seq<Seq<char>>) -> Seq<char> {
    "feature"@ + tabbed(names)
}

/// Appends a tab and each of `fields` to `line`.
fn push_tabbed(line: &mut String, fields: &Vec<String>)
    ensures
        final(line)@ == old(line)@ + tabbed(fields@.map_values(|s: String| s@)),
{
    let ghost start = line@;
    let mut i: usize = 0;
    while i < fields.len()
        invariant
            i <= fields@.len(),
            line@ == start + tabbed(fields@.take(i as int).map_values(|s: String| s@)),
        decreases fields@.len() - i,
    {
        let ghost before = fields@.take(i as int).map_values(|s: String| s@);
        let ghost after = fields@.take(i + 1).map_values(|s: String| s@);
        assert(after.drop_last() =~= before);
        assert(after.last() == fields@[i as int]@);
        line.append("\t");
        line.append(fields[i].as_str());
        proof {
            reveal_strlit("\t");
            assert(line@ =~= start + tabbed(after));
        }
        i = i + 1;
    }
    assert(fields@.take(i as int) =~= fields@);
}

/// The report's header line.
pub fn header_line(names: &Vec<String>) -> (r: String)
    ensures
        r@ == report_header(names@.map_values(|s: String| s@)),
{
    let mut line = "feature".to_owned();
    push_tabbed(&mut line, names);
    line
}

/// A summary row named `name`, listing `vals` in decimal.
pub fn format_summary(strip_marker: bool, name: &str, vals: &Vec<u64>) -> (r: String)
    ensures
        r@ == summary_line(strip_marker, name@, vals@),
{
    let mut line = if strip_marker {
        String::new()
    } else {
        "__".to_owned()
    };
    proof {
        reveal_strlit("__");
    }
    line.append(name);
    let mut fields: Vec<String> = Vec::new();
    let mut i: usize = 0;
    while i < vals.len()
        invariant
            i <= vals@.len(),
            fields@.map_values(|s: String| s@) == decimals(vals@.take(i as int)),
        decreases vals@.len() - i,
    {
        let d = decimal_string(vals[i]);
        let ghost before = fields@.map_values(|s: String| s@);
        fields.push(d);
        assert(fields@.map_values(|s: String| s@) =~= before.push(d@));
        assert(decimals(vals@.take(i + 1)) =~= decimals(vals@.take(i as int)).push(decimal(vals@[i as int] as nat)));
        i = i + 1;
    }
    assert(vals@.take(i as int) =~= vals@);
    push_tabbed(&mut line, &fields);
    assert(summary_prefix(strip_marker) + name@ + tabbed(decimals(vals@)) =~= line@);
    line
}

/// Index of the first character of `chars` that is not the marker.
fn markers_end(chars: &Vec<char>) -> (k: usize)
    ensures
        k <= chars@.len(),
        strip_markers(chars@) == chars@.skip(k as int),
{
    let mut k: usize = 0;
    assert(chars@.skip(0) =~= chars@);
    while k < chars.len() && chars[k] == MARKER
        invariant
            k <= chars@.len(),
            strip_markers(chars@) == strip_markers(chars@.skip(k as int)),
        decreases chars@.len() - k,
    {
        assert(chars@.skip(k as int).drop_first() =~= chars@.skip(k + 1));
        k = k + 1;
    }
    k
}

/// A metafeature row of the report.
pub fn format_metafeature(strip_marker: bool, id: &String, values: &String) -> (r: String)
    ensures
        r@ == metafeature_line(strip_marker, id@, values@),
{
    let mut line = if strip_marker {
        let chars = crate::record::chars_of(id.as_str());
        let k = markers_end(&chars);
        id.as_str().substring_char(k, chars.len()).to_owned()
    } else {
        id.clone()
    };
    line.append("\t");
    line.append(values.as_str());
    proof {
        reveal_strlit("\t");
    }
    assert(line@ =~= metafeature_line(strip_marker, id@, values@));
    line
}

} // verus!
