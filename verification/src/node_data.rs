//! Small readers of node data for the drawing code: bundles stored on a
//! node, patch panel rows and description lines, the end of a wiretag, and
//! the runs of filled rows along which device gutters are drawn.

use vstd::prelude::*;

use crate::bundles::{runs, runs_exec, runs_view};
use crate::chars::{str_chars, string_from_chars, trim, trim_vec};
use crate::json::{array_member, get_array, get_str, json_str, str_member, JsonValue};
use crate::layout::{bundles_in, bundles_of, bundles_view, slots_view, texts, DeviceV2BodySlot, SlotView};

verus! {

/// The bundles stored under `key`: each array among its items, reduced to
/// its texts; none when `key` does not hold an array.
pub open spec fn bundled_ids(data: JsonValue, key: Seq<char>) -> Option<Seq<Seq<Seq<char>>>> {
    match array_member(data, key) {
        Some(items) => Some(bundles_of(items)),
        None => None,
    }
}

/// Reads the bundles of row ids stored under `key`.
pub fn parse_bundled_row_ids(data: &JsonValue, key: &str) -> (r: Option<Vec<Vec<String>>>)
    ensures
        match r {
            Some(b) => bundled_ids(*data, key@) == Some(bundles_view(b@)),
            None => bundled_ids(*data, key@) is None,
        },
{
    match get_array(data, key) {
        Some(items) => Some(bundles_in(items)),
        None => None,
    }
}

/// The number of rows of a patch panel: the length of its `rows` array, 0
/// without one.
pub open spec fn row_count(data: JsonValue) -> int {
    match array_member(data, "rows"@) {
        Some(a) => a.len() as int,
        None => 0,
    }
}

/// The number of rows of a patch panel.
pub fn patch_panel_row_count(data: &JsonValue) -> (n: usize)
    ensures
        n == row_count(*data),
{
    match get_array(data, "rows") {
        Some(a) => a.len(),
        None => 0,
    }
}

/// The trimmed texts among `items` that are not empty, in order.
pub open spec fn nonempty_lines(items: Seq<JsonValue>) -> Seq<Seq<char>>
    decreases items.len(),
{
    if items.len() == 0 {
        Seq::empty()
    } else {
        nonempty_lines(items.drop_last()) + match json_str(items.last()) {
            Some(t) => if trim(t).len() > 0 {
                seq![trim(t)]
            } else {
                Seq::<Seq<char>>::empty()
            },
            None => Seq::<Seq<char>>::empty(),
        }
    }
}

/// The description lines of a patch panel: the trimmed non-empty texts of
/// its `descriptionLines`, else the default lines.
pub open spec fn description_lines(data: JsonValue, default: Seq<Seq<char>>) -> Seq<Seq<char>> {
    match array_member(data, "descriptionLines"@) {
        Some(items) => if nonempty_lines(items).len() > 0 {
            nonempty_lines(items)
        } else {
            default
        },
        None => default,
    }
}

/// The texts of a list of string slices.
pub open spec fn str_texts(v: Seq<&str>) -> Seq<Seq<char>> {
    v.map_values(|s: &str| s@)
}

/// The description lines of a patch panel, or `default` when it has none.
pub fn description_lines_from_data(data: &JsonValue, default: &[&str]) -> (out: Vec<String>)
    ensures
        texts(out@) == description_lines(*data, str_texts(default@)),
{
    let mut out: Vec<String> = Vec::new();
    if let Some(items) = get_array(data, "descriptionLines") {
        let mut k: usize = 0;
        while k < items.len()
            invariant
                k <= items@.len(),
                texts(out@) == nonempty_lines(items@.take(k as int)),
            decreases items@.len() - k,
        {
            let ghost prev = texts(out@);
            proof {
                let t = items@.take(k + 1);
                assert(t.drop_last() =~= items@.take(k as int));
                assert(t.last() == items@[k as int]);
            }
            match items[k].as_str() {
                Some(s) => {
                    let line = trim_vec(&str_chars(s));
                    if line.len() > 0 {
                        out.push(string_from_chars(&line));
                        assert(texts(out@) =~= prev + seq![trim(s@)]);
                    } else {
                        assert(texts(out@) =~= prev + Seq::<Seq<char>>::empty());
                    }
                },
                None => {
                    assert(texts(out@) =~= prev + Seq::<Seq<char>>::empty());
                },
            }
            k += 1;
        }
        assert(items@.take(items@.len() as int) =~= items@);
        if out.len() > 0 {
            return out;
        }
    }
    let mut d: Vec<String> = Vec::new();
    let mut k: usize = 0;
    while k < default.len()
        invariant
            k <= default@.len(),
            texts(d@) == str_texts(default@.take(k as int)),
        decreases default@.len() - k,
    {
        let line: &str = default[k];
        d.push(line.to_owned());
        proof {
            let t = default@.take(k + 1);
            assert(t =~= default@.take(k as int).push(line));
            assert(str_texts(t) =~= str_texts(default@.take(k as int)).push(line@));
        }
        assert(texts(d@) =~= str_texts(default@.take(k + 1)));
        k += 1;
    }
    assert(default@.take(default@.len() as int) =~= default@);
    d
}

/// Whether a wiretag is the `a` end of its pair: its `end` is `a`, or it
/// has no text `end` at all.
pub open spec fn end_is_a(data: JsonValue) -> bool {
    match str_member(data, "end"@) {
        Some(s) => s == "a"@,
        None => true,
    }
}

/// Whether a wiretag is the `a` end of its pair.
pub fn read_end_a(data: &JsonValue) -> (r: bool)
    ensures
        r == end_is_a(*data),
{
    match get_str(data, "end") {
        Some(s) => crate::diagram::same_text(s, "a"),
        None => true,
    }
}

/// Marks of the body rows that are not gaps.
pub open spec fn filled_marks(rows: Seq<SlotView>) -> Seq<bool> {
    rows.map_values(|s: SlotView| !(s is Gap))
}

/// The runs of consecutive non-gap rows of a device body, each as its first
/// row, last row and number of rows: the gutter edges are drawn along them.
pub fn gutter_row_runs(rows: &Vec<DeviceV2BodySlot>) -> (out: Vec<(usize, usize, usize)>)
    ensures
        runs_view(out@) == runs(filled_marks(slots_view(rows@))),
{
    let mut marks: Vec<bool> = Vec::new();
    let mut k: usize = 0;
    while k < rows.len()
        invariant
            k <= rows@.len(),
            marks@ == filled_marks(slots_view(rows@)).take(k as int),
        decreases rows@.len() - k,
    {
        let filled = match &rows[k] {
            DeviceV2BodySlot::Gap => false,
            _ => true,
        };
        marks.push(filled);
        assert(marks@ =~= filled_marks(slots_view(rows@)).take(k + 1));
        k += 1;
    }
    assert(marks@ =~= filled_marks(slots_view(rows@)));
    runs_exec(&marks)
}

} // verus!
