//! Wire categories: what a port carries, read from node data, and the layer
//! name and color a wire is drawn with.

use vstd::prelude::*;

use crate::chars::{str_chars, string_from_chars, trim, trim_vec, vec_eq};
use crate::diagram::{Edge, Node};
use crate::json::{array_member, get_array, get_str, json_array, json_at, json_bool, json_get, json_str, JsonValue};
use crate::ports::{device_v2_handle_parts, handle_parts, plate_handle_row, av_plate_handle_row};

verus! {

/// Wire signal categories.
#[derive(Debug, Clone, Copy, PartialEq, Eq, Hash, Structural)]
pub enum WireCategory {
    Audio,
    Video,
    Control,
    Network,
    Rf,
    Power,
    Default,
    Mismatch,
}

/// Name of a category (also the wire's layer name).
pub open spec fn category_name(c: WireCategory) -> Seq<char> {
    match c {
        WireCategory::Audio => "audio"@,
        WireCategory::Video => "video"@,
        WireCategory::Control => "control"@,
        WireCategory::Network => "network"@,
        WireCategory::Rf => "rf"@,
        WireCategory::Power => "power"@,
        WireCategory::Default => "default"@,
        WireCategory::Mismatch => "mismatch"@,
    }
}

/// sRGB `0xRRGGBB` wire color of a category.
pub open spec fn category_color(c: WireCategory) -> u32 {
    match c {
        WireCategory::Audio => 0xAE3700,
        WireCategory::Video => 0x0057C0,
        WireCategory::Control => 0x006F00,
        WireCategory::Network => 0x6F20BD,
        WireCategory::Rf => 0xB30300,
        WireCategory::Power => 0x9B0096,
        WireCategory::Default => 0x494F4B,
        WireCategory::Mismatch => 0xBA0000,
    }
}

impl WireCategory {
    /// The category's name.
    pub fn as_str(self) -> (s: &'static str)
        ensures
            s@ == category_name(self),
    {
        match self {
            WireCategory::Audio => "audio",
            WireCategory::Video => "video",
            WireCategory::Control => "control",
            WireCategory::Network => "network",
            WireCategory::Rf => "rf",
            WireCategory::Power => "power",
            WireCategory::Default => "default",
            WireCategory::Mismatch => "mismatch",
        }
    }

    /// The category's wire color, `0xRRGGBB`.
    pub fn color_rgb(self) -> (c: u32)
        ensures
            c == category_color(self),
    {
        match self {
            WireCategory::Audio => 0xAE3700,
            WireCategory::Video => 0x0057C0,
            WireCategory::Control => 0x006F00,
            WireCategory::Network => 0x6F20BD,
            WireCategory::Rf => 0xB30300,
            WireCategory::Power => 0x9B0096,
            WireCategory::Default => 0x494F4B,
            WireCategory::Mismatch => 0xBA0000,
        }
    }
}

/// What `str::to_lowercase` returns for a text.
pub uninterp spec fn lower_case(s: Seq<char>) -> Seq<char>;

/// `str::to_lowercase` (Unicode lower-case mapping). The contract only names
/// its result: `lower_case` of the argument; the mapping itself is not stated.
#[verifier::external_body]
fn to_lower(s: &Vec<char>) -> (r: Vec<char>)
    ensures
        r@ == lower_case(s@),
{
    let text: String = s.iter().collect();
    text.to_lowercase().chars().collect()
}

/// The category named by a lower-case name (`""` is the default category).
pub open spec fn category_named(name: Seq<char>) -> Option<WireCategory> {
    if name == "audio"@ {
        Some(WireCategory::Audio)
    } else if name == "video"@ {
        Some(WireCategory::Video)
    } else if name == "control"@ {
        Some(WireCategory::Control)
    } else if name == "network"@ {
        Some(WireCategory::Network)
    } else if name == "rf"@ {
        Some(WireCategory::Rf)
    } else if name == "power"@ {
        Some(WireCategory::Power)
    } else if name == "default"@ || name == ""@ {
        Some(WireCategory::Default)
    } else {
        None
    }
}

/// The category a stored value names: a text, trimmed and lower-cased.
pub open spec fn stored_category(v: JsonValue) -> Option<WireCategory> {
    match json_str(v) {
        Some(s) => category_named(lower_case(trim(s))),
        None => None,
    }
}

fn name_is(v: &Vec<char>, s: &str) -> (r: bool)
    ensures
        r == (v@ == s@),
{
    let w = str_chars(s);
    vec_eq(v, &w)
}

/// The category named by a lower-case name.
pub fn category_from_name(name: &Vec<char>) -> (r: Option<WireCategory>)
    ensures
        r == category_named(name@),
{
    if name_is(name, "audio") {
        Some(WireCategory::Audio)
    } else if name_is(name, "video") {
        Some(WireCategory::Video)
    } else if name_is(name, "control") {
        Some(WireCategory::Control)
    } else if name_is(name, "network") {
        Some(WireCategory::Network)
    } else if name_is(name, "rf") {
        Some(WireCategory::Rf)
    } else if name_is(name, "power") {
        Some(WireCategory::Power)
    } else if name_is(name, "default") || name_is(name, "") {
        Some(WireCategory::Default)
    } else {
        None
    }
}

/// Reads a stored wire category.
pub fn parse_wire_category(value: &JsonValue) -> (r: Option<WireCategory>)
    ensures
        r == stored_category(*value),
{
    match value.as_str() {
        Some(s) => {
            let v = str_chars(s);
            let t = trim_vec(&v);
            let l = to_lower(&t);
            category_from_name(&l)
        },
        None => None,
    }
}

/// The category a wire of this category is compared by: `-` stays `-`,
/// otherwise the name of the stored category.
pub open spec fn stored_comparable(v: JsonValue) -> Option<Seq<char>> {
    if json_str(v) matches Some(s) && trim(s) == "-"@ {
        Some("-"@)
    } else {
        match stored_category(v) {
            Some(c) => Some(category_name(c)),
            None => None,
        }
    }
}

/// The comparable form of a stored wire category.
pub fn comparable_category_from_stored(value: &JsonValue) -> (r: Option<String>)
    ensures
        match r {
            Some(s) => stored_comparable(*value) == Some(s@),
            None => stored_comparable(*value) is None,
        },
{
    match value.as_str() {
        Some(s) => {
            let v = str_chars(s);
            let t = trim_vec(&v);
            if name_is(&t, "-") {
                return Some("-".to_owned());
            }
        },
        None => {},
    }
    match parse_wire_category(value) {
        Some(c) => Some(c.as_str().to_owned()),
        None => None,
    }
}

// ---------------------------------------------------------------------------
// Rows of node data
// ---------------------------------------------------------------------------

/// The category of a row: its stored `wireCategory`, the default otherwise.
pub open spec fn row_category(row: JsonValue) -> WireCategory {
    match json_get(row, "wireCategory"@) {
        Some(v) => match stored_category(v) {
            Some(c) => c,
            None => WireCategory::Default,
        },
        None => WireCategory::Default,
    }
}

/// The comparable category of a row's stored `wireCategory`.
pub open spec fn row_comparable(row: JsonValue) -> Option<Seq<char>> {
    match json_get(row, "wireCategory"@) {
        Some(v) => stored_comparable(v),
        None => None,
    }
}

/// Looks for the row with id `id` from row `i` on: `None` when a row without
/// an `id` member comes first, else the index of the row, if any.
pub open spec fn lookup_row(rows: Seq<JsonValue>, id: Seq<char>, i: int) -> Option<Option<int>>
    decreases rows.len() - i,
{
    if i < 0 || i >= rows.len() {
        Some(None)
    } else {
        match json_get(rows[i], "id"@) {
            None => None,
            Some(v) => if json_str(v) == Some(id) {
                Some(Some(i))
            } else {
                lookup_row(rows, id, i + 1)
            },
        }
    }
}

fn lookup_row_exec(rows: &Vec<JsonValue>, id: &str) -> (r: Option<Option<usize>>)
    ensures
        match r {
            None => lookup_row(rows@, id@, 0) is None,
            Some(None) => lookup_row(rows@, id@, 0) == Some(None::<int>),
            Some(Some(i)) => lookup_row(rows@, id@, 0) == Some(Some(i as int)) && i < rows@.len(),
        },
{
    let mut i: usize = 0;
    while i < rows.len()
        invariant
            i <= rows@.len(),
            lookup_row(rows@, id@, 0) == lookup_row(rows@, id@, i as int),
        decreases rows@.len() - i,
    {
        match rows[i].get("id") {
            None => {
                return None;
            },
            Some(v) => {
                match v.as_str() {
                    Some(t) => {
                        if crate::diagram::same_text(t, id) {
                            return Some(Some(i));
                        }
                    },
                    None => {},
                }
            },
        }
        i += 1;
    }
    Some(None)
}

fn row_category_exec(row: &JsonValue) -> (c: WireCategory)
    ensures
        c == row_category(*row),
{
    match row.get("wireCategory") {
        Some(v) => match parse_wire_category(v) {
            Some(c) => c,
            None => WireCategory::Default,
        },
        None => WireCategory::Default,
    }
}

fn row_comparable_exec(row: &JsonValue) -> (c: Option<String>)
    ensures
        match c {
            Some(s) => row_comparable(*row) == Some(s@),
            None => row_comparable(*row) is None,
        },
{
    match row.get("wireCategory") {
        Some(v) => comparable_category_from_stored(v),
        None => None,
    }
}

/// Group `gi` of the left (`leftColumn`) or right (`rightColumn`) column.
pub open spec fn device_group(data: JsonValue, left: bool, gi: int) -> Option<JsonValue> {
    let col = if left {
        "leftColumn"@
    } else {
        "rightColumn"@
    };
    match json_get(data, col) {
        Some(c) => json_at(c, gi),
        None => None,
    }
}

fn device_group_exec<'a>(data: &'a JsonValue, left: bool, gi: usize) -> (r: Option<&'a JsonValue>)
    ensures
        match r {
            Some(g) => device_group(*data, left, gi as int) == Some(*g),
            None => device_group(*data, left, gi as int) is None,
        },
{
    let column = if left {
        data.get("leftColumn")
    } else {
        data.get("rightColumn")
    };
    match column {
        Some(c) => c.at(gi),
        None => None,
    }
}

/// The category of a device row handle `L-{group}-{row}`.
pub open spec fn device_row_category(node: Node, handle: Seq<char>) -> Option<WireCategory> {
    match handle_parts(handle) {
        None => None,
        Some((_side, gi, row_id)) => if row_id == "bundle"@ {
            None
        } else {
            match device_group(node.data, handle[0] == 'L', gi as int) {
                None => None,
                Some(g) => match array_member(g, "rows"@) {
                    None => None,
                    Some(rows) => match lookup_row(rows, row_id, 0) {
                        Some(Some(i)) => Some(row_category(rows[i])),
                        _ => None,
                    },
                },
            }
        },
    }
}

/// The category of the row a device handle names.
pub fn device_v2_row_category(node: &Node, handle_id: &str) -> (r: Option<WireCategory>)
    ensures
        r == device_row_category(*node, handle_id@),
{
    let (_side, group_index, row_id) = match device_v2_handle_parts(handle_id) {
        Some(p) => p,
        None => {
            return None;
        },
    };
    if crate::diagram::same_text(row_id.as_str(), "bundle") {
        return None;
    }
    let h = str_chars(handle_id);
    let side_left = h[0] == 'L';
    let group = match device_group_exec(&node.data, side_left, group_index) {
        Some(g) => g,
        None => {
            return None;
        },
    };
    let rows = match get_array(group, "rows") {
        Some(rows) => rows,
        None => {
            return None;
        },
    };
    match lookup_row_exec(rows, row_id.as_str()) {
        Some(Some(i)) => Some(row_category_exec(&rows[i])),
        _ => None,
    }
}

/// The comparable category of a device row handle.
pub open spec fn device_row_comparable(node: Node, handle: Seq<char>) -> Option<Seq<char>> {
    match handle_parts(handle) {
        None => None,
        Some((_side, gi, row_id)) => if row_id == "bundle"@ {
            None
        } else {
            match device_group(node.data, handle[0] == 'L', gi as int) {
                None => None,
                Some(g) => match array_member(g, "rows"@) {
                    None => None,
                    Some(rows) => match lookup_row(rows, row_id, 0) {
                        Some(Some(i)) => row_comparable(rows[i]),
                        _ => None,
                    },
                },
            }
        },
    }
}

/// The comparable category of the row a device handle names.
pub fn device_v2_row_comparable(node: &Node, handle_id: &str) -> (r: Option<String>)
    ensures
        match r {
            Some(s) => device_row_comparable(*node, handle_id@) == Some(s@),
            None => device_row_comparable(*node, handle_id@) is None,
        },
{
    let (_side, group_index, row_id) = match device_v2_handle_parts(handle_id) {
        Some(p) => p,
        None => {
            return None;
        },
    };
    if crate::diagram::same_text(row_id.as_str(), "bundle") {
        return None;
    }
    let h = str_chars(handle_id);
    let side_left = h.len() > 0 && h[0] == 'L';
    let group = match device_group_exec(&node.data, side_left, group_index) {
        Some(g) => g,
        None => {
            return None;
        },
    };
    let rows = match get_array(group, "rows") {
        Some(rows) => rows,
        None => {
            return None;
        },
    };
    match lookup_row_exec(rows, row_id.as_str()) {
        Some(Some(i)) => row_comparable_exec(&rows[i]),
        _ => None,
    }
}

// ---------------------------------------------------------------------------
// Bundles
// ---------------------------------------------------------------------------

/// The bundle index of a handle tail `bundle` (0) or `bundle-{n}`.
pub open spec fn bundle_tail_index(tail: Seq<char>) -> Option<usize> {
    if crate::chars::starts_with(tail, "bundle"@) {
        let t = tail.skip("bundle"@.len() as int);
        if t.len() == 0 {
            Some(0)
        } else if t[0] == '-' {
            crate::chars::parse_usize(t.skip(1))
        } else {
            None
        }
    } else {
        None
    }
}

/// `acc` with `c` added when it is not there yet.
pub open spec fn add_distinct(acc: Seq<WireCategory>, c: WireCategory) -> Seq<WireCategory> {
    if acc.contains(c) {
        acc
    } else {
        acc.push(c)
    }
}

/// Adds the categories of the rows with id `id`, from row `i` on; `None`
/// when a row without an `id` member is met.
pub open spec fn scan_rows(rows: Seq<JsonValue>, id: Seq<char>, i: int, acc: Seq<WireCategory>) -> Option<
    Seq<WireCategory>,
>
    decreases rows.len() - i,
{
    if i < 0 || i >= rows.len() {
        Some(acc)
    } else {
        match json_get(rows[i], "id"@) {
            None => None,
            Some(v) => scan_rows(
                rows,
                id,
                i + 1,
                if json_str(v) == Some(id) {
                    add_distinct(acc, row_category(rows[i]))
                } else {
                    acc
                },
            ),
        }
    }
}

/// Adds the categories of the rows named by `ids`, from id `j` on; `None`
/// when an id is not a text or a row has no `id` member.
pub open spec fn scan_ids(
    ids: Seq<JsonValue>,
    rows: Seq<JsonValue>,
    j: int,
    acc: Seq<WireCategory>,
) -> Option<Seq<WireCategory>>
    decreases ids.len() - j,
{
    if j < 0 || j >= ids.len() {
        Some(acc)
    } else {
        match json_str(ids[j]) {
            None => None,
            Some(id) => match scan_rows(rows, id, 0, acc) {
                None => None,
                Some(a) => scan_ids(ids, rows, j + 1, a),
            },
        }
    }
}

/// The category of a device bundle handle `L-{group}-bundle[-{n}]`: the one
/// category all its rows share, none when they differ.
pub open spec fn device_bundle_category(node: Node, handle: Seq<char>) -> Option<WireCategory> {
    match handle_parts(handle) {
        None => None,
        Some((_side, gi, tail)) => match bundle_tail_index(tail) {
            None => None,
            Some(bi) => match device_group(node.data, handle[0] == 'L', gi as int) {
                None => None,
                Some(g) => match array_member(g, "bundledRowIds"@) {
                    None => None,
                    Some(bundled) => if bundled.len() == 0 || bi >= bundled.len() {
                        None
                    } else {
                        match json_array(bundled[bi as int]) {
                            None => None,
                            Some(ids) => match array_member(g, "rows"@) {
                                None => None,
                                Some(rows) => match scan_ids(ids, rows, 0, Seq::empty()) {
                                    None => None,
                                    Some(cats) => if cats.len() == 1 {
                                        Some(cats[0])
                                    } else {
                                        None
                                    },
                                },
                            },
                        }
                    },
                },
            },
        },
    }
}

fn bundle_tail_index_exec(tail: &str) -> (r: Option<usize>)
    ensures
        r == bundle_tail_index(tail@),
{
    let t = str_chars(tail);
    let b = str_chars("bundle");
    if !crate::chars::starts_with_exec(&t, &b) {
        return None;
    }
    let rest = crate::chars::slice_vec(&t, b.len(), t.len());
    assert(rest@ =~= t@.skip("bundle"@.len() as int));
    if rest.len() == 0 {
        return Some(0);
    }
    if rest[0] != '-' {
        return None;
    }
    let num = crate::chars::slice_vec(&rest, 1, rest.len());
    assert(num@ =~= rest@.skip(1));
    crate::chars::parse_usize_exec(&num)
}

fn add_distinct_exec(acc: &mut Vec<WireCategory>, c: WireCategory)
    ensures
        final(acc)@ == add_distinct(old(acc)@, c),
{
    let mut k: usize = 0;
    while k < acc.len()
        invariant
            k <= acc@.len(),
            acc@ == old(acc)@,
            forall|j: int| 0 <= j < k ==> acc@[j] != c,
        decreases acc@.len() - k,
    {
        if acc[k] == c {
            assert(acc@.contains(c));
            return ;
        }
        k += 1;
    }
    assert(!acc@.contains(c));
    acc.push(c);
}

fn scan_rows_exec(rows: &Vec<JsonValue>, id: &str, acc: &mut Vec<WireCategory>) -> (ok: bool)
    ensures
        ok ==> scan_rows(rows@, id@, 0, old(acc)@) == Some(final(acc)@),
        !ok ==> scan_rows(rows@, id@, 0, old(acc)@) is None,
{
    let mut i: usize = 0;
    while i < rows.len()
        invariant
            i <= rows@.len(),
            scan_rows(rows@, id@, 0, old(acc)@) == scan_rows(rows@, id@, i as int, acc@),
        decreases rows@.len() - i,
    {
        match rows[i].get("id") {
            None => {
                return false;
            },
            Some(v) => {
                let matches = match v.as_str() {
                    Some(t) => crate::diagram::same_text(t, id),
                    None => false,
                };
                if matches {
                    let c = row_category_exec(&rows[i]);
                    add_distinct_exec(acc, c);
                }
            },
        }
        i += 1;
    }
    true
}

fn scan_ids_exec(ids: &Vec<JsonValue>, rows: &Vec<JsonValue>) -> (r: Option<Vec<WireCategory>>)
    ensures
        match r {
            Some(cats) => scan_ids(ids@, rows@, 0, Seq::empty()) == Some(cats@),
            None => scan_ids(ids@, rows@, 0, Seq::empty()) is None,
        },
{
    let mut acc: Vec<WireCategory> = Vec::new();
    let mut j: usize = 0;
    while j < ids.len()
        invariant
            j <= ids@.len(),
            scan_ids(ids@, rows@, 0, Seq::empty()) == scan_ids(ids@, rows@, j as int, acc@),
        decreases ids@.len() - j,
    {
        let id = match ids[j].as_str() {
            Some(t) => t,
            None => {
                return None;
            },
        };
        if !scan_rows_exec(rows, id, &mut acc) {
            return None;
        }
        j += 1;
    }
    Some(acc)
}

/// The shared category of the rows of a device bundle handle.
pub fn device_v2_bundle_category(node: &Node, handle_id: &str) -> (r: Option<WireCategory>)
    ensures
        r == device_bundle_category(*node, handle_id@),
{
    let (_side, group_index, tail) = match device_v2_handle_parts(handle_id) {
        Some(p) => p,
        None => {
            return None;
        },
    };
    let bundle_index = match bundle_tail_index_exec(tail.as_str()) {
        Some(b) => b,
        None => {
            return None;
        },
    };
    let h = str_chars(handle_id);
    let left = h[0] == 'L';
    let group = match device_group_exec(&node.data, left, group_index) {
        Some(g) => g,
        None => {
            return None;
        },
    };
    let bundled = match get_array(group, "bundledRowIds") {
        Some(b) => b,
        None => {
            return None;
        },
    };
    if bundled.len() == 0 || bundle_index >= bundled.len() {
        return None;
    }
    let ids = match bundled[bundle_index].as_array() {
        Some(a) => a,
        None => {
            return None;
        },
    };
    let rows = match get_array(group, "rows") {
        Some(r) => r,
        None => {
            return None;
        },
    };
    match scan_ids_exec(ids, rows) {
        Some(cats) => if cats.len() == 1 {
            Some(cats[0])
        } else {
            None
        },
        None => None,
    }
}

// ---------------------------------------------------------------------------
// AV plate rows
// ---------------------------------------------------------------------------

/// Looks for the row with id `id` in the groups from group `k` on: `None`
/// when a group has no rows array or a row has no `id` before it is found.
pub open spec fn plate_row_search(groups: Seq<JsonValue>, id: Seq<char>, k: int) -> Option<
    Option<JsonValue>,
>
    decreases groups.len() - k,
{
    if k < 0 || k >= groups.len() {
        Some(None)
    } else {
        match array_member(groups[k], "rows"@) {
            None => None,
            Some(rows) => match lookup_row(rows, id, 0) {
                None => None,
                Some(Some(i)) => Some(Some(rows[i])),
                Some(None) => plate_row_search(groups, id, k + 1),
            },
        }
    }
}

/// The row of node data that an AV plate handle names.
pub open spec fn plate_row(node: Node, handle: Seq<char>) -> Option<JsonValue> {
    match plate_handle_row(handle) {
        None => None,
        Some(row_id) => match array_member(node.data, "groups"@) {
            None => None,
            Some(groups) => match plate_row_search(groups, row_id, 0) {
                Some(Some(r)) => Some(r),
                _ => None,
            },
        },
    }
}

fn plate_row_exec<'a>(node: &'a Node, handle_id: &str) -> (r: Option<&'a JsonValue>)
    ensures
        match r {
            Some(row) => plate_row(*node, handle_id@) == Some(*row),
            None => plate_row(*node, handle_id@) is None,
        },
{
    let row_id = match av_plate_handle_row(handle_id) {
        Some(r) => r,
        None => {
            return None;
        },
    };
    let groups = match get_array(&node.data, "groups") {
        Some(g) => g,
        None => {
            return None;
        },
    };
    let mut k: usize = 0;
    while k < groups.len()
        invariant
            k <= groups@.len(),
            plate_row_search(groups@, row_id@, 0) == plate_row_search(groups@, row_id@, k as int),
            plate_handle_row(handle_id@) == Some(row_id@),
            array_member(node.data, "groups"@) == Some(groups@),
        decreases groups@.len() - k,
    {
        let rows = match get_array(&groups[k], "rows") {
            Some(r) => r,
            None => {
                return None;
            },
        };
        match lookup_row_exec(rows, row_id.as_str()) {
            None => {
                return None;
            },
            Some(Some(i)) => {
                return Some(&rows[i]);
            },
            Some(None) => {},
        }
        k += 1;
    }
    None
}

/// The category of an AV plate row handle.
pub open spec fn plate_row_category(node: Node, handle: Seq<char>) -> Option<WireCategory> {
    match plate_row(node, handle) {
        Some(r) => Some(row_category(r)),
        None => None,
    }
}

/// The category of the row an AV plate handle names.
pub fn av_plate_row_category(node: &Node, handle_id: &str) -> (r: Option<WireCategory>)
    ensures
        r == plate_row_category(*node, handle_id@),
{
    match plate_row_exec(node, handle_id) {
        Some(row) => Some(row_category_exec(row)),
        None => None,
    }
}

/// The comparable category of an AV plate row handle.
pub open spec fn plate_row_comparable(node: Node, handle: Seq<char>) -> Option<Seq<char>> {
    match plate_row(node, handle) {
        Some(r) => row_comparable(r),
        None => None,
    }
}

/// The comparable category of the row an AV plate handle names.
pub fn av_plate_row_comparable(node: &Node, handle_id: &str) -> (r: Option<String>)
    ensures
        match r {
            Some(s) => plate_row_comparable(*node, handle_id@) == Some(s@),
            None => plate_row_comparable(*node, handle_id@) is None,
        },
{
    match plate_row_exec(node, handle_id) {
        Some(row) => row_comparable_exec(row),
        None => None,
    }
}

// ---------------------------------------------------------------------------
// Ports and edges
// ---------------------------------------------------------------------------

/// The category stored in a node's own `wireCategory` member.
pub open spec fn member_category(data: JsonValue) -> Option<WireCategory> {
    match json_get(data, "wireCategory"@) {
        Some(v) => stored_category(v),
        None => None,
    }
}

fn member_category_exec(data: &JsonValue) -> (r: Option<WireCategory>)
    ensures
        r == member_category(*data),
{
    match data.get("wireCategory") {
        Some(v) => parse_wire_category(v),
        None => None,
    }
}

/// `c`, or `d` when `c` is none.
pub open spec fn or_cat(c: Option<WireCategory>, d: WireCategory) -> WireCategory {
    match c {
        Some(x) => x,
        None => d,
    }
}

/// The category of the port `handle` of `node`, by node type.
pub open spec fn port_category(node: Node, handle: Option<Seq<char>>) -> Option<WireCategory> {
    match handle {
        None => None,
        Some(h) => {
            let t = node.node_type@;
            if t == "deviceV2"@ || t == "device"@ {
                match device_bundle_category(node, h) {
                    Some(c) => Some(c),
                    None => device_row_category(node, h),
                }
            } else if t == "avPlate"@ {
                plate_row_category(node, h)
            } else if t == "lppPatchPanel"@ || t == "mlpPatchPanel"@ {
                Some(WireCategory::Audio)
            } else if t == "dppPatchPanel"@ {
                Some(WireCategory::Network)
            } else if t == "vpbPatchPanel"@ {
                Some(WireCategory::Video)
            } else if t == "micBlock"@ || t == "speakerBlock"@ || t == "volumeControl"@ {
                Some(or_cat(member_category(node.data), WireCategory::Audio))
            } else if t == "flyoffNote"@ {
                Some(or_cat(member_category(node.data), WireCategory::Default))
            } else if t == "antennaTransmitterSymbol"@ || t == "antennaReceiverSymbol"@ {
                Some(WireCategory::Rf)
            } else {
                None
            }
        },
    }
}

/// Views of an optional text.
pub open spec fn opt_str(o: Option<&str>) -> Option<Seq<char>> {
    match o {
        Some(s) => Some(s@),
        None => None,
    }
}

fn type_is(node: &Node, t: &str) -> (r: bool)
    ensures
        r == (node.node_type@ == t@),
{
    crate::diagram::same_text(node.node_type.as_str(), t)
}

/// The wire category of a port of `node`.
pub fn resolve_port_category(node: &Node, handle_id: Option<&str>) -> (r: Option<WireCategory>)
    ensures
        r == port_category(*node, opt_str(handle_id)),
{
    let h = match handle_id {
        Some(h) => h,
        None => {
            return None;
        },
    };
    if type_is(node, "deviceV2") || type_is(node, "device") {
        match device_v2_bundle_category(node, h) {
            Some(c) => Some(c),
            None => device_v2_row_category(node, h),
        }
    } else if type_is(node, "avPlate") {
        av_plate_row_category(node, h)
    } else if type_is(node, "lppPatchPanel") || type_is(node, "mlpPatchPanel") {
        Some(WireCategory::Audio)
    } else if type_is(node, "dppPatchPanel") {
        Some(WireCategory::Network)
    } else if type_is(node, "vpbPatchPanel") {
        Some(WireCategory::Video)
    } else if type_is(node, "micBlock") || type_is(node, "speakerBlock") || type_is(
        node,
        "volumeControl",
    ) {
        match member_category_exec(&node.data) {
            Some(c) => Some(c),
            None => Some(WireCategory::Audio),
        }
    } else if type_is(node, "flyoffNote") {
        match member_category_exec(&node.data) {
            Some(c) => Some(c),
            None => Some(WireCategory::Default),
        }
    } else if type_is(node, "antennaTransmitterSymbol") || type_is(node, "antennaReceiverSymbol") {
        Some(WireCategory::Rf)
    } else {
        None
    }
}

/// The comparable category of the port `handle` of `node`, by node type.
pub open spec fn port_comparable(node: Node, handle: Option<Seq<char>>) -> Option<Seq<char>> {
    match handle {
        None => None,
        Some(h) => {
            let t = node.node_type@;
            if t == "deviceV2"@ || t == "device"@ {
                device_row_comparable(node, h)
            } else if t == "avPlate"@ {
                plate_row_comparable(node, h)
            } else if t == "lppPatchPanel"@ || t == "mlpPatchPanel"@ {
                Some("audio"@)
            } else if t == "dppPatchPanel"@ {
                Some("network"@)
            } else if t == "vpbPatchPanel"@ {
                Some("video"@)
            } else if t == "micBlock"@ || t == "speakerBlock"@ || t == "volumeControl"@ {
                Some(
                    match member_category(node.data) {
                        Some(c) => category_name(c),
                        None => "audio"@,
                    },
                )
            } else if t == "flyoffNote"@ {
                match json_get(node.data, "wireCategory"@) {
                    Some(v) => stored_comparable(v),
                    None => None,
                }
            } else if t == "antennaTransmitterSymbol"@ || t == "antennaReceiverSymbol"@ {
                Some("rf"@)
            } else {
                None
            }
        },
    }
}

/// The comparable category of a port of `node`.
pub fn resolve_port_comparable(node: &Node, handle_id: Option<&str>) -> (r: Option<String>)
    ensures
        match r {
            Some(s) => port_comparable(*node, opt_str(handle_id)) == Some(s@),
            None => port_comparable(*node, opt_str(handle_id)) is None,
        },
{
    let h = match handle_id {
        Some(h) => h,
        None => {
            return None;
        },
    };
    if type_is(node, "deviceV2") || type_is(node, "device") {
        device_v2_row_comparable(node, h)
    } else if type_is(node, "avPlate") {
        av_plate_row_comparable(node, h)
    } else if type_is(node, "lppPatchPanel") || type_is(node, "mlpPatchPanel") {
        Some("audio".to_owned())
    } else if type_is(node, "dppPatchPanel") {
        Some("network".to_owned())
    } else if type_is(node, "vpbPatchPanel") {
        Some("video".to_owned())
    } else if type_is(node, "micBlock") || type_is(node, "speakerBlock") || type_is(
        node,
        "volumeControl",
    ) {
        match member_category_exec(&node.data) {
            Some(c) => Some(c.as_str().to_owned()),
            None => Some("audio".to_owned()),
        }
    } else if type_is(node, "flyoffNote") {
        match node.data.get("wireCategory") {
            Some(v) => comparable_category_from_stored(v),
            None => None,
        }
    } else if type_is(node, "antennaTransmitterSymbol") || type_is(node, "antennaReceiverSymbol") {
        Some("rf".to_owned())
    } else {
        None
    }
}

/// Views of an optional node handle id.
pub open spec fn handle_text(h: Option<String>) -> Option<Seq<char>> {
    match h {
        Some(s) => Some(s@),
        None => None,
    }
}

/// The category of an end of an edge: that of the node's port, if the node is known.
pub open spec fn end_category(node: Option<Node>, handle: Option<String>) -> Option<WireCategory> {
    match node {
        Some(n) => port_category(n, handle_text(handle)),
        None => None,
    }
}

/// The comparable category of an end of an edge.
pub open spec fn end_comparable(node: Option<Node>, handle: Option<String>) -> Option<Seq<char>> {
    match node {
        Some(n) => port_comparable(n, handle_text(handle)),
        None => None,
    }
}

/// The category a wire is drawn with: `mismatch` when both ends resolve to
/// different comparable categories or the edge is marked as a mismatch; else
/// the source port's category, the target port's, the edge's own, or the default.
pub open spec fn edge_category(edge: Edge, src: Option<Node>, tgt: Option<Node>) -> WireCategory {
    let sc = end_comparable(src, edge.source_handle);
    let tc = end_comparable(tgt, edge.target_handle);
    let resolved_mismatch = sc is Some && tc is Some && sc != tc;
    let flagged = match json_get(edge.data, "wireCategoryMismatch"@) {
        Some(v) => json_bool(v) == Some(true),
        None => false,
    };
    if resolved_mismatch || flagged {
        WireCategory::Mismatch
    } else {
        match end_category(src, edge.source_handle) {
            Some(c) => c,
            None => match end_category(tgt, edge.target_handle) {
                Some(c) => c,
                None => or_cat(member_category(edge.data), WireCategory::Default),
            },
        }
    }
}

/// Views of an optional node reference.
pub open spec fn opt_node(n: Option<&Node>) -> Option<Node> {
    match n {
        Some(x) => Some(*x),
        None => None,
    }
}

fn handle_ref(h: &Option<String>) -> (r: Option<&str>)
    ensures
        opt_str(r) == handle_text(*h),
{
    match h {
        Some(s) => Some(s.as_str()),
        None => None,
    }
}

/// The layer name and color of the wire drawn for `edge`, given the nodes at
/// its source and target (when they exist).
pub fn wire_style_for_edge(edge: &Edge, src_node: Option<&Node>, tgt_node: Option<&Node>) -> (r: (
    String,
    u32,
))
    ensures
        r.0@ == category_name(edge_category(*edge, opt_node(src_node), opt_node(tgt_node))),
        r.1 == category_color(edge_category(*edge, opt_node(src_node), opt_node(tgt_node))),
{
    let sh = handle_ref(&edge.source_handle);
    let th = handle_ref(&edge.target_handle);
    let src_cat = match src_node {
        Some(n) => resolve_port_category(n, sh),
        None => None,
    };
    let tgt_cat = match tgt_node {
        Some(n) => resolve_port_category(n, th),
        None => None,
    };
    let src_cmp = match src_node {
        Some(n) => resolve_port_comparable(n, sh),
        None => None,
    };
    let tgt_cmp = match tgt_node {
        Some(n) => resolve_port_comparable(n, th),
        None => None,
    };
    let resolved_mismatch = match (&src_cmp, &tgt_cmp) {
        (Some(a), Some(b)) => !crate::diagram::same_text(a.as_str(), b.as_str()),
        _ => false,
    };
    let flagged = match edge.data.get("wireCategoryMismatch") {
        Some(v) => match v.as_bool() {
            Some(b) => b,
            None => false,
        },
        None => false,
    };
    let category = match src_cat {
        Some(c) => c,
        None => match tgt_cat {
            Some(c) => c,
            None => match member_category_exec(&edge.data) {
                Some(c) => c,
                None => WireCategory::Default,
            },
        },
    };
    let display = if resolved_mismatch || flagged {
        WireCategory::Mismatch
    } else {
        category
    };
    (display.as_str().to_owned(), display.color_rgb())
}

/// The category name of a port, for a new connection.
pub fn resolve_port_category_for_connect(node: &Node, handle_id: Option<&str>) -> (r: Option<String>)
    ensures
        match r {
            Some(s) => port_category(*node, opt_str(handle_id)) matches Some(c) && s@
                == category_name(c),
            None => port_category(*node, opt_str(handle_id)) is None,
        },
{
    match resolve_port_category(node, handle_id) {
        Some(c) => Some(c.as_str().to_owned()),
        None => None,
    }
}

/// The comparable category of a port, for mismatch checks on new connections.
pub fn resolve_port_comparable_for_connect(node: &Node, handle_id: Option<&str>) -> (r: Option<
    String,
>)
    ensures
        match r {
            Some(s) => port_comparable(*node, opt_str(handle_id)) == Some(s@),
            None => port_comparable(*node, opt_str(handle_id)) is None,
        },
{
    resolve_port_comparable(node, handle_id)
}

// ---------------------------------------------------------------------------
// Laws
// ---------------------------------------------------------------------------

/// Each category has its own color.
pub proof fn categories_have_distinct_colors(a: WireCategory, b: WireCategory)
    requires
        a != b,
    ensures
        category_color(a) != category_color(b),
{
}

/// Each category has its own name.
pub proof fn categories_have_distinct_names(a: WireCategory, b: WireCategory)
    requires
        a != b,
    ensures
        category_name(a) != category_name(b),
{
    reveal_strlit("audio");
    reveal_strlit("video");
    reveal_strlit("control");
    reveal_strlit("network");
    reveal_strlit("rf");
    reveal_strlit("power");
    reveal_strlit("default");
    reveal_strlit("mismatch");
    let na = category_name(a);
    let nb = category_name(b);
    if na.len() == nb.len() {
        assert(na[0] != nb[0] || na[1] != nb[1]);
    }
}

proof fn lemma_scan_rows_no_mismatch(rows: Seq<JsonValue>, id: Seq<char>, i: int, acc: Seq<WireCategory>)
    requires
        !acc.contains(WireCategory::Mismatch),
    ensures
        scan_rows(rows, id, i, acc) matches Some(a) ==> !a.contains(WireCategory::Mismatch),
    decreases rows.len() - i,
{
    if 0 <= i < rows.len() {
        if let Some(v) = json_get(rows[i], "id"@) {
            let next = if json_str(v) == Some(id) {
                add_distinct(acc, row_category(rows[i]))
            } else {
                acc
            };
            if json_str(v) == Some(id) && !acc.contains(row_category(rows[i])) {
                assert forall|k: int| 0 <= k < next.len() implies next[k] != WireCategory::Mismatch by {
                    if k < acc.len() {
                        assert(acc[k] != WireCategory::Mismatch);
                    }
                }
            }
            lemma_scan_rows_no_mismatch(rows, id, i + 1, next);
        }
    }
}

proof fn lemma_scan_ids_no_mismatch(
    ids: Seq<JsonValue>,
    rows: Seq<JsonValue>,
    j: int,
    acc: Seq<WireCategory>,
)
    requires
        !acc.contains(WireCategory::Mismatch),
    ensures
        scan_ids(ids, rows, j, acc) matches Some(a) ==> !a.contains(WireCategory::Mismatch),
    decreases ids.len() - j,
{
    if 0 <= j < ids.len() {
        if let Some(id) = json_str(ids[j]) {
            lemma_scan_rows_no_mismatch(rows, id, 0, acc);
            if let Some(a) = scan_rows(rows, id, 0, acc) {
                lemma_scan_ids_no_mismatch(ids, rows, j + 1, a);
            }
        }
    }
}

proof fn lemma_port_not_mismatch(node: Node, handle: Option<Seq<char>>)
    ensures
        port_category(node, handle) != Some(WireCategory::Mismatch),
{
    if let Some(h) = handle {
        if let Some((_side, gi, tail)) = handle_parts(h) {
            if let Some(bi) = bundle_tail_index(tail) {
                if let Some(g) = device_group(node.data, h[0] == 'L', gi as int) {
                    if let Some(bundled) = array_member(g, "bundledRowIds"@) {
                        if !(bundled.len() == 0 || bi >= bundled.len()) {
                            if let Some(ids) = json_array(bundled[bi as int]) {
                                if let Some(rows) = array_member(g, "rows"@) {
                                    lemma_scan_ids_no_mismatch(ids, rows, 0, Seq::empty());
                                    if let Some(cats) = scan_ids(ids, rows, 0, Seq::empty()) {
                                        if cats.len() == 1 {
                                            assert(cats.contains(cats[0]));
                                        }
                                    }
                                }
                            }
                        }
                    }
                }
            }
        }
    }
}

/// The edge with its ends swapped.
pub open spec fn reversed(e: Edge) -> Edge {
    Edge {
        id: e.id,
        source: e.target,
        target: e.source,
        source_handle: e.target_handle,
        target_handle: e.source_handle,
        edge_type: e.edge_type,
        data: e.data,
    }
}

/// Whether a wire shows as a mismatch does not depend on its direction.
pub proof fn mismatch_independent_of_direction(e: Edge, src: Option<Node>, tgt: Option<Node>)
    ensures
        (edge_category(e, src, tgt) == WireCategory::Mismatch) == (edge_category(
            reversed(e),
            tgt,
            src,
        ) == WireCategory::Mismatch),
{
    if let Some(n) = src {
        lemma_port_not_mismatch(n, handle_text(e.source_handle));
    }
    if let Some(n) = tgt {
        lemma_port_not_mismatch(n, handle_text(e.target_handle));
    }
    lemma_member_not_mismatch(e.data);
}

proof fn lemma_member_not_mismatch(data: JsonValue)
    ensures
        member_category(data) != Some(WireCategory::Mismatch),
{
}


/// A wire whose edge is not marked `wireCategoryMismatch: true` (the member
/// is missing, `false`, or not a boolean) and whose two ends do not resolve
/// to different comparable categories is not drawn as a mismatch: it takes
/// the source port's category, else the target port's, else the edge's own
/// stored category, else the default one.
pub proof fn unmarked_wire_keeps_its_category(e: Edge, src: Option<Node>, tgt: Option<Node>)
    requires
        match json_get(e.data, "wireCategoryMismatch"@) {
            Some(v) => json_bool(v) != Some(true),
            None => true,
        },
        !(end_comparable(src, e.source_handle) is Some && end_comparable(tgt, e.target_handle) is Some
            && end_comparable(src, e.source_handle) != end_comparable(tgt, e.target_handle)),
    ensures
        edge_category(e, src, tgt) != WireCategory::Mismatch,
        end_category(src, e.source_handle) matches Some(c) ==> edge_category(e, src, tgt) == c,
        (end_category(src, e.source_handle) is None && end_category(tgt, e.target_handle) is Some)
            ==> edge_category(e, src, tgt) == end_category(tgt, e.target_handle).unwrap(),
        (end_category(src, e.source_handle) is None && end_category(tgt, e.target_handle) is None
            && member_category(e.data) is Some) ==> edge_category(e, src, tgt) == member_category(
            e.data,
        ).unwrap(),
        (end_category(src, e.source_handle) is None && end_category(tgt, e.target_handle) is None
            && member_category(e.data) is None) ==> edge_category(e, src, tgt) == WireCategory::Default,
{
    if let Some(n) = src {
        lemma_port_not_mismatch(n, handle_text(e.source_handle));
    }
    if let Some(n) = tgt {
        lemma_port_not_mismatch(n, handle_text(e.target_handle));
    }
    lemma_member_not_mismatch(e.data);
}


/// A wire whose two ends resolve to different comparable categories, or
/// whose edge is marked `wireCategoryMismatch: true`, is drawn as a
/// mismatch.
pub proof fn conflicting_wire_is_mismatch(e: Edge, src: Option<Node>, tgt: Option<Node>)
    ensures
        (end_comparable(src, e.source_handle) is Some && end_comparable(tgt, e.target_handle) is Some
            && end_comparable(src, e.source_handle) != end_comparable(tgt, e.target_handle))
            ==> edge_category(e, src, tgt) == WireCategory::Mismatch,
        json_get(e.data, "wireCategoryMismatch"@) == Some(JsonValue::Bool(true)) ==> edge_category(
            e,
            src,
            tgt,
        ) == WireCategory::Mismatch,
{
}


/// The layer name and sRGB colour of each wire category.
pub proof fn category_names_and_colours()
    ensures
        category_name(WireCategory::Audio) == "audio"@ && category_color(WireCategory::Audio)
            == 0xAE3700,
        category_name(WireCategory::Video) == "video"@ && category_color(WireCategory::Video)
            == 0x0057C0,
        category_name(WireCategory::Control) == "control"@ && category_color(WireCategory::Control)
            == 0x006F00,
        category_name(WireCategory::Network) == "network"@ && category_color(WireCategory::Network)
            == 0x6F20BD,
        category_name(WireCategory::Rf) == "rf"@ && category_color(WireCategory::Rf) == 0xB30300,
        category_name(WireCategory::Power) == "power"@ && category_color(WireCategory::Power)
            == 0x9B0096,
        category_name(WireCategory::Default) == "default"@ && category_color(WireCategory::Default)
            == 0x494F4B,
        category_name(WireCategory::Mismatch) == "mismatch"@ && category_color(
            WireCategory::Mismatch,
        ) == 0xBA0000,
{
}

} // verus!
