//! Device and AV plate body rows: the column groups read from node data and
//! the flattened grid of rows they are drawn on.

use vstd::prelude::*;

use crate::chars::{dec_nat, dec_u64_exec, push_all, push_str, str_chars, string_from_chars, trim, trim_vec};
use crate::json::{
    array_member, get_array, get_str, json_array, json_get, json_str, str_member, JsonValue,
};

verus! {

/// One port row of a column group.
#[derive(Debug, Clone)]
pub struct PortRow {
    pub id: String,
    pub label: String,
    pub direction: Option<String>,
}

/// A port row as plain values: id, label, direction.
pub type PortRowView = (Seq<char>, Seq<char>, Option<Seq<char>>);

/// Views of optional texts.
pub open spec fn opt_text(o: Option<String>) -> Option<Seq<char>> {
    match o {
        Some(s) => Some(s@),
        None => None,
    }
}

impl View for PortRow {
    type V = PortRowView;

    open spec fn view(&self) -> PortRowView {
        (self.id@, self.label@, opt_text(self.direction))
    }
}

/// A titled group of port rows with its bundles of row ids.
#[derive(Debug, Clone)]
pub struct ColumnGroup {
    pub header: Option<String>,
    pub rows: Vec<PortRow>,
    pub bundled_row_ids: Vec<Vec<String>>,
}

/// A column group as plain values: header, rows, bundles.
pub type ColumnGroupView = (Option<Seq<char>>, Seq<PortRowView>, Seq<Seq<Seq<char>>>);

/// Views of a list of texts.
pub open spec fn texts(v: Seq<String>) -> Seq<Seq<char>> {
    v.map_values(|s: String| s@)
}

/// Views of a list of rows.
pub open spec fn rows_view(v: Seq<PortRow>) -> Seq<PortRowView> {
    v.map_values(|r: PortRow| r@)
}

impl View for ColumnGroup {
    type V = ColumnGroupView;

    open spec fn view(&self) -> ColumnGroupView {
        (
            opt_text(self.header),
            rows_view(self.rows@),
            self.bundled_row_ids@.map_values(|b: Vec<String>| texts(b@)),
        )
    }
}

/// Views of a list of groups.
pub open spec fn groups_view(v: Seq<ColumnGroup>) -> Seq<ColumnGroupView> {
    v.map_values(|g: ColumnGroup| g@)
}

/// Which side of a device a column is on.
#[derive(Debug, Clone, Copy, PartialEq, Eq, Structural)]
pub enum Side {
    Left,
    Right,
}

/// One row of a device body grid.
#[derive(Debug, Clone)]
pub enum DeviceV2BodySlot {
    Header { label: String },
    Port { group_index: usize, row: PortRow },
    Condensed { group_index: usize, start_label: String, end_label: String },
    Bundled { group_index: usize, count: usize, side: Side },
    Gap,
}

/// A body grid row as plain values.
pub enum SlotView {
    Header(Seq<char>),
    Port(int, PortRowView),
    Condensed(int, Seq<char>, Seq<char>),
    Bundled(int, int, Side),
    Gap,
}

impl View for DeviceV2BodySlot {
    type V = SlotView;

    open spec fn view(&self) -> SlotView {
        match self {
            DeviceV2BodySlot::Header { label } => SlotView::Header(label@),
            DeviceV2BodySlot::Port { group_index, row } => SlotView::Port(*group_index as int, row@),
            DeviceV2BodySlot::Condensed { group_index, start_label, end_label } => SlotView::Condensed(
                *group_index as int,
                start_label@,
                end_label@,
            ),
            DeviceV2BodySlot::Bundled { group_index, count, side } => SlotView::Bundled(
                *group_index as int,
                *count as int,
                *side,
            ),
            DeviceV2BodySlot::Gap => SlotView::Gap,
        }
    }
}

/// Views of a list of device body rows.
pub open spec fn slots_view(v: Seq<DeviceV2BodySlot>) -> Seq<SlotView> {
    v.map_values(|s: DeviceV2BodySlot| s@)
}

/// One row of an AV plate body grid.
#[derive(Debug, Clone)]
pub enum AvPlateBodyRow {
    Gap,
    Header { label: String },
    Port { group_index: usize, row_id: String, label: String, direction: Option<String> },
}

/// An AV plate body row as plain values.
pub enum PlateRowView {
    Gap,
    Header(Seq<char>),
    Port(int, Seq<char>, Seq<char>, Option<Seq<char>>),
}

impl View for AvPlateBodyRow {
    type V = PlateRowView;

    open spec fn view(&self) -> PlateRowView {
        match self {
            AvPlateBodyRow::Gap => PlateRowView::Gap,
            AvPlateBodyRow::Header { label } => PlateRowView::Header(label@),
            AvPlateBodyRow::Port { group_index, row_id, label, direction } => PlateRowView::Port(
                *group_index as int,
                row_id@,
                label@,
                opt_text(*direction),
            ),
        }
    }
}

/// Views of a list of AV plate body rows.
pub open spec fn plate_rows_view(v: Seq<AvPlateBodyRow>) -> Seq<PlateRowView> {
    v.map_values(|r: AvPlateBodyRow| r@)
}

// ---------------------------------------------------------------------------
// Reading groups from node data
// ---------------------------------------------------------------------------

/// The text, or the empty text.
pub open spec fn or_empty(o: Option<Seq<char>>) -> Seq<char> {
    match o {
        Some(s) => s,
        None => Seq::<char>::empty(),
    }
}

/// The value behind an optional reference.
pub open spec fn deref_opt(o: Option<&JsonValue>) -> Option<JsonValue> {
    match o {
        Some(x) => Some(*x),
        None => None,
    }
}

/// A row read from JSON: `id` and `label` (empty when missing), `direction`.
pub open spec fn parsed_row(v: JsonValue) -> PortRowView {
    (or_empty(str_member(v, "id"@)), or_empty(str_member(v, "label"@)), str_member(v, "direction"@))
}

/// The header of a group: the `header` member as text, else the `title` member.
pub open spec fn group_header(v: JsonValue) -> Option<Seq<char>> {
    match json_get(v, "header"@) {
        Some(h) => json_str(h),
        None => str_member(v, "title"@),
    }
}

/// The texts among `items`, in order.
pub open spec fn strings_of(items: Seq<JsonValue>) -> Seq<Seq<char>>
    decreases items.len(),
{
    if items.len() == 0 {
        Seq::empty()
    } else {
        strings_of(items.drop_last()) + match json_str(items.last()) {
            Some(t) => seq![t],
            None => Seq::<Seq<char>>::empty(),
        }
    }
}

/// The arrays among `items`, each reduced to its texts.
pub open spec fn bundles_of(items: Seq<JsonValue>) -> Seq<Seq<Seq<char>>>
    decreases items.len(),
{
    if items.len() == 0 {
        Seq::empty()
    } else {
        bundles_of(items.drop_last()) + match json_array(items.last()) {
            Some(a) => seq![strings_of(a)],
            None => Seq::<Seq<Seq<char>>>::empty(),
        }
    }
}

/// Bundles of row ids: a flat list of ids is one bundle; a list of lists is
/// one bundle per list; anything else is none.
pub open spec fn normalized_bundles(raw: Option<JsonValue>) -> Seq<Seq<Seq<char>>> {
    match raw {
        None => Seq::empty(),
        Some(r) => match json_array(r) {
            None => Seq::empty(),
            Some(items) => if items.len() == 0 {
                Seq::empty()
            } else if json_str(items[0]) is Some {
                seq![strings_of(items)]
            } else {
                bundles_of(items)
            },
        },
    }
}

/// A column group read from JSON.
pub open spec fn parsed_group(v: JsonValue) -> ColumnGroupView {
    (
        group_header(v),
        match array_member(v, "rows"@) {
            Some(rows) => rows.map_values(|r: JsonValue| parsed_row(r)),
            None => Seq::empty(),
        },
        normalized_bundles(json_get(v, "bundledRowIds"@)),
    )
}

fn string_or_empty(o: Option<&str>) -> (s: String)
    ensures
        s@ == or_empty(match o {
            Some(t) => Some(t@),
            None => None,
        }),
{
    match o {
        Some(t) => t.to_owned(),
        None => String::new(),
    }
}

fn opt_string(o: Option<&str>) -> (s: Option<String>)
    ensures
        opt_text(s) == (match o {
            Some(t) => Some(t@),
            None => None::<Seq<char>>,
        }),
{
    match o {
        Some(t) => Some(t.to_owned()),
        None => None,
    }
}

fn parse_port_row(v: &JsonValue) -> (r: PortRow)
    ensures
        r@ == parsed_row(*v),
{
    PortRow {
        id: string_or_empty(get_str(v, "id")),
        label: string_or_empty(get_str(v, "label")),
        direction: opt_string(get_str(v, "direction")),
    }
}

fn strings_in(items: &Vec<JsonValue>) -> (r: Vec<String>)
    ensures
        texts(r@) == strings_of(items@),
{
    let mut out: Vec<String> = Vec::new();
    let mut k: usize = 0;
    while k < items.len()
        invariant
            k <= items@.len(),
            texts(out@) == strings_of(items@.take(k as int)),
        decreases items@.len() - k,
    {
        let ghost prev = out@;
        proof {
            let t = items@.take(k + 1);
            assert(t.drop_last() =~= items@.take(k as int));
            assert(t.last() == items@[k as int]);
        }
        match items[k].as_str() {
            Some(t) => {
                out.push(t.to_owned());
                assert(texts(out@) =~= texts(prev) + seq![t@]);
            },
            None => {
                assert(texts(out@) =~= texts(prev) + Seq::<Seq<char>>::empty());
            },
        }
        k += 1;
    }
    assert(items@.take(items@.len() as int) =~= items@);
    out
}

/// Views of a list of bundles.
pub open spec fn bundles_view(v: Seq<Vec<String>>) -> Seq<Seq<Seq<char>>> {
    v.map_values(|b: Vec<String>| texts(b@))
}

pub(crate) fn bundles_in(items: &Vec<JsonValue>) -> (r: Vec<Vec<String>>)
    ensures
        bundles_view(r@) == bundles_of(items@),
{
    let mut out: Vec<Vec<String>> = Vec::new();
    let mut k: usize = 0;
    while k < items.len()
        invariant
            k <= items@.len(),
            bundles_view(out@) == bundles_of(items@.take(k as int)),
        decreases items@.len() - k,
    {
        let ghost prev = out@;
        proof {
            let t = items@.take(k + 1);
            assert(t.drop_last() =~= items@.take(k as int));
            assert(t.last() == items@[k as int]);
        }
        match items[k].as_array() {
            Some(a) => {
                let b = strings_in(a);
                out.push(b);
                assert(bundles_view(out@) =~= bundles_view(prev) + seq![strings_of(a@)]);
            },
            None => {
                assert(bundles_view(out@) =~= bundles_view(prev) + Seq::<Seq<Seq<char>>>::empty());
            },
        }
        k += 1;
    }
    assert(items@.take(items@.len() as int) =~= items@);
    out
}

/// Bundles of row ids from a `bundledRowIds` value.
pub fn normalize_bundles(raw: Option<&JsonValue>) -> (r: Vec<Vec<String>>)
    ensures
        bundles_view(r@) == normalized_bundles(deref_opt(raw)),
{
    let items = match raw {
        Some(v) => match v.as_array() {
            Some(a) => a,
            None => {
                return Vec::new();
            },
        },
        None => {
            return Vec::new();
        },
    };
    if items.len() == 0 {
        return Vec::new();
    }
    if items[0].is_string() {
        let ids = strings_in(items);
        let mut out: Vec<Vec<String>> = Vec::new();
        out.push(ids);
        assert(bundles_view(out@) =~= seq![strings_of(items@)]);
        return out;
    }
    bundles_in(items)
}

/// Reads one column group (`header`/`title`, `rows`, `bundledRowIds`).
pub fn parse_column_group(value: &JsonValue) -> (g: ColumnGroup)
    ensures
        g@ == parsed_group(*value),
{
    let header = match value.get("header") {
        Some(h) => opt_string(h.as_str()),
        None => opt_string(get_str(value, "title")),
    };
    let mut rows: Vec<PortRow> = Vec::new();
    let ghost want: Seq<PortRowView> = match array_member(*value, "rows"@) {
        Some(rs) => rs.map_values(|r: JsonValue| parsed_row(r)),
        None => Seq::empty(),
    };
    match get_array(value, "rows") {
        Some(arr) => {
            let mut k: usize = 0;
            while k < arr.len()
                invariant
                    k <= arr@.len(),
                    want == arr@.map_values(|r: JsonValue| parsed_row(r)),
                    rows@.len() == k,
                    forall|j: int| 0 <= j < k ==> #[trigger] rows@[j]@ == want[j],
                decreases arr@.len() - k,
            {
                let r = parse_port_row(&arr[k]);
                rows.push(r);
                k += 1;
            }
        },
        None => {},
    }
    assert(rows_view(rows@) =~= want);
    let bundled_row_ids = normalize_bundles(value.get("bundledRowIds"));
    ColumnGroup { header, rows, bundled_row_ids }
}

/// `left` or `right`.
pub open spec fn side_word(side: Side) -> Seq<char> {
    match side {
        Side::Left => "left"@,
        Side::Right => "right"@,
    }
}

/// A group of the legacy form: a `name` and a list of port labels; row `p` of
/// group `g` gets the id `{side}-{g}-{p}`.
pub open spec fn legacy_group(g: JsonValue, gi: int, side: Side) -> ColumnGroupView {
    (
        str_member(g, "name"@),
        match array_member(g, "ports"@) {
            Some(ports) => ports.map(
                |pi: int, label: JsonValue|
                    (
                        side_word(side) + "-"@ + dec_nat(gi as nat) + "-"@ + dec_nat(pi as nat),
                        or_empty(json_str(label)),
                        None::<Seq<char>>,
                    ),
            ),
            None => Seq::empty(),
        },
        Seq::empty(),
    )
}

/// The groups of one device side: the current form when it has groups, else
/// the legacy form, else none.
pub open spec fn side_groups(
    current: Option<Seq<JsonValue>>,
    legacy: Option<Seq<JsonValue>>,
    side: Side,
) -> Seq<ColumnGroupView> {
    match current {
        Some(c) if c.len() > 0 => c.map_values(|g: JsonValue| parsed_group(g)),
        _ => match legacy {
            None => Seq::empty(),
            Some(l) => l.map(|gi: int, g: JsonValue| legacy_group(g, gi, side)),
        },
    }
}

/// Views of an optional list of JSON values.
pub open spec fn opt_items(o: Option<&Vec<JsonValue>>) -> Option<Seq<JsonValue>> {
    match o {
        Some(v) => Some(v@),
        None => None,
    }
}

fn legacy_group_exec(g: &JsonValue, gi: usize, side: Side) -> (r: ColumnGroup)
    ensures
        r@ == legacy_group(*g, gi as int, side),
{
    let header = opt_string(get_str(g, "name"));
    let mut rows: Vec<PortRow> = Vec::new();
    let ghost want: Seq<PortRowView> = legacy_group(*g, gi as int, side).1;
    match get_array(g, "ports") {
        Some(ports) => {
            let mut k: usize = 0;
            while k < ports.len()
                invariant
                    k <= ports@.len(),
                    want == legacy_group(*g, gi as int, side).1,
                    array_member(*g, "ports"@) == Some(ports@),
                    rows@.len() == k,
                    forall|j: int| 0 <= j < k ==> #[trigger] rows@[j]@ == want[j],
                decreases ports@.len() - k,
            {
                let mut id: Vec<char> = match side {
                    Side::Left => str_chars("left"),
                    Side::Right => str_chars("right"),
                };
                push_str(&mut id, "-");
                let gd = dec_u64_exec(gi as u64);
                push_all(&mut id, &gd);
                push_str(&mut id, "-");
                let pd = dec_u64_exec(k as u64);
                push_all(&mut id, &pd);
                let label = string_or_empty(ports[k].as_str());
                let row = PortRow { id: string_from_chars(&id), label, direction: None };
                assert(row@.0 =~= side_word(side) + "-"@ + dec_nat(gi as nat) + "-"@ + dec_nat(
                    k as nat,
                ));
                rows.push(row);
                k += 1;
            }
        },
        None => {},
    }
    assert(rows_view(rows@) =~= want);
    let bundled: Vec<Vec<String>> = Vec::new();
    let r = ColumnGroup { header, rows, bundled_row_ids: bundled };
    assert(r@.2 =~= Seq::<Seq<Seq<char>>>::empty());
    r
}

/// The column groups of one device side, from its current (`leftColumn`)
/// and legacy (`leftGroups`) data.
pub fn normalize_device_side_groups(
    current: Option<&Vec<JsonValue>>,
    legacy: Option<&Vec<JsonValue>>,
    side: Side,
) -> (out: Vec<ColumnGroup>)
    ensures
        groups_view(out@) == side_groups(opt_items(current), opt_items(legacy), side),
{
    let ghost want = side_groups(opt_items(current), opt_items(legacy), side);
    let mut out: Vec<ColumnGroup> = Vec::new();
    match current {
        Some(groups) => {
            if groups.len() > 0 {
                let mut k: usize = 0;
                while k < groups.len()
                    invariant
                        k <= groups@.len(),
                        groups@.len() > 0,
                        want == groups@.map_values(|g: JsonValue| parsed_group(g)),
                        out@.len() == k,
                        forall|j: int| 0 <= j < k ==> #[trigger] out@[j]@ == want[j],
                    decreases groups@.len() - k,
                {
                    out.push(parse_column_group(&groups[k]));
                    k += 1;
                }
                assert(groups_view(out@) =~= want);
                return out;
            }
        },
        None => {},
    }
    match legacy {
        Some(l) => {
            let mut k: usize = 0;
            while k < l.len()
                invariant
                    k <= l@.len(),
                    want == l@.map(|gi: int, g: JsonValue| legacy_group(g, gi, side)),
                    out@.len() == k,
                    forall|j: int| 0 <= j < k ==> #[trigger] out@[j]@ == want[j],
                decreases l@.len() - k,
            {
                out.push(legacy_group_exec(&l[k], k, side));
                k += 1;
            }
        },
        None => {},
    }
    assert(groups_view(out@) =~= want);
    out
}

// ---------------------------------------------------------------------------
// Flattening
// ---------------------------------------------------------------------------

/// The header row of a group: its trimmed header, when not blank.
pub open spec fn header_slot(h: Option<Seq<char>>) -> Seq<SlotView> {
    match h {
        Some(t) => if trim(t).len() > 0 {
            seq![SlotView::Header(trim(t))]
        } else {
            Seq::empty()
        },
        None => Seq::empty(),
    }
}

/// The rows of group `gi`: its header row, one port row per row, a gap.
pub open spec fn group_slots(g: ColumnGroupView, gi: int) -> Seq<SlotView> {
    header_slot(g.0) + g.1.map_values(|r: PortRowView| SlotView::Port(gi, r)) + seq![SlotView::Gap]
}

/// The rows of the first `n` groups.
pub open spec fn groups_slots(gs: Seq<ColumnGroupView>, n: int) -> Seq<SlotView>
    decreases n,
{
    if n <= 0 {
        Seq::empty()
    } else {
        groups_slots(gs, n - 1) + group_slots(gs[n - 1], n - 1)
    }
}

/// The body grid of a device column: a leading gap (when there are groups),
/// then each group's rows.
pub open spec fn device_slots(gs: Seq<ColumnGroupView>) -> Seq<SlotView> {
    (if gs.len() > 0 {
        seq![SlotView::Gap]
    } else {
        Seq::<SlotView>::empty()
    }) + groups_slots(gs, gs.len() as int)
}

/// Whether a row is marked condensed. Port rows carry no such mark, so no row is.
pub fn row_has_condensed_flag(row: &PortRow) -> (r: bool)
    ensures
        !r,
{
    false
}

fn copy_row(row: &PortRow) -> (r: PortRow)
    ensures
        r@ == row@,
{
    PortRow {
        id: row.id.as_str().to_owned(),
        label: row.label.as_str().to_owned(),
        direction: match &row.direction {
            Some(d) => Some(d.as_str().to_owned()),
            None => None,
        },
    }
}

/// The trimmed header of a group, when it is not blank.
fn trimmed_header(h: &Option<String>) -> (r: Option<String>)
    ensures
        match r {
            Some(t) => opt_text(*h) matches Some(x) && trim(x).len() > 0 && t@ == trim(x),
            None => !(opt_text(*h) matches Some(x) && trim(x).len() > 0),
        },
{
    match h {
        Some(s) => {
            let v = str_chars(s.as_str());
            let t = trim_vec(&v);
            if t.len() > 0 {
                Some(string_from_chars(&t))
            } else {
                None
            }
        },
        None => None,
    }
}

fn push_slot(out: &mut Vec<DeviceV2BodySlot>, s: DeviceV2BodySlot)
    ensures
        slots_view(final(out)@) == slots_view(old(out)@).push(s@),
{
    out.push(s);
    assert(slots_view(out@) =~= slots_view(old(out)@).push(s@));
}

/// Flattens one device column into body rows: a leading gap, then per group
/// its trimmed header, its port rows and a gap.
pub fn flatten_device_v2_body_rows(groups: &Vec<ColumnGroup>) -> (out: Vec<DeviceV2BodySlot>)
    ensures
        slots_view(out@) == device_slots(groups_view(groups@)),
{
    let ghost gs = groups_view(groups@);
    let mut out: Vec<DeviceV2BodySlot> = Vec::new();
    if groups.len() > 0 {
        push_slot(&mut out, DeviceV2BodySlot::Gap);
    }
    let ghost lead = slots_view(out@);
    let mut group_index: usize = 0;
    while group_index < groups.len()
        invariant
            group_index <= groups@.len(),
            gs == groups_view(groups@),
            lead == (if gs.len() > 0 {
                seq![SlotView::Gap]
            } else {
                Seq::<SlotView>::empty()
            }),
            slots_view(out@) == lead + groups_slots(gs, group_index as int),
        decreases groups@.len() - group_index,
    {
        let group = &groups[group_index];
        let ghost g = gs[group_index as int];
        assert(g == group@);
        let ghost start = slots_view(out@);
        match trimmed_header(&group.header) {
            Some(label) => {
                push_slot(&mut out, DeviceV2BodySlot::Header { label });
            },
            None => {},
        }
        assert(slots_view(out@) == start + header_slot(g.0));
        let ghost mid = slots_view(out@);
        let mut i: usize = 0;
        while i < group.rows.len()
            invariant
                i <= group.rows@.len(),
                g == group@,
                slots_view(out@) == mid + g.1.take(i as int).map_values(
                    |r: PortRowView| SlotView::Port(group_index as int, r),
                ),
            decreases group.rows@.len() - i,
        {
            let row = &group.rows[i];
            let is_condensed = row_has_condensed_flag(row);
            let ghost before = slots_view(out@);
            if is_condensed {
                let mut count: usize = 0;
                let n_rows = group.rows.len();
                while i + count < n_rows && row_has_condensed_flag(&group.rows[i + count])
                    invariant
                        n_rows == group.rows@.len(),
                        i + count <= n_rows,
                    decreases n_rows - (i + count),
                {
                    count += 1;
                }
                if count >= 3 {
                    push_slot(&mut out, DeviceV2BodySlot::Port { group_index, row: copy_row(row) });
                    push_slot(
                        &mut out,
                        DeviceV2BodySlot::Condensed {
                            group_index,
                            start_label: row.label.as_str().to_owned(),
                            end_label: group.rows[i + count - 1].label.as_str().to_owned(),
                        },
                    );
                    push_slot(
                        &mut out,
                        DeviceV2BodySlot::Port {
                            group_index,
                            row: copy_row(&group.rows[i + count - 1]),
                        },
                    );
                    i += count;
                    continue;
                }
            }
            push_slot(&mut out, DeviceV2BodySlot::Port { group_index, row: copy_row(row) });
            proof {
                assert(g.1[i as int] == row@);
                assert(g.1.take(i + 1) =~= g.1.take(i as int).push(row@));
                assert(slots_view(out@) =~= mid + g.1.take(i + 1).map_values(
                    |r: PortRowView| SlotView::Port(group_index as int, r),
                ));
            }
            i += 1;
        }
        assert(g.1.take(group.rows@.len() as int) =~= g.1);
        push_slot(&mut out, DeviceV2BodySlot::Gap);
        assert(slots_view(out@) =~= lead + groups_slots(gs, group_index + 1));
        group_index += 1;
    }
    out
}

/// The left and right column groups of a device node's data.
pub open spec fn device_columns(data: JsonValue) -> (Seq<ColumnGroupView>, Seq<ColumnGroupView>) {
    (
        side_groups(array_member(data, "leftColumn"@), array_member(data, "leftGroups"@), Side::Left),
        side_groups(
            array_member(data, "rightColumn"@),
            array_member(data, "rightGroups"@),
            Side::Right,
        ),
    )
}

/// The left and right column groups of a device node's data.
pub fn device_v2_normalized_columns(data: &JsonValue) -> (r: (Vec<ColumnGroup>, Vec<ColumnGroup>))
    ensures
        groups_view(r.0@) == device_columns(*data).0,
        groups_view(r.1@) == device_columns(*data).1,
{
    let left = normalize_device_side_groups(
        get_array(data, "leftColumn"),
        get_array(data, "leftGroups"),
        Side::Left,
    );
    let right = normalize_device_side_groups(
        get_array(data, "rightColumn"),
        get_array(data, "rightGroups"),
        Side::Right,
    );
    (left, right)
}

/// Rows of a device body grid: the longer of its two flattened columns.
pub open spec fn device_grid_rows(data: JsonValue) -> int {
    let l = device_slots(device_columns(data).0).len();
    let r = device_slots(device_columns(data).1).len();
    if l >= r {
        l as int
    } else {
        r as int
    }
}

/// Number of rows of a device body grid.
pub fn device_v2_body_grid_row_count(data: &JsonValue) -> (n: usize)
    ensures
        n == device_grid_rows(*data),
{
    let (left, right) = device_v2_normalized_columns(data);
    let l = flatten_device_v2_body_rows(&left).len();
    let r = flatten_device_v2_body_rows(&right).len();
    if l >= r {
        l
    } else {
        r
    }
}

/// The column groups of an AV plate node's data (its `groups` member).
pub open spec fn plate_groups(data: JsonValue) -> Seq<ColumnGroupView> {
    match array_member(data, "groups"@) {
        Some(gs) => gs.map_values(|g: JsonValue| parsed_group(g)),
        None => Seq::empty(),
    }
}

/// The column groups of an AV plate node's data.
pub fn av_plate_groups_from_data(data: &JsonValue) -> (out: Vec<ColumnGroup>)
    ensures
        groups_view(out@) == plate_groups(*data),
{
    let ghost want = plate_groups(*data);
    let mut out: Vec<ColumnGroup> = Vec::new();
    match get_array(data, "groups") {
        Some(gs) => {
            let mut k: usize = 0;
            while k < gs.len()
                invariant
                    k <= gs@.len(),
                    want == gs@.map_values(|g: JsonValue| parsed_group(g)),
                    out@.len() == k,
                    forall|j: int| 0 <= j < k ==> #[trigger] out@[j]@ == want[j],
                decreases gs@.len() - k,
            {
                out.push(parse_column_group(&gs[k]));
                k += 1;
            }
        },
        None => {},
    }
    assert(groups_view(out@) =~= want);
    out
}

/// The header row of a plate group: its trimmed header, when not blank.
pub open spec fn plate_header_row(h: Option<Seq<char>>) -> Seq<PlateRowView> {
    match h {
        Some(t) => if trim(t).len() > 0 {
            seq![PlateRowView::Header(trim(t))]
        } else {
            Seq::empty()
        },
        None => Seq::empty(),
    }
}

/// The rows of plate group `gi`: header row, one port row per row, a gap.
pub open spec fn plate_group_rows(g: ColumnGroupView, gi: int) -> Seq<PlateRowView> {
    plate_header_row(g.0) + g.1.map_values(|r: PortRowView| PlateRowView::Port(gi, r.0, r.1, r.2))
        + seq![PlateRowView::Gap]
}

/// The rows of the first `n` plate groups.
pub open spec fn plate_groups_rows(gs: Seq<ColumnGroupView>, n: int) -> Seq<PlateRowView>
    decreases n,
{
    if n <= 0 {
        Seq::empty()
    } else {
        plate_groups_rows(gs, n - 1) + plate_group_rows(gs[n - 1], n - 1)
    }
}

/// The body grid of an AV plate: a leading gap (when there are groups), then
/// each group's rows.
pub open spec fn plate_rows(gs: Seq<ColumnGroupView>) -> Seq<PlateRowView> {
    (if gs.len() > 0 {
        seq![PlateRowView::Gap]
    } else {
        Seq::<PlateRowView>::empty()
    }) + plate_groups_rows(gs, gs.len() as int)
}

fn push_plate_row(out: &mut Vec<AvPlateBodyRow>, r: AvPlateBodyRow)
    ensures
        plate_rows_view(final(out)@) == plate_rows_view(old(out)@).push(r@),
{
    out.push(r);
    assert(plate_rows_view(out@) =~= plate_rows_view(old(out)@).push(r@));
}

/// Flattens AV plate groups into body rows (same structure as device columns).
pub fn flatten_av_plate_body_rows(groups: &Vec<ColumnGroup>) -> (out: Vec<AvPlateBodyRow>)
    ensures
        plate_rows_view(out@) == plate_rows(groups_view(groups@)),
{
    let ghost gs = groups_view(groups@);
    let mut out: Vec<AvPlateBodyRow> = Vec::new();
    if groups.len() > 0 {
        push_plate_row(&mut out, AvPlateBodyRow::Gap);
    }
    let ghost lead = plate_rows_view(out@);
    let mut group_index: usize = 0;
    while group_index < groups.len()
        invariant
            group_index <= groups@.len(),
            gs == groups_view(groups@),
            lead == (if gs.len() > 0 {
                seq![PlateRowView::Gap]
            } else {
                Seq::<PlateRowView>::empty()
            }),
            plate_rows_view(out@) == lead + plate_groups_rows(gs, group_index as int),
        decreases groups@.len() - group_index,
    {
        let group = &groups[group_index];
        let ghost g = gs[group_index as int];
        assert(g == group@);
        let ghost start = plate_rows_view(out@);
        match trimmed_header(&group.header) {
            Some(label) => {
                push_plate_row(&mut out, AvPlateBodyRow::Header { label });
            },
            None => {},
        }
        assert(plate_rows_view(out@) == start + plate_header_row(g.0));
        let ghost mid = plate_rows_view(out@);
        let mut i: usize = 0;
        while i < group.rows.len()
            invariant
                i <= group.rows@.len(),
                g == group@,
                plate_rows_view(out@) == mid + g.1.take(i as int).map_values(
                    |r: PortRowView| PlateRowView::Port(group_index as int, r.0, r.1, r.2),
                ),
            decreases group.rows@.len() - i,
        {
            let row = copy_row(&group.rows[i]);
            push_plate_row(
                &mut out,
                AvPlateBodyRow::Port {
                    group_index,
                    row_id: row.id,
                    label: row.label,
                    direction: row.direction,
                },
            );
            proof {
                assert(g.1[i as int] == group.rows@[i as int]@);
                assert(g.1.take(i + 1) =~= g.1.take(i as int).push(g.1[i as int]));
                assert(plate_rows_view(out@) =~= mid + g.1.take(i + 1).map_values(
                    |r: PortRowView| PlateRowView::Port(group_index as int, r.0, r.1, r.2),
                ));
            }
            i += 1;
        }
        assert(g.1.take(group.rows@.len() as int) =~= g.1);
        push_plate_row(&mut out, AvPlateBodyRow::Gap);
        assert(plate_rows_view(out@) =~= lead + plate_groups_rows(gs, group_index + 1));
        group_index += 1;
    }
    out
}

/// Number of rows of an AV plate body grid.
pub fn av_plate_body_grid_row_count(groups: &Vec<ColumnGroup>) -> (n: usize)
    ensures
        n == plate_rows(groups_view(groups@)).len(),
{
    flatten_av_plate_body_rows(groups).len()
}

/// The text shown in a device body cell.
pub open spec fn cell_text(slot: Option<SlotView>) -> Seq<char> {
    match slot {
        None => Seq::empty(),
        Some(SlotView::Gap) => Seq::empty(),
        Some(SlotView::Bundled(_, _, _)) => Seq::empty(),
        Some(SlotView::Header(label)) => label,
        Some(SlotView::Condensed(_, _, _)) => "..."@,
        Some(SlotView::Port(_, row)) => row.1,
    }
}

/// The text of a body cell: a header's label, a port's label, `...` for a
/// condensed run, nothing for a gap, a bundle or a missing cell.
pub fn cell_label(slot: Option<&DeviceV2BodySlot>) -> (out: String)
    ensures
        out@ == cell_text(match slot {
            Some(s) => Some(s@),
            None => None,
        }),
{
    match slot {
        None => String::new(),
        Some(DeviceV2BodySlot::Gap) => String::new(),
        Some(DeviceV2BodySlot::Bundled { .. }) => String::new(),
        Some(DeviceV2BodySlot::Header { label }) => label.as_str().to_owned(),
        Some(DeviceV2BodySlot::Condensed { .. }) => "...".to_owned(),
        Some(DeviceV2BodySlot::Port { row, .. }) => row.label.as_str().to_owned(),
    }
}

/// An AV plate row and a device row show the same thing: both gaps, the same
/// header, or the same port of the same group.
pub open spec fn same_shape(p: PlateRowView, d: SlotView) -> bool {
    match (p, d) {
        (PlateRowView::Gap, SlotView::Gap) => true,
        (PlateRowView::Header(a), SlotView::Header(b)) => a == b,
        (PlateRowView::Port(g1, id, label, dir), SlotView::Port(g2, row)) => g1 == g2 && row == (
            id,
            label,
            dir,
        ),
        _ => false,
    }
}

/// Two row lists that match row by row.
pub open spec fn rows_match(p: Seq<PlateRowView>, d: Seq<SlotView>) -> bool {
    p.len() == d.len() && forall|i: int| 0 <= i < p.len() ==> same_shape(#[trigger] p[i], d[i])
}

proof fn lemma_rows_match_concat(p1: Seq<PlateRowView>, d1: Seq<SlotView>, p2: Seq<PlateRowView>, d2: Seq<SlotView>)
    requires
        rows_match(p1, d1),
        rows_match(p2, d2),
    ensures
        rows_match(p1 + p2, d1 + d2),
{
    assert forall|i: int| 0 <= i < (p1 + p2).len() implies same_shape(#[trigger] (p1 + p2)[i], (d1 + d2)[i]) by {
        if i < p1.len() {
            assert((p1 + p2)[i] == p1[i] && (d1 + d2)[i] == d1[i]);
        } else {
            assert((p1 + p2)[i] == p2[i - p1.len()] && (d1 + d2)[i] == d2[i - d1.len()]);
        }
    }
}

proof fn lemma_group_rows_match(g: ColumnGroupView, gi: int)
    ensures
        rows_match(plate_group_rows(g, gi), group_slots(g, gi)),
{
    let ph = plate_header_row(g.0);
    let dh = header_slot(g.0);
    assert(rows_match(ph, dh));
    let pp = g.1.map_values(|r: PortRowView| PlateRowView::Port(gi, r.0, r.1, r.2));
    let dp = g.1.map_values(|r: PortRowView| SlotView::Port(gi, r));
    assert(rows_match(pp, dp));
    lemma_rows_match_concat(ph, dh, pp, dp);
    assert(rows_match(seq![PlateRowView::Gap], seq![SlotView::Gap]));
    lemma_rows_match_concat(ph + pp, dh + dp, seq![PlateRowView::Gap], seq![SlotView::Gap]);
}

proof fn lemma_groups_rows_match(gs: Seq<ColumnGroupView>, n: int)
    ensures
        rows_match(plate_groups_rows(gs, n), groups_slots(gs, n)),
    decreases n,
{
    if n <= 0 {
        assert(rows_match(Seq::<PlateRowView>::empty(), Seq::<SlotView>::empty()));
    } else {
        lemma_groups_rows_match(gs, n - 1);
        lemma_group_rows_match(gs[n - 1], n - 1);
        lemma_rows_match_concat(
            plate_groups_rows(gs, n - 1),
            groups_slots(gs, n - 1),
            plate_group_rows(gs[n - 1], n - 1),
            group_slots(gs[n - 1], n - 1),
        );
    }
}

/// AV plate body rows have the same structure as device column rows: the
/// same number of rows, and row by row the same gap, header or port.
pub proof fn plate_rows_match_device_slots(gs: Seq<ColumnGroupView>)
    ensures
        rows_match(plate_rows(gs), device_slots(gs)),
{
    lemma_groups_rows_match(gs, gs.len() as int);
    let pl = if gs.len() > 0 {
        seq![PlateRowView::Gap]
    } else {
        Seq::<PlateRowView>::empty()
    };
    let dl = if gs.len() > 0 {
        seq![SlotView::Gap]
    } else {
        Seq::<SlotView>::empty()
    };
    assert(rows_match(pl, dl));
    lemma_rows_match_concat(pl, dl, plate_groups_rows(gs, gs.len() as int), groups_slots(gs, gs.len() as int));
}

} // verus!
