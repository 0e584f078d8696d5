//! The texts drawn on schematic nodes: frame tags and titles, microphone and
//! speaker labels, and the bands of wiretags. Where each text is placed is
//! the drawing code's business; what it says is decided here.

use vstd::prelude::*;

use crate::chars::{dec_i64_exec, dec_int, dec_nat, push_str, str_chars, string_from_chars, trim, trim_vec};
use crate::diagram::{same_text, Edge, Node};
use crate::json::{get_str, json_bool, json_get, str_member, JsonValue};
use crate::labels::{member_text, member_text_exec, pair_main_text, resolve_pair_main_display_text};
use crate::layout::{or_empty, texts};
use crate::node_data::{description_lines, description_lines_from_data};
use crate::scene::{
    append_split_instance_to_lines, sanitize_text, sanitized, split_lines, split_suffixed,
    with_split_suffix,
};

verus! {

/// A blank label is drawn as a single space.
pub open spec fn or_space(t: Seq<char>) -> Seq<char> {
    if t.len() == 0 {
        " "@
    } else {
        t
    }
}

fn or_space_exec(t: String) -> (r: String)
    ensures
        r@ == or_space(t@),
{
    let v = str_chars(t.as_str());
    if v.len() == 0 {
        proof {
            reveal_strlit(" ");
        }
        " ".to_owned()
    } else {
        t
    }
}

/// The raw text of a member, empty when it is missing or not text.
pub open spec fn member_or_empty(data: JsonValue, key: Seq<char>) -> Seq<char> {
    or_empty(str_member(data, key))
}

fn member_or_empty_exec<'a>(data: &'a JsonValue, key: &str) -> (r: &'a str)
    ensures
        r@ == member_or_empty(*data, key@),
{
    match get_str(data, key) {
        Some(s) => s,
        None => {
            proof {
                reveal_strlit("");
            }
            ""
        },
    }
}

// ---------------------------------------------------------------------------
// Frame tags and titles
// ---------------------------------------------------------------------------

/// The tag line of a schematic frame: the trimmed tag code and tag number
/// around ` / `, trimmed.
pub open spec fn schematic_tag(data: JsonValue) -> Seq<char> {
    trim(member_text(data, "tagCode"@) + " / "@ + member_text(data, "tagNumber"@))
}

/// The tag line of a schematic frame.
pub fn schematic_tag_text(data: &JsonValue) -> (out: String)
    ensures
        out@ == schematic_tag(*data),
{
    let mut v = member_text_exec(data, "tagCode");
    push_str(&mut v, " / ");
    let num = member_text_exec(data, "tagNumber");
    crate::chars::push_all(&mut v, &num);
    string_from_chars(&trim_vec(&v))
}

/// The tag label drawn above a device, AV plate, patch panel or junction
/// frame.
pub fn schematic_tag_label(data: &JsonValue) -> (out: String)
    ensures
        out@ == or_space(sanitized(schematic_tag(*data), 64)),
{
    let tag = schematic_tag_text(data);
    or_space_exec(sanitize_text(tag.as_str(), 64))
}

/// The title of a device: its trimmed label, else its trimmed description.
pub open spec fn device_title(data: JsonValue) -> Seq<char> {
    let label = member_text(data, "label"@);
    if label.len() > 0 {
        label
    } else {
        member_text(data, "description"@)
    }
}

/// The title text of a device, before it is wrapped onto lines.
pub fn device_v2_title_text(data: &JsonValue) -> (out: String)
    ensures
        out@ == sanitized(device_title(*data), 48),
{
    let label = member_text_exec(data, "label");
    let t = if label.len() > 0 {
        label
    } else {
        member_text_exec(data, "description")
    };
    let s = string_from_chars(&t);
    sanitize_text(s.as_str(), 48)
}

/// The title text of an AV plate, before it is wrapped onto lines: its
/// trimmed description, with the split instance number appended.
pub fn av_plate_title_text(data: &JsonValue, split_instance: Option<u64>) -> (out: String)
    ensures
        out@ == sanitized(split_suffixed(member_or_empty(*data, "description"@), split_instance), 48),
{
    let desc = member_or_empty_exec(data, "description");
    let t = with_split_suffix(desc, split_instance);
    sanitize_text(t.as_str(), 48)
}

/// The title of a junction box: its trimmed tag code, with the split
/// instance number appended.
pub fn junction_title_text(data: &JsonValue, split_instance: Option<u64>) -> (out: String)
    ensures
        out@ == sanitized(split_suffixed(member_text(*data, "tagCode"@), split_instance), 48),
{
    let code = string_from_chars(&member_text_exec(data, "tagCode"));
    let t = with_split_suffix(code.as_str(), split_instance);
    sanitize_text(t.as_str(), 48)
}

/// The description lines a patch panel shows when it has none of its own.
pub open spec fn patch_default_lines(node_type: Seq<char>) -> Seq<Seq<char>> {
    if node_type == "dppPatchPanel"@ {
        seq!["Data patch panel"@]
    } else if node_type == "mlpPatchPanel"@ {
        seq!["Mic/line"@, "Patch panel"@]
    } else if node_type == "vpbPatchPanel"@ {
        seq!["Video"@, "Patch panel"@]
    } else {
        seq!["Loudspeaker patch panel"@]
    }
}

/// The title lines of a patch panel: its description lines (or the default
/// ones of its type), the last one with the split instance number appended.
pub fn patch_panel_title_lines(node: &Node, split_instance: Option<u64>) -> (out: Vec<String>)
    ensures
        texts(out@) == split_lines(
            description_lines(node.data, patch_default_lines(node.node_type@)),
            split_instance,
        ),
{
    let t = node.node_type.as_str();
    let mut defaults: Vec<&str> = Vec::new();
    if same_text(t, "dppPatchPanel") {
        defaults.push("Data patch panel");
    } else if same_text(t, "mlpPatchPanel") {
        defaults.push("Mic/line");
        defaults.push("Patch panel");
    } else if same_text(t, "vpbPatchPanel") {
        defaults.push("Video");
        defaults.push("Patch panel");
    } else {
        defaults.push("Loudspeaker patch panel");
    }
    assert(crate::node_data::str_texts(defaults@) =~= patch_default_lines(node.node_type@));
    let lines = description_lines_from_data(&node.data, defaults.as_slice());
    append_split_instance_to_lines(&lines, split_instance)
}

// ---------------------------------------------------------------------------
// Microphone and speaker blocks
// ---------------------------------------------------------------------------

/// The two label lines of a microphone or speaker block.
pub fn block_label_lines(data: &JsonValue) -> (r: (String, String))
    ensures
        r.0@ == or_space(sanitized(member_or_empty(*data, "line1"@), 48)),
        r.1@ == or_space(sanitized(member_or_empty(*data, "line2"@), 64)),
{
    let l1 = sanitize_text(member_or_empty_exec(data, "line1"), 48);
    let l2 = sanitize_text(member_or_empty_exec(data, "line2"), 64);
    (or_space_exec(l1), or_space_exec(l2))
}

/// The channel label drawn in a microphone symbol.
pub fn mic_channel_label(data: &JsonValue) -> (out: String)
    ensures
        out@ == or_space(sanitized(member_or_empty(*data, "channelNumber"@), 8)),
{
    or_space_exec(sanitize_text(member_or_empty_exec(data, "channelNumber"), 8))
}

// ---------------------------------------------------------------------------
// Wiretag bands
// ---------------------------------------------------------------------------

/// The main text of a wiretag band: the pair's main display text, else
/// `WT-{pair index}`.
pub open spec fn wiretag_main(node: Node, nodes: Seq<Node>, edges: Seq<Edge>, pair_index: i64) -> Seq<
    char,
> {
    let raw = trim(pair_main_text(node, nodes, edges));
    sanitized(
        if raw.len() == 0 {
            "WT-"@ + dec_int(pair_index as int)
        } else {
            raw
        },
        120,
    )
}

/// Whether a wiretag shows its sheet name.
pub open spec fn shows_sheet(data: JsonValue) -> bool {
    match json_get(data, "showSheetName"@) {
        Some(v) => json_bool(v) == Some(true),
        None => false,
    }
}

/// The sheet text of a wiretag band: its trimmed sheet name when it shows
/// it, else nothing.
pub open spec fn wiretag_sheet(data: JsonValue) -> Seq<char> {
    sanitized(
        if shows_sheet(data) {
            member_text(data, "sheetName"@)
        } else {
            Seq::empty()
        },
        120,
    )
}

/// The texts of a wiretag band: main text, sheet text (possibly empty) and
/// pair index.
pub fn wiretag_band_texts(node: &Node, nodes: &Vec<Node>, edges: &Vec<Edge>, pair_index: i64) -> (r: (
    String,
    String,
    String,
))
    ensures
        r.0@ == wiretag_main(*node, nodes@, edges@, pair_index),
        r.1@ == wiretag_sheet(node.data),
        r.2@ == dec_int(pair_index as int),
{
    let main_raw = resolve_pair_main_display_text(node, nodes, edges);
    let raw = trim_vec(&str_chars(main_raw.as_str()));
    let main_src = if raw.len() == 0 {
        let mut v = str_chars("WT-");
        let idx = dec_i64_exec(pair_index);
        crate::chars::push_all(&mut v, &idx);
        v
    } else {
        raw
    };
    let main = sanitize_text(string_from_chars(&main_src).as_str(), 120);
    let show = match node.data.get("showSheetName") {
        Some(v) => match v.as_bool() {
            Some(b) => b,
            None => false,
        },
        None => false,
    };
    let sheet_src = if show {
        string_from_chars(&member_text_exec(&node.data, "sheetName"))
    } else {
        String::new()
    };
    let sheet = sanitize_text(sheet_src.as_str(), 120);
    let index = string_from_chars(&dec_i64_exec(pair_index));
    (main, sheet, index)
}

// ---------------------------------------------------------------------------
// Patch panel rows
// ---------------------------------------------------------------------------

/// What is drawn on one patch panel row.
#[derive(Debug, Clone, PartialEq, Eq)]
pub enum PatchRowPlan {
    /// A data panel row: whether it is an output, and its label (none drawn
    /// when empty).
    Data { output: bool, label: String },
    /// A mic/line or video panel row: its normalling text (none drawn when
    /// empty) and its number.
    Normalled { normalling: String, number: String },
    /// A loudspeaker panel row: whether it is connected, and its number.
    Speaker { connected: bool, number: String },
}

/// A patch panel row plan as plain values.
pub enum PatchRowView {
    Data(bool, Seq<char>),
    Normalled(Seq<char>, Seq<char>),
    Speaker(bool, Seq<char>),
}

impl View for PatchRowPlan {
    type V = PatchRowView;

    open spec fn view(&self) -> PatchRowView {
        match self {
            PatchRowPlan::Data { output, label } => PatchRowView::Data(*output, label@),
            PatchRowPlan::Normalled { normalling, number } => PatchRowView::Normalled(
                normalling@,
                number@,
            ),
            PatchRowPlan::Speaker { connected, number } => PatchRowView::Speaker(*connected, number@),
        }
    }
}

/// A member that is the boolean `true`.
pub open spec fn flag_set(data: JsonValue, key: Seq<char>) -> bool {
    match json_get(data, key) {
        Some(v) => json_bool(v) == Some(true),
        None => false,
    }
}

/// The plan of row `row` (numbered `number`) of a patch panel of type
/// `node_type`: data panels show the label on the side of the row's
/// direction (`input` when unset); mic/line and video panels show the
/// normalling (4 and 2 characters at most) and the row number; loudspeaker
/// panels show whether the row is connected, and the row number.
pub open spec fn patch_row_plan(node_type: Seq<char>, row: JsonValue, number: nat) -> PatchRowView {
    if node_type == "dppPatchPanel"@ {
        let direction = match str_member(row, "direction"@) {
            Some(d) => d,
            None => "input"@,
        };
        PatchRowView::Data(direction == "output"@, sanitized(member_or_empty(row, "label"@), 24))
    } else if node_type == "mlpPatchPanel"@ || node_type == "vpbPatchPanel"@ {
        let max_len: nat = if node_type == "mlpPatchPanel"@ {
            4
        } else {
            2
        };
        PatchRowView::Normalled(sanitized(member_text(row, "normalling"@), max_len), dec_nat(number))
    } else {
        PatchRowView::Speaker(flag_set(row, "connected"@), dec_nat(number))
    }
}

/// The rows of a patch panel: its `rows` array, none without one.
pub open spec fn panel_rows(data: JsonValue) -> Seq<JsonValue> {
    match crate::json::array_member(data, "rows"@) {
        Some(rows) => rows,
        None => Seq::empty(),
    }
}

/// The plans of all rows of a patch panel, numbered from 1.
pub open spec fn patch_row_plans(node: Node) -> Seq<PatchRowView> {
    Seq::new(
        panel_rows(node.data).len(),
        |k: int| patch_row_plan(node.node_type@, panel_rows(node.data)[k], (k + 1) as nat),
    )
}

/// What is drawn on each row of a patch panel, in order.
pub fn patch_panel_row_plans(node: &Node) -> (out: Vec<PatchRowPlan>)
    ensures
        out@.map_values(|p: PatchRowPlan| p@) == patch_row_plans(*node),
{
    let t = node.node_type.as_str();
    let is_dpp = same_text(t, "dppPatchPanel");
    let is_mlp = same_text(t, "mlpPatchPanel");
    let is_vpb = same_text(t, "vpbPatchPanel");
    let mut out: Vec<PatchRowPlan> = Vec::new();
    let rows = match crate::json::get_array(&node.data, "rows") {
        Some(r) => r,
        None => {
            assert(out@.map_values(|p: PatchRowPlan| p@) =~= patch_row_plans(*node));
            return out;
        },
    };
    let mut k: usize = 0;
    while k < rows.len()
        invariant
            k <= rows@.len(),
            rows@ == panel_rows(node.data),
            is_dpp == (node.node_type@ == "dppPatchPanel"@),
            is_mlp == (node.node_type@ == "mlpPatchPanel"@),
            is_vpb == (node.node_type@ == "vpbPatchPanel"@),
            out@.len() == k,
            forall|j: int|
                0 <= j < k ==> #[trigger] out@[j]@ == patch_row_plan(
                    node.node_type@,
                    rows@[j],
                    (j + 1) as nat,
                ),
        decreases rows@.len() - k,
    {
        let row = &rows[k];
        let plan = if is_dpp {
            let output = match get_str(row, "direction") {
                Some(d) => same_text(d, "output"),
                None => {
                    proof {
                        reveal_strlit("input");
                        reveal_strlit("output");
                        assert("input"@.len() != "output"@.len());
                    }
                    false
                },
            };
            let label = sanitize_text(member_or_empty_exec(row, "label"), 24);
            PatchRowPlan::Data { output, label }
        } else if is_mlp || is_vpb {
            let max_len: usize = if is_mlp {
                4
            } else {
                2
            };
            let norm = string_from_chars(&member_text_exec(row, "normalling"));
            let num = string_from_chars(&crate::chars::dec_u64_exec((k + 1) as u64));
            assert(num@ == dec_nat((k + 1) as nat));
            PatchRowPlan::Normalled { normalling: sanitize_text(norm.as_str(), max_len), number: num }
        } else {
            let connected = match row.get("connected") {
                Some(v) => match v.as_bool() {
                    Some(b) => b,
                    None => false,
                },
                None => false,
            };
            let num = string_from_chars(&crate::chars::dec_u64_exec((k + 1) as u64));
            assert(num@ == dec_nat((k + 1) as nat));
            PatchRowPlan::Speaker { connected, number: num }
        };
        assert(plan@ == patch_row_plan(node.node_type@, rows@[k as int], (k + 1) as nat));
        out.push(plan);
        k += 1;
    }
    assert(out@.map_values(|p: PatchRowPlan| p@) =~= patch_row_plans(*node));
    out
}

} // verus!
