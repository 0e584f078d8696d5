//! Scene text and alignment: label text for drawing, and the alignment
//! enums that carry a text's anchor from layout through the scene to CAD.

use vstd::prelude::*;

use crate::chars::{dec_nat, dec_u64_exec, push_all, push_str, slice_vec, str_chars, string_from_chars, trim, trim_vec};
use crate::document;

verus! {

/// Horizontal text alignment of a layout text style.
#[derive(Debug, Clone, Copy, PartialEq, Eq, Structural)]
pub enum TextHAlign {
    Left,
    Center,
    Right,
}

/// Vertical text alignment of a layout text style.
#[derive(Debug, Clone, Copy, PartialEq, Eq, Structural)]
pub enum TextVAlign {
    Top,
    Middle,
    Bottom,
}

/// Text roles of the drawing.
#[derive(Debug, Clone, Copy, PartialEq, Eq, Structural)]
pub enum TextRole {
    Tag,
    Title,
    Cell,
    RowLabel,
    SpeakerPrimary,
    SpeakerSecondary,
    MicChannel,
    VolumeControl,
    Wiretag,
    TextBlock,
    Flyoff,
    Antenna,
    GroupingZone,
    BundleCount,
}

/// Horizontal text alignment in diagram space.
#[derive(Debug, Clone, Copy, PartialEq, Eq, Structural)]
pub enum HAlign {
    Left,
    Center,
    Right,
}

/// Vertical text alignment in diagram space.
#[derive(Debug, Clone, Copy, PartialEq, Eq, Structural)]
pub enum VAlign {
    Top,
    Middle,
    Bottom,
}

/// Horizontal text alignment in CAD space (same meaning as in the scene).
#[derive(Debug, Clone, Copy, PartialEq, Eq, Structural)]
pub enum CadHAlign {
    Left,
    Center,
    Right,
}

/// Vertical text alignment in CAD space (same meaning as in the scene).
#[derive(Debug, Clone, Copy, PartialEq, Eq, Structural)]
pub enum CadVAlign {
    Top,
    Middle,
    Bottom,
}

/// Scene alignment of a layout alignment.
pub open spec fn scene_halign(align: TextHAlign) -> HAlign {
    match align {
        TextHAlign::Left => HAlign::Left,
        TextHAlign::Center => HAlign::Center,
        TextHAlign::Right => HAlign::Right,
    }
}

/// Scene alignment of a layout alignment.
pub fn to_halign(align: TextHAlign) -> (r: HAlign)
    ensures
        r == scene_halign(align),
{
    match align {
        TextHAlign::Left => HAlign::Left,
        TextHAlign::Center => HAlign::Center,
        TextHAlign::Right => HAlign::Right,
    }
}

/// Scene alignment of a layout alignment.
pub open spec fn scene_valign(align: TextVAlign) -> VAlign {
    match align {
        TextVAlign::Top => VAlign::Top,
        TextVAlign::Middle => VAlign::Middle,
        TextVAlign::Bottom => VAlign::Bottom,
    }
}

/// Scene alignment of a layout alignment.
pub fn to_valign(align: TextVAlign) -> (r: VAlign)
    ensures
        r == scene_valign(align),
{
    match align {
        TextVAlign::Top => VAlign::Top,
        TextVAlign::Middle => VAlign::Middle,
        TextVAlign::Bottom => VAlign::Bottom,
    }
}

/// CAD alignment of a scene alignment.
pub open spec fn cad_h(h: HAlign) -> CadHAlign {
    match h {
        HAlign::Left => CadHAlign::Left,
        HAlign::Center => CadHAlign::Center,
        HAlign::Right => CadHAlign::Right,
    }
}

/// CAD alignment of a scene alignment.
pub fn to_cad_halign(h: HAlign) -> (r: CadHAlign)
    ensures
        r == cad_h(h),
{
    match h {
        HAlign::Left => CadHAlign::Left,
        HAlign::Center => CadHAlign::Center,
        HAlign::Right => CadHAlign::Right,
    }
}

/// CAD alignment of a scene alignment.
pub open spec fn cad_v(v: VAlign) -> CadVAlign {
    match v {
        VAlign::Top => CadVAlign::Top,
        VAlign::Middle => CadVAlign::Middle,
        VAlign::Bottom => CadVAlign::Bottom,
    }
}

/// CAD alignment of a scene alignment.
pub fn to_cad_valign(v: VAlign) -> (r: CadVAlign)
    ensures
        r == cad_v(v),
{
    match v {
        VAlign::Top => CadVAlign::Top,
        VAlign::Middle => CadVAlign::Middle,
        VAlign::Bottom => CadVAlign::Bottom,
    }
}

/// DXF text alignment of a CAD alignment.
pub open spec fn dxf_h(h: CadHAlign) -> document::TextHAlign {
    match h {
        CadHAlign::Left => document::TextHAlign::Left,
        CadHAlign::Center => document::TextHAlign::Center,
        CadHAlign::Right => document::TextHAlign::Right,
    }
}

/// DXF text alignment of a CAD alignment.
pub fn cad_halign(h: CadHAlign) -> (r: document::TextHAlign)
    ensures
        r == dxf_h(h),
{
    match h {
        CadHAlign::Left => document::TextHAlign::Left,
        CadHAlign::Center => document::TextHAlign::Center,
        CadHAlign::Right => document::TextHAlign::Right,
    }
}

/// DXF text alignment of a CAD alignment.
pub open spec fn dxf_v(v: CadVAlign) -> document::TextVAlign {
    match v {
        CadVAlign::Top => document::TextVAlign::Top,
        CadVAlign::Middle => document::TextVAlign::Middle,
        CadVAlign::Bottom => document::TextVAlign::Bottom,
    }
}

/// DXF text alignment of a CAD alignment.
pub fn cad_valign(v: CadVAlign) -> (r: document::TextVAlign)
    ensures
        r == dxf_v(v),
{
    match v {
        CadVAlign::Top => document::TextVAlign::Top,
        CadVAlign::Middle => document::TextVAlign::Middle,
        CadVAlign::Bottom => document::TextVAlign::Bottom,
    }
}

/// A layout alignment keeps its meaning through the scene and CAD to the DXF
/// group codes: left, center, right are 0, 1, 2 (group 72); bottom, middle,
/// top are 1, 2, 3 (group 73).
pub proof fn alignment_reaches_dxf(h: TextHAlign, v: TextVAlign)
    ensures
        document::h_code(dxf_h(cad_h(scene_halign(h)))) == (match h {
            TextHAlign::Left => 0int,
            TextHAlign::Center => 1,
            TextHAlign::Right => 2,
        }),
        document::v_code(dxf_v(cad_v(scene_valign(v)))) == (match v {
            TextVAlign::Bottom => 1int,
            TextVAlign::Middle => 2,
            TextVAlign::Top => 3,
        }),
{
}

// ---------------------------------------------------------------------------
// Label text
// ---------------------------------------------------------------------------

/// `s` on one line: each CRLF pair, then each remaining CR or LF, becomes a space.
pub open spec fn one_line(s: Seq<char>) -> Seq<char>
    decreases s.len(),
{
    if s.len() == 0 {
        s
    } else if s.len() >= 2 && s[0] == '\r' && s[1] == '\n' {
        seq![' '] + one_line(s.skip(2))
    } else if s[0] == '\r' || s[0] == '\n' {
        seq![' '] + one_line(s.skip(1))
    } else {
        seq![s[0]] + one_line(s.skip(1))
    }
}

/// A printable ASCII character (code 32 to 126).
pub open spec fn printable(c: char) -> bool {
    32 <= c as u32 <= 126
}

/// Upper case of a printable ASCII character.
pub open spec fn ascii_upper(c: char) -> char {
    if 'a' <= c <= 'z' {
        ((c as u32) - 32) as char
    } else {
        c
    }
}

/// The printable characters of `s`, upper-cased.
pub open spec fn shown(s: Seq<char>) -> Seq<char>
    decreases s.len(),
{
    if s.len() == 0 {
        s
    } else {
        shown(s.drop_last()) + if printable(s.last()) {
            seq![ascii_upper(s.last())]
        } else {
            Seq::<char>::empty()
        }
    }
}

/// The text `sanitize_text` makes of `s`: one line, printable ASCII only,
/// upper case, at most `max_len` characters.
pub open spec fn sanitized(s: Seq<char>, max_len: nat) -> Seq<char> {
    let t = shown(one_line(s));
    if t.len() <= max_len {
        t
    } else {
        t.take(max_len as int)
    }
}

/// Printable ASCII for scene text and DXF group 1, always upper case.
pub fn sanitize_text(s: &str, max_len: usize) -> (out: String)
    ensures
        out@ == sanitized(s@, max_len as nat),
{
    let v = str_chars(s);
    let n = v.len();
    let mut line: Vec<char> = Vec::new();
    let mut i: usize = 0;
    assert(v@.skip(0) =~= v@);
    while i < n
        invariant
            n == v@.len(),
            i <= n,
            one_line(v@) == line@ + one_line(v@.skip(i as int)),
        decreases n - i,
    {
        let ghost rest = v@.skip(i as int);
        if i + 1 < n && v[i] == '\r' && v[i + 1] == '\n' {
            line.push(' ');
            proof {
                assert(rest.skip(2) =~= v@.skip(i + 2));
            }
            i += 2;
        } else {
            let c = v[i];
            if c == '\r' || c == '\n' {
                line.push(' ');
            } else {
                line.push(c);
            }
            proof {
                assert(rest.skip(1) =~= v@.skip(i + 1));
            }
            i += 1;
        }
    }
    assert(v@.skip(n as int) =~= Seq::<char>::empty());
    let ghost l = line@;
    let mut up: Vec<char> = Vec::new();
    let mut k: usize = 0;
    while k < line.len()
        invariant
            k <= line@.len(),
            l == line@,
            up@ == shown(l.take(k as int)),
        decreases line@.len() - k,
    {
        let c = line[k];
        let code = c as u32;
        proof {
            let t = l.take(k + 1);
            assert(t.drop_last() =~= l.take(k as int));
            assert(t.last() == c);
        }
        if 32 <= code && code <= 126 {
            if 'a' <= c && c <= 'z' {
                let u = ((code - 32) as u8) as char;
                assert(u == ascii_upper(c));
                up.push(u);
            } else {
                up.push(c);
            }
        }
        k += 1;
    }
    assert(l.take(l.len() as int) =~= l);
    let end = if up.len() <= max_len {
        up.len()
    } else {
        max_len
    };
    let out = slice_vec(&up, 0, end);
    assert(up@.subrange(0, up@.len() as int) =~= up@);
    assert(up@.subrange(0, end as int) =~= up@.take(end as int));
    string_from_chars(&out)
}

/// `base` trimmed, followed by ` (n)` for a split instance `n`.
pub open spec fn split_suffixed(base: Seq<char>, split_instance: Option<u64>) -> Seq<char> {
    match split_instance {
        Some(n) => trim(base) + " ("@ + dec_nat(n as nat) + ")"@,
        None => trim(base),
    }
}

/// The trimmed label with the split instance number appended.
pub fn with_split_suffix(base: &str, split_instance: Option<u64>) -> (out: String)
    ensures
        out@ == split_suffixed(base@, split_instance),
{
    let b = str_chars(base);
    let mut t = trim_vec(&b);
    match split_instance {
        Some(n) => {
            push_str(&mut t, " (");
            let d = dec_u64_exec(n);
            push_all(&mut t, &d);
            push_str(&mut t, ")");
        },
        None => {},
    }
    string_from_chars(&t)
}

/// The lines with the split instance number appended to the last one.
pub open spec fn split_lines(lines: Seq<Seq<char>>, split_instance: Option<u64>) -> Seq<Seq<char>> {
    match split_instance {
        Some(n) => if lines.len() > 0 {
            lines.update(lines.len() - 1, split_suffixed(lines.last(), split_instance))
        } else {
            lines
        },
        None => lines,
    }
}

/// Appends ` (n)` to the last of `lines` (trimmed) for a split instance `n`.
pub fn append_split_instance_to_lines(lines: &Vec<String>, split_instance: Option<u64>) -> (out: Vec<
    String,
>)
    ensures
        out@.map_values(|s: String| s@) == split_lines(lines@.map_values(|s: String| s@), split_instance),
{
    let ghost lv = lines@.map_values(|s: String| s@);
    let n = lines.len();
    let mut out: Vec<String> = Vec::new();
    let mut k: usize = 0;
    while k < n
        invariant
            n == lines@.len(),
            k <= n,
            lv == lines@.map_values(|s: String| s@),
            out@.len() == k,
            forall|j: int| 0 <= j < k ==> #[trigger] out@[j]@ == split_lines(lv, split_instance)[j],
        decreases n - k,
    {
        if k + 1 == n && split_instance.is_some() {
            out.push(with_split_suffix(lines[k].as_str(), split_instance));
        } else {
            out.push(lines[k].as_str().to_owned());
        }
        k += 1;
    }
    assert(out@.map_values(|s: String| s@) =~= split_lines(lv, split_instance));
    out
}

// ---------------------------------------------------------------------------
// Node kinds
// ---------------------------------------------------------------------------

/// Transmitting or receiving antenna symbol.
#[derive(Debug, Clone, Copy, PartialEq, Eq, Structural)]
pub enum AntennaRole {
    Transmitter,
    Receiver,
}

/// The antenna role of a node type.
pub open spec fn antenna_role_of(node_type: Seq<char>) -> Option<AntennaRole> {
    if node_type == "antennaTransmitterSymbol"@ {
        Some(AntennaRole::Transmitter)
    } else if node_type == "antennaReceiverSymbol"@ {
        Some(AntennaRole::Receiver)
    } else {
        None
    }
}

fn text_is(s: &str, lit: &str) -> (r: bool)
    ensures
        r == (s@ == lit@),
{
    let a = str_chars(s);
    let b = str_chars(lit);
    crate::chars::vec_eq(&a, &b)
}

impl AntennaRole {
    /// The role of an antenna node type; none for other node types.
    pub fn from_node_type(node_type: &str) -> (r: Option<AntennaRole>)
        ensures
            r == antenna_role_of(node_type@),
    {
        if text_is(node_type, "antennaTransmitterSymbol") {
            Some(AntennaRole::Transmitter)
        } else if text_is(node_type, "antennaReceiverSymbol") {
            Some(AntennaRole::Receiver)
        } else {
            None
        }
    }
}

/// The patch panel node types, which share row handle geometry.
pub open spec fn patch_panel_type(node_type: Seq<char>) -> bool {
    node_type == "lppPatchPanel"@ || node_type == "dppPatchPanel"@ || node_type == "mlpPatchPanel"@
        || node_type == "vpbPatchPanel"@
}

/// Whether `node_type` is a patch panel type.
pub fn is_patch_panel_node_type(node_type: &str) -> (r: bool)
    ensures
        r == patch_panel_type(node_type@),
{
    text_is(node_type, "lppPatchPanel") || text_is(node_type, "dppPatchPanel") || text_is(
        node_type,
        "mlpPatchPanel",
    ) || text_is(node_type, "vpbPatchPanel")
}

/// A character `sanitize_text` can put out: printable ASCII, not lower case.
pub open spec fn clean_char(c: char) -> bool {
    printable(c) && !('a' <= c <= 'z')
}

proof fn lemma_upper_clean(c: char)
    requires
        printable(c),
    ensures
        clean_char(ascii_upper(c)),
{
    if 'a' <= c <= 'z' {
        let u = ascii_upper(c);
        assert(u as u32 == (c as u32) - 32);
    }
}

proof fn lemma_shown_clean(y: Seq<char>)
    ensures
        forall|i: int| 0 <= i < shown(y).len() ==> clean_char(#[trigger] shown(y)[i]),
    decreases y.len(),
{
    if y.len() > 0 {
        lemma_shown_clean(y.drop_last());
        if printable(y.last()) {
            lemma_upper_clean(y.last());
        }
        let p = shown(y.drop_last());
        assert forall|i: int| 0 <= i < shown(y).len() implies clean_char(#[trigger] shown(y)[i]) by {
            if i < p.len() {
                assert(shown(y)[i] == p[i]);
            }
        }
    }
}

proof fn lemma_one_line_clean(x: Seq<char>)
    requires
        forall|i: int| 0 <= i < x.len() ==> clean_char(#[trigger] x[i]),
    ensures
        one_line(x) == x,
    decreases x.len(),
{
    if x.len() > 0 {
        assert(clean_char(x[0]));
        assert forall|i: int| 0 <= i < x.skip(1).len() implies clean_char(#[trigger] x.skip(1)[i]) by {
            assert(x.skip(1)[i] == x[i + 1]);
        }
        lemma_one_line_clean(x.skip(1));
        assert(x =~= seq![x[0]] + x.skip(1));
    }
}

proof fn lemma_shown_of_clean(x: Seq<char>)
    requires
        forall|i: int| 0 <= i < x.len() ==> clean_char(#[trigger] x[i]),
    ensures
        shown(x) == x,
    decreases x.len(),
{
    if x.len() > 0 {
        assert forall|i: int| 0 <= i < x.drop_last().len() implies clean_char(
            #[trigger] x.drop_last()[i],
        ) by {
            assert(x.drop_last()[i] == x[i]);
        }
        lemma_shown_of_clean(x.drop_last());
        assert(clean_char(x.last()));
        assert(x =~= x.drop_last().push(x.last()));
    }
}

/// Sanitizing sanitized text changes nothing.
pub proof fn sanitize_text_idempotent(s: Seq<char>, max_len: nat)
    ensures
        sanitized(sanitized(s, max_len), max_len) == sanitized(s, max_len),
{
    let t = shown(one_line(s));
    lemma_shown_clean(one_line(s));
    let out = sanitized(s, max_len);
    assert forall|i: int| 0 <= i < out.len() implies clean_char(#[trigger] out[i]) by {
        assert(out[i] == t[i]);
    }
    lemma_one_line_clean(out);
    lemma_shown_of_clean(out);
}

/// `sanitize_text` puts out printable ASCII without lower case letters, and
/// at most `max_len` characters.
pub proof fn sanitized_text_is_clean(s: Seq<char>, max_len: nat)
    ensures
        sanitized(s, max_len).len() <= max_len,
        forall|i: int|
            0 <= i < sanitized(s, max_len).len() ==> clean_char(#[trigger] sanitized(s, max_len)[i]),
{
    let t = shown(one_line(s));
    lemma_shown_clean(one_line(s));
    let out = sanitized(s, max_len);
    assert forall|i: int| 0 <= i < out.len() implies clean_char(#[trigger] out[i]) by {
        assert(out[i] == t[i]);
    }
}

} // verus!
