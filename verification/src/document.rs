//! CAD document, layers, Arial Narrow STYLE, and DXF serialization.
//!
//! A DXF file is a list of group pairs: a group code line and a value line.
//! The writer is specified by the list of pairs it emits; coordinates reach
//! it as already formatted number texts.

use vstd::prelude::*;
use vstd::seq_lib::lemma_concat_associative;

use crate::chars::{
    join, lemma_find_from_past, lemma_find_from_some, lemma_occurrence_found, occurs_at, dec_i64_exec, dec_int, find, find_from, find_from_exec, hex_upper, hex_upper_exec, push_all,
    push_str, slice_vec, str_chars, string_from_chars, contains, contains_exec,
};
use crate::sanitize::{cleaned_lines, reorder_solids, sanitize_dxf_string, unique_handles_text};
use crate::template::{
    max_handle, merge_entities_into_shell, merged, mergeable, shell_entity_start, shell_first_handle,
    shell_owner, splice_entities, SHELL_TEMPLATE,
};

verus! {

/// Horizontal alignment of a TEXT entity.
#[derive(Debug, Clone, Copy, PartialEq, Eq, Structural)]
pub enum TextHAlign {
    Left,
    Center,
    Right,
}

/// Vertical alignment of a TEXT entity.
#[derive(Debug, Clone, Copy, PartialEq, Eq, Structural)]
pub enum TextVAlign {
    Baseline,
    Middle,
    Bottom,
    Top,
}

/// DXF group 72 value of a horizontal alignment.
pub open spec fn h_code(h: TextHAlign) -> int {
    match h {
        TextHAlign::Left => 0,
        TextHAlign::Center => 1,
        TextHAlign::Right => 2,
    }
}

/// DXF group 73 value of a vertical alignment.
pub open spec fn v_code(v: TextVAlign) -> int {
    match v {
        TextVAlign::Baseline => 0,
        TextVAlign::Bottom => 1,
        TextVAlign::Middle => 2,
        TextVAlign::Top => 3,
    }
}

impl TextHAlign {
    /// DXF group 72 value.
    pub fn dxf_code(self) -> (c: i32)
        ensures
            c == h_code(self),
    {
        match self {
            TextHAlign::Left => 0,
            TextHAlign::Center => 1,
            TextHAlign::Right => 2,
        }
    }
}

impl TextVAlign {
    /// DXF group 73 value.
    pub fn dxf_code(self) -> (c: i32)
        ensures
            c == v_code(self),
    {
        match self {
            TextVAlign::Baseline => 0,
            TextVAlign::Bottom => 1,
            TextVAlign::Middle => 2,
            TextVAlign::Top => 3,
        }
    }
}

/// Four coordinate texts of a drawing extent, already padded and formatted.
#[derive(Debug, Clone)]
pub struct CadExtentText {
    pub min_x: String,
    pub min_y: String,
    pub max_x: String,
    pub max_y: String,
}

/// A coordinate pair, as two formatted number texts.
pub type PointText = (String, String);

/// One drawing entity; coordinates are formatted number texts.
#[derive(Debug, Clone)]
pub enum EntityKind {
    Line { layer: String, x1: String, y1: String, x2: String, y2: String },
    LwPolyline { layer: String, pts: Vec<PointText>, closed: bool },
    Text {
        layer: String,
        x: String,
        y: String,
        height: String,
        value: String,
        h_align: TextHAlign,
        v_align: TextVAlign,
    },
    Solid { layer: String, corners: [PointText; 4] },
}

/// A drawing to serialize: its extent texts and its entities in order.
///
/// `extent_header` holds the padded extent as written in the HEADER section;
/// `extent_vars` the same values as inserted by `inject_header_extents`.
pub struct CadDocument {
    pub extent_header: CadExtentText,
    pub extent_vars: CadExtentText,
    pub entities: Vec<EntityKind>,
}

/// An empty drawing with the given extent texts.
pub fn create_revit_cad_document(extent_header: CadExtentText, extent_vars: CadExtentText) -> (doc:
    CadDocument)
    ensures
        doc.extent_header == extent_header,
        doc.extent_vars == extent_vars,
        doc.entities@.len() == 0,
{
    CadDocument { extent_header, extent_vars, entities: Vec::new() }
}

// ---------------------------------------------------------------------------
// Entity helpers
// ---------------------------------------------------------------------------

/// Appends a LINE entity.
pub fn add_line(doc: &mut CadDocument, layer_name: &str, x1: &str, y1: &str, x2: &str, y2: &str)
    ensures
        final(doc).extent_header == old(doc).extent_header,
        final(doc).extent_vars == old(doc).extent_vars,
        final(doc).entities@.len() == old(doc).entities@.len() + 1,
        final(doc).entities@.take(old(doc).entities@.len() as int) == old(doc).entities@,
        final(doc).entities@.last() matches EntityKind::Line { layer, x1: a, y1: b, x2: c, y2: d }
            && layer@ == layer_name@ && a@ == x1@ && b@ == y1@ && c@ == x2@ && d@ == y2@,
{
    doc.entities.push(
        EntityKind::Line {
            layer: layer_name.to_owned(),
            x1: x1.to_owned(),
            y1: y1.to_owned(),
            x2: x2.to_owned(),
            y2: y2.to_owned(),
        },
    );
    assert(doc.entities@.take(old(doc).entities@.len() as int) == old(doc).entities@);
}

/// Copy of a list of points.
pub(crate) fn copy_points(pts: &Vec<PointText>) -> (out: Vec<PointText>)
    ensures
        out@ == pts@,
{
    let mut out: Vec<PointText> = Vec::new();
    let mut k: usize = 0;
    while k < pts.len()
        invariant
            k <= pts@.len(),
            out@ == pts@.take(k as int),
        decreases pts@.len() - k,
    {
        let p = (pts[k].0.clone(), pts[k].1.clone());
        out.push(p);
        k += 1;
        assert(out@ == pts@.take(k as int));
    }
    assert(pts@.take(pts@.len() as int) == pts@);
    out
}

/// Appends an LWPOLYLINE entity; fewer than two points draw nothing.
pub fn add_lwpolyline(doc: &mut CadDocument, layer_name: &str, pts: &Vec<PointText>, closed: bool)
    ensures
        final(doc).extent_header == old(doc).extent_header,
        final(doc).extent_vars == old(doc).extent_vars,
        pts@.len() < 2 ==> final(doc).entities@ == old(doc).entities@,
        pts@.len() >= 2 ==> {
            &&& final(doc).entities@.len() == old(doc).entities@.len() + 1
            &&& final(doc).entities@.take(old(doc).entities@.len() as int) == old(doc).entities@
            &&& final(doc).entities@.last() matches EntityKind::LwPolyline {
                layer,
                pts: p,
                closed: c,
            } && layer@ == layer_name@ && p@ == pts@ && c == closed
        },
{
    if pts.len() < 2 {
        return ;
    }
    let copy = copy_points(pts);
    doc.entities.push(EntityKind::LwPolyline { layer: layer_name.to_owned(), pts: copy, closed });
    assert(doc.entities@.take(old(doc).entities@.len() as int) == old(doc).entities@);
}

/// The corner quadruples of the SOLID entities that fill the polygon `pts`:
/// a triangle repeats its last corner, a quadrilateral swaps its last two
/// corners (DXF corner order), a larger polygon is split into a triangle fan.
pub open spec fn solid_corner_lists(pts: Seq<PointText>) -> Seq<Seq<PointText>> {
    let n = pts.len();
    if n < 3 {
        Seq::<Seq<PointText>>::empty()
    } else if n == 3 {
        seq![seq![pts[0], pts[1], pts[2], pts[2]]]
    } else if n == 4 {
        seq![seq![pts[0], pts[1], pts[3], pts[2]]]
    } else {
        Seq::new(
            (n - 2) as nat,
            |i: int| seq![pts[0], pts[i + 1], pts[i + 2], pts[i + 2]],
        )
    }
}

/// The SOLID entity on `layer` with the given corners.
pub open spec fn is_solid(e: EntityKind, layer: Seq<char>, corners: Seq<PointText>) -> bool {
    e matches EntityKind::Solid { layer: l, corners: c } && l@ == layer && c@ == corners
}

fn solid_entity(layer: &str, a: &PointText, b: &PointText, c: &PointText, d: &PointText) -> (e:
    EntityKind)
    ensures
        is_solid(e, layer@, seq![*a, *b, *c, *d]),
{
    let corners = [
        (a.0.clone(), a.1.clone()),
        (b.0.clone(), b.1.clone()),
        (c.0.clone(), c.1.clone()),
        (d.0.clone(), d.1.clone()),
    ];
    let e = EntityKind::Solid { layer: layer.to_owned(), corners };
    assert(corners@ =~= seq![*a, *b, *c, *d]);
    e
}

/// Appends SOLID entities filling the polygon `pts` (see `solid_corner_lists`).
pub fn add_solid(doc: &mut CadDocument, layer_name: &str, pts: &Vec<PointText>)
    ensures
        final(doc).extent_header == old(doc).extent_header,
        final(doc).extent_vars == old(doc).extent_vars,
        final(doc).entities@.len() == old(doc).entities@.len() + solid_corner_lists(pts@).len(),
        final(doc).entities@.take(old(doc).entities@.len() as int) == old(doc).entities@,
        forall|i: int|
            0 <= i < solid_corner_lists(pts@).len() ==> is_solid(
                #[trigger] final(doc).entities@[old(doc).entities@.len() + i],
                layer_name@,
                solid_corner_lists(pts@)[i],
            ),
{
    let n = pts.len();
    let ghost base = doc.entities@.len();
    if n < 3 {
        assert(doc.entities@.take(base as int) == doc.entities@);
        return ;
    }
    if n == 3 {
        let e = solid_entity(layer_name, &pts[0], &pts[1], &pts[2], &pts[2]);
        doc.entities.push(e);
        assert(doc.entities@.take(base as int) == old(doc).entities@);
        assert(doc.entities@[base as int] == e);
        return ;
    }
    if n == 4 {
        let e = solid_entity(layer_name, &pts[0], &pts[1], &pts[3], &pts[2]);
        doc.entities.push(e);
        assert(doc.entities@.take(base as int) == old(doc).entities@);
        assert(doc.entities@[base as int] == e);
        return ;
    }
    let ghost lists = solid_corner_lists(pts@);
    let mut i: usize = 1;
    while i <= n - 2
        invariant
            n == pts@.len(),
            n >= 5,
            1 <= i <= n - 1,
            lists == solid_corner_lists(pts@),
            base == old(doc).entities@.len(),
            doc.extent_header == old(doc).extent_header,
            doc.extent_vars == old(doc).extent_vars,
            doc.entities@.len() == base + (i - 1),
            doc.entities@.take(base as int) == old(doc).entities@,
            forall|k: int|
                0 <= k < i - 1 ==> is_solid(#[trigger] doc.entities@[base + k], layer_name@, lists[k]),
        decreases n - 1 - i,
    {
        let e = solid_entity(layer_name, &pts[0], &pts[i], &pts[i + 1], &pts[i + 1]);
        let ghost prev = doc.entities@;
        doc.entities.push(e);
        proof {
            assert(lists[i - 1] == seq![pts@[0], pts@[i as int], pts@[i + 1], pts@[i + 1]]);
            assert(doc.entities@.take(base as int) == prev.take(base as int));
            assert forall|k: int| 0 <= k < i implies is_solid(
                #[trigger] doc.entities@[base + k],
                layer_name@,
                lists[k],
            ) by {
                if k < i - 1 {
                    assert(doc.entities@[base + k] == prev[base + k]);
                }
            }
        }
        i += 1;
    }
}

/// Appends a TEXT entity.
pub fn add_text(
    doc: &mut CadDocument,
    layer_name: &str,
    x: &str,
    y: &str,
    height: &str,
    text: &str,
    h_align: TextHAlign,
    v_align: TextVAlign,
)
    ensures
        final(doc).extent_header == old(doc).extent_header,
        final(doc).extent_vars == old(doc).extent_vars,
        final(doc).entities@.len() == old(doc).entities@.len() + 1,
        final(doc).entities@.take(old(doc).entities@.len() as int) == old(doc).entities@,
        final(doc).entities@.last() matches EntityKind::Text {
            layer,
            x: a,
            y: b,
            height: h,
            value,
            h_align: ha,
            v_align: va,
        } && layer@ == layer_name@ && a@ == x@ && b@ == y@ && h@ == height@ && value@ == text@
            && ha == h_align && va == v_align,
{
    doc.entities.push(
        EntityKind::Text {
            layer: layer_name.to_owned(),
            x: x.to_owned(),
            y: y.to_owned(),
            height: height.to_owned(),
            value: text.to_owned(),
            h_align,
            v_align,
        },
    );
    assert(doc.entities@.take(old(doc).entities@.len() as int) == old(doc).entities@);
}

// ---------------------------------------------------------------------------
// Group pairs
// ---------------------------------------------------------------------------

/// A group code and its value.
pub type Group = (int, Seq<char>);

/// Text of one group pair: the code line (two spaces, then the code) and the value line.
pub open spec fn group_text(g: Group) -> Seq<char> {
    "  "@ + dec_int(g.0) + "\n"@ + g.1 + "\n"@
}

/// Text of a list of group pairs.
pub open spec fn groups_text(gs: Seq<Group>) -> Seq<char>
    decreases gs.len(),
{
    if gs.len() == 0 {
        Seq::<char>::empty()
    } else {
        groups_text(gs.drop_last()) + group_text(gs.last())
    }
}

/// A group whose value is an integer.
pub open spec fn int_group(code: int, v: int) -> Group {
    (code, dec_int(v))
}

pub proof fn lemma_groups_text_add(a: Seq<Group>, b: Seq<Group>)
    ensures
        groups_text(a + b) == groups_text(a) + groups_text(b),
    decreases b.len(),
{
    if b.len() == 0 {
        assert(a + b == a);
    } else {
        lemma_groups_text_add(a, b.drop_last());
        assert((a + b).drop_last() == a + b.drop_last());
        assert((a + b).last() == b.last());
    }
}

// ---------------------------------------------------------------------------
// Handles
// ---------------------------------------------------------------------------

/// Sequential entity handle source, starting at `0x10`.
pub struct HandleGen {
    pub next: u32,
}

impl HandleGen {
    /// A handle source whose first handle is `10`.
    pub fn new() -> (h: Self)
        ensures
            h.next == 0x10,
    {
        HandleGen { next: 0x10 }
    }

    /// The next handle, in upper-case hexadecimal.
    pub fn next(&mut self) -> (handle: Vec<char>)
        requires
            old(self).next < u32::MAX,
        ensures
            handle@ == hex_upper(old(self).next as nat),
            final(self).next == old(self).next + 1,
    {
        let handle = hex_upper_exec(self.next as u128);
        self.next = self.next + 1;
        handle
    }
}

// ---------------------------------------------------------------------------
// The writer
// ---------------------------------------------------------------------------

/// Handle of the model space block record.
pub open spec fn model_space_handle() -> Seq<char> {
    hex_upper(0x10)
}

/// Handle of the paper space block record.
pub open spec fn paper_space_handle() -> Seq<char> {
    hex_upper(0x11)
}

struct DxfWriter {
    out: Vec<char>,
    handles: HandleGen,
    model_space_handle: Vec<char>,
    paper_space_handle: Vec<char>,
    groups: Ghost<Seq<Group>>,
}

impl DxfWriter {
    spec fn wf(&self) -> bool {
        &&& self.out@ == groups_text(self.groups@)
    }

    fn new() -> (w: Self)
        ensures
            w.wf(),
            w.groups@ == Seq::<Group>::empty(),
            w.handles.next == 0x12,
            w.model_space_handle@ == model_space_handle(),
            w.paper_space_handle@ == paper_space_handle(),
    {
        let mut handles = HandleGen::new();
        let model_space_handle = handles.next();
        let paper_space_handle = handles.next();
        DxfWriter {
            out: Vec::new(),
            handles,
            model_space_handle,
            paper_space_handle,
            groups: Ghost(Seq::empty()),
        }
    }

    fn pair(&mut self, code: i32, value: &Vec<char>)
        requires
            old(self).wf(),
        ensures
            final(self).wf(),
            final(self).model_space_handle@ == old(self).model_space_handle@,
            final(self).paper_space_handle@ == old(self).paper_space_handle@,
            final(self).groups@ == old(self).groups@.push((code as int, value@)),
            final(self).handles.next == old(self).handles.next,
    {
        push_str(&mut self.out, "  ");
        let c = dec_i64_exec(code as i64);
        push_all(&mut self.out, &c);
        push_str(&mut self.out, "\n");
        push_all(&mut self.out, value);
        push_str(&mut self.out, "\n");
        let ghost g: Group = (code as int, value@);
        proof {
            let ng = old(self).groups@.push(g);
            assert(ng.drop_last() =~= old(self).groups@);
            assert(self.out@ =~= groups_text(old(self).groups@) + group_text(g));
        }
        self.groups = Ghost(self.groups@.push(g));
    }

    fn pair_str(&mut self, code: i32, value: &str)
        requires
            old(self).wf(),
        ensures
            final(self).wf(),
            final(self).model_space_handle@ == old(self).model_space_handle@,
            final(self).paper_space_handle@ == old(self).paper_space_handle@,
            final(self).groups@ == old(self).groups@.push((code as int, value@)),
            final(self).handles.next == old(self).handles.next,
    {
        let v = str_chars(value);
        self.pair(code, &v);
    }

    fn pair_int(&mut self, code: i32, value: i64)
        requires
            old(self).wf(),
        ensures
            final(self).wf(),
            final(self).model_space_handle@ == old(self).model_space_handle@,
            final(self).paper_space_handle@ == old(self).paper_space_handle@,
            final(self).groups@ == old(self).groups@.push(int_group(code as int, value as int)),
            final(self).handles.next == old(self).handles.next,
    {
        let v = dec_i64_exec(value);
        self.pair(code, &v);
    }

    fn section(&mut self, name: &str)
        requires
            old(self).wf(),
        ensures
            final(self).wf(),
            final(self).model_space_handle@ == old(self).model_space_handle@,
            final(self).paper_space_handle@ == old(self).paper_space_handle@,
            final(self).groups@ == old(self).groups@ + seq![(0int, "SECTION"@), (2int, name@)],
            final(self).handles.next == old(self).handles.next,
    {
        self.pair_str(0, "SECTION");
        self.pair_str(2, name);
        assert(self.groups@ =~= old(self).groups@ + seq![(0int, "SECTION"@), (2int, name@)]);
    }

    fn endsec(&mut self)
        requires
            old(self).wf(),
        ensures
            final(self).wf(),
            final(self).model_space_handle@ == old(self).model_space_handle@,
            final(self).paper_space_handle@ == old(self).paper_space_handle@,
            final(self).groups@ == old(self).groups@.push((0int, "ENDSEC"@)),
            final(self).handles.next == old(self).handles.next,
    {
        self.pair_str(0, "ENDSEC");
    }

    fn next_handle(&mut self) -> (h: Vec<char>)
        requires
            old(self).wf(),
            old(self).handles.next < u32::MAX,
        ensures
            final(self).wf(),
            final(self).model_space_handle@ == old(self).model_space_handle@,
            final(self).paper_space_handle@ == old(self).paper_space_handle@,
            final(self).groups@ == old(self).groups@,
            h@ == hex_upper(old(self).handles.next as nat),
            final(self).handles.next == old(self).handles.next + 1,
    {
        self.handles.next()
    }

    fn table(&mut self, name: &str, max_entries: i32)
        requires
            old(self).wf(),
            old(self).handles.next < u32::MAX,
        ensures
            final(self).wf(),
            final(self).model_space_handle@ == old(self).model_space_handle@,
            final(self).paper_space_handle@ == old(self).paper_space_handle@,
            final(self).groups@ == old(self).groups@ + table_groups(
                name@,
                old(self).handles.next as nat,
                max_entries as int,
            ),
            final(self).handles.next == old(self).handles.next + 1,
    {
        self.pair_str(0, "TABLE");
        self.pair_str(2, name);
        let handle = self.next_handle();
        self.pair(5, &handle);
        self.pair_str(330, "0");
        self.pair_str(100, "AcDbSymbolTable");
        self.pair_int(70, max_entries as i64);
        assert(self.groups@ =~= old(self).groups@ + table_groups(
            name@,
            old(self).handles.next as nat,
            max_entries as int,
        ));
    }

    fn endtab(&mut self)
        requires
            old(self).wf(),
        ensures
            final(self).wf(),
            final(self).model_space_handle@ == old(self).model_space_handle@,
            final(self).paper_space_handle@ == old(self).paper_space_handle@,
            final(self).groups@ == old(self).groups@.push((0int, "ENDTAB"@)),
            final(self).handles.next == old(self).handles.next,
    {
        self.pair_str(0, "ENDTAB");
    }

    fn write_header(&mut self, ext: &CadExtentText)
        requires
            old(self).wf(),
        ensures
            final(self).wf(),
            final(self).model_space_handle@ == old(self).model_space_handle@,
            final(self).paper_space_handle@ == old(self).paper_space_handle@,
            final(self).groups@ == old(self).groups@ + header_groups(
                ext.min_x@,
                ext.min_y@,
                ext.max_x@,
                ext.max_y@,
            ),
            final(self).handles.next == old(self).handles.next,
    {
        self.section("HEADER");
        self.pair_str(9, "$ACADVER");
        self.pair_str(1, "AC1015");
        self.pair_str(9, "$INSUNITS");
        self.pair_int(70, 1);
        self.pair_str(9, "$DWGCODEPAGE");
        self.pair_str(3, "ANSI_1252");
        self.pair_str(9, "$EXTMIN");
        self.pair_str(10, ext.min_x.as_str());
        self.pair_str(20, ext.min_y.as_str());
        self.pair_str(30, "0.0");
        self.pair_str(9, "$EXTMAX");
        self.pair_str(10, ext.max_x.as_str());
        self.pair_str(20, ext.max_y.as_str());
        self.pair_str(30, "0.0");
        self.pair_str(9, "$LIMMIN");
        self.pair_str(10, ext.min_x.as_str());
        self.pair_str(20, ext.min_y.as_str());
        self.pair_str(9, "$LIMMAX");
        self.pair_str(10, ext.max_x.as_str());
        self.pair_str(20, ext.max_y.as_str());
        self.endsec();
        assert(self.groups@ =~= old(self).groups@ + header_groups(
            ext.min_x@,
            ext.min_y@,
            ext.max_x@,
            ext.max_y@,
        ));
    }

    fn write_layer(&mut self, name: &str, color: i32)
        requires
            old(self).wf(),
            old(self).handles.next < u32::MAX,
        ensures
            final(self).wf(),
            final(self).model_space_handle@ == old(self).model_space_handle@,
            final(self).paper_space_handle@ == old(self).paper_space_handle@,
            final(self).groups@ == old(self).groups@ + layer_groups(
                name@,
                old(self).handles.next as nat,
                color as int,
            ),
            final(self).handles.next == old(self).handles.next + 1,
    {
        self.pair_str(0, "LAYER");
        let handle = self.next_handle();
        self.pair(5, &handle);
        self.pair_str(330, "2");
        self.pair_str(100, "AcDbSymbolTableRecord");
        self.pair_str(100, "AcDbLayerTableRecord");
        self.pair_str(2, name);
        self.pair_int(70, 0);
        self.pair_int(62, color as i64);
        self.pair_int(370, -3);
        assert(self.groups@ =~= old(self).groups@ + layer_groups(
            name@,
            old(self).handles.next as nat,
            color as int,
        ));
    }

    fn entity_header(&mut self, kind: &str, layer: &Vec<char>)
        requires
            old(self).wf(),
            old(self).handles.next < u32::MAX,
        ensures
            final(self).wf(),
            final(self).model_space_handle@ == old(self).model_space_handle@,
            final(self).paper_space_handle@ == old(self).paper_space_handle@,
            final(self).groups@ == old(self).groups@ + entity_header_groups(
                kind@,
                layer@,
                old(self).handles.next as nat,
                old(self).model_space_handle@,
            ),
            final(self).handles.next == old(self).handles.next + 1,
    {
        let handle = self.next_handle();
        let owner = slice_vec(&self.model_space_handle, 0, self.model_space_handle.len());
        assert(self.model_space_handle@.subrange(0, self.model_space_handle@.len() as int)
            == self.model_space_handle@);
        self.pair_str(0, kind);
        self.pair(5, &handle);
        self.pair(330, &owner);
        self.pair_str(100, "AcDbEntity");
        self.pair(8, layer);
        self.pair_int(370, -3);
        assert(self.groups@ =~= old(self).groups@ + entity_header_groups(
            kind@,
            layer@,
            old(self).handles.next as nat,
            old(self).model_space_handle@,
        ));
    }


    fn pair_usize(&mut self, code: i32, value: usize)
        requires
            old(self).wf(),
        ensures
            final(self).wf(),
            final(self).model_space_handle@ == old(self).model_space_handle@,
            final(self).paper_space_handle@ == old(self).paper_space_handle@,
            final(self).groups@ == old(self).groups@.push(int_group(code as int, value as int)),
            final(self).handles.next == old(self).handles.next,
    {
        let v = crate::chars::dec_u64_exec(value as u64);
        self.pair(code, &v);
    }

    fn write_tables_part1(&mut self)
        requires
            old(self).wf(),
            old(self).handles.next < u32::MAX - 19,
        ensures
            final(self).wf(),
            final(self).model_space_handle@ == old(self).model_space_handle@,
            final(self).paper_space_handle@ == old(self).paper_space_handle@,
            final(self).groups@ == old(self).groups@ + tables_part1(old(self).handles.next as nat),
            final(self).handles.next == old(self).handles.next + 2,
    {
        let ghost h = self.handles.next as nat;
        self.section("TABLES");
        self.table("VPORT", 1);
        self.pair_str(0, "VPORT");
        let handle = self.next_handle();
        self.pair(5, &handle);
        self.pair_str(330, "8");
        self.pair_str(100, "AcDbSymbolTableRecord");
        self.pair_str(100, "AcDbViewportTableRecord");
        self.pair_str(2, "*Active");
        self.endtab();
        reveal(tables_part1);
        assert(self.groups@ =~= old(self).groups@ + tables_part1(h));
    }

    fn write_tables_part2(&mut self)
        requires
            old(self).wf(),
            2 <= old(self).handles.next < u32::MAX - 17,
        ensures
            final(self).wf(),
            final(self).model_space_handle@ == old(self).model_space_handle@,
            final(self).paper_space_handle@ == old(self).paper_space_handle@,
            final(self).groups@ == old(self).groups@ + tables_part2((old(self).handles.next - 2) as nat),
            final(self).handles.next == old(self).handles.next + 2,
    {
        let ghost h = (self.handles.next - 2) as nat;
        self.table("LTYPE", 1);
        self.pair_str(0, "LTYPE");
        let handle = self.next_handle();
        self.pair(5, &handle);
        self.pair_str(330, "5");
        self.pair_str(100, "AcDbSymbolTableRecord");
        self.pair_str(100, "AcDbLinetypeTableRecord");
        self.pair_str(2, "CONTINUOUS");
        self.pair_int(70, 0);
        self.pair_str(3, "Solid line");
        self.pair_int(72, 65);
        self.pair_int(73, 0);
        self.pair_str(40, "0.0");
        self.endtab();
        reveal(tables_part2);
        assert(self.groups@ =~= old(self).groups@ + tables_part2(h));
    }

    fn write_tables_part3(&mut self)
        requires
            old(self).wf(),
            4 <= old(self).handles.next < u32::MAX - 15,
        ensures
            final(self).wf(),
            final(self).model_space_handle@ == old(self).model_space_handle@,
            final(self).paper_space_handle@ == old(self).paper_space_handle@,
            final(self).groups@ == old(self).groups@ + tables_part3((old(self).handles.next - 4) as nat),
            final(self).handles.next == old(self).handles.next + 6,
    {
        let ghost h = (self.handles.next - 4) as nat;
        self.table("LAYER", 5);
        self.write_layer("0", 7);
        self.write_layer("WIRES", 7);
        self.write_layer("FILLS", 9);
        self.write_layer("INKFILL", 7);
        self.write_layer("GUIDES", 8);
        self.endtab();
        reveal(tables_part3);
        assert(self.groups@ =~= old(self).groups@ + tables_part3(h));
    }

    fn write_tables_part4(&mut self)
        requires
            old(self).wf(),
            10 <= old(self).handles.next < u32::MAX - 9,
        ensures
            final(self).wf(),
            final(self).model_space_handle@ == old(self).model_space_handle@,
            final(self).paper_space_handle@ == old(self).paper_space_handle@,
            final(self).groups@ == old(self).groups@ + tables_part4((old(self).handles.next - 10) as nat),
            final(self).handles.next == old(self).handles.next + 4,
    {
        let ghost h = (self.handles.next - 10) as nat;
        self.table("STYLE", 1);
        self.pair_str(0, "STYLE");
        let handle = self.next_handle();
        self.pair(5, &handle);
        self.pair_str(330, "3");
        self.pair_str(100, "AcDbSymbolTableRecord");
        self.pair_str(100, "AcDbTextStyleTableRecord");
        self.pair_str(2, "Standard");
        self.pair_int(70, 0);
        self.pair_str(40, "0.0");
        self.pair_str(41, "1.0");
        self.pair_str(50, "0.0");
        self.pair_int(71, 0);
        self.pair_str(42, "0.2");
        self.pair_str(3, "Arial Narrow.ttf");
        self.pair_str(4, "");
        self.endtab();
        self.table("VIEW", 0);
        self.endtab();
        self.table("UCS", 0);
        self.endtab();
        reveal(tables_part4);
        assert(self.groups@ =~= old(self).groups@ + tables_part4(h));
    }

    fn write_tables_part5(&mut self)
        requires
            old(self).wf(),
            14 <= old(self).handles.next < u32::MAX - 5,
        ensures
            final(self).wf(),
            final(self).model_space_handle@ == old(self).model_space_handle@,
            final(self).paper_space_handle@ == old(self).paper_space_handle@,
            final(self).groups@ == old(self).groups@ + tables_part5((old(self).handles.next - 14) as nat),
            final(self).handles.next == old(self).handles.next + 4,
    {
        let ghost h = (self.handles.next - 14) as nat;
        self.table("APPID", 1);
        self.pair_str(0, "APPID");
        let handle = self.next_handle();
        self.pair(5, &handle);
        self.pair_str(330, "9");
        self.pair_str(100, "AcDbSymbolTableRecord");
        self.pair_str(100, "AcDbRegAppTableRecord");
        self.pair_str(2, "ACAD");
        self.pair_int(70, 0);
        self.endtab();
        self.table("DIMSTYLE", 1);
        self.pair_str(0, "DIMSTYLE");
        let handle = self.next_handle();
        self.pair(105, &handle);
        self.pair_str(330, "A");
        self.pair_str(100, "AcDbSymbolTableRecord");
        self.pair_str(100, "AcDbDimStyleTableRecord");
        self.pair_str(2, "Standard");
        self.pair_int(70, 0);
        self.endtab();
        reveal(tables_part5);
        assert(self.groups@ =~= old(self).groups@ + tables_part5(h));
    }

    fn write_tables_part6(&mut self)
        requires
            old(self).wf(),
            old(self).model_space_handle@ == model_space_handle(),
            old(self).paper_space_handle@ == paper_space_handle(),
            18 <= old(self).handles.next < u32::MAX - 1,
        ensures
            final(self).wf(),
            final(self).model_space_handle@ == old(self).model_space_handle@,
            final(self).paper_space_handle@ == old(self).paper_space_handle@,
            final(self).groups@ == old(self).groups@ + tables_part6((old(self).handles.next - 18) as nat),
            final(self).handles.next == old(self).handles.next + 1,
    {
        let ghost h = (self.handles.next - 18) as nat;
        self.table("BLOCK_RECORD", 2);
        self.pair_str(0, "BLOCK_RECORD");
        let model_handle = slice_vec(&self.model_space_handle, 0, self.model_space_handle.len());
        assert(self.model_space_handle@.subrange(0, self.model_space_handle@.len() as int)
            == self.model_space_handle@);
        self.pair(5, &model_handle);
        self.pair_str(330, "1");
        self.pair_str(100, "AcDbSymbolTableRecord");
        self.pair_str(100, "AcDbBlockTableRecord");
        self.pair_str(2, "*Model_Space");
        self.pair_str(0, "BLOCK_RECORD");
        let paper_handle = slice_vec(&self.paper_space_handle, 0, self.paper_space_handle.len());
        assert(self.paper_space_handle@.subrange(0, self.paper_space_handle@.len() as int)
            == self.paper_space_handle@);
        self.pair(5, &paper_handle);
        self.pair_str(330, "1");
        self.pair_str(100, "AcDbSymbolTableRecord");
        self.pair_str(100, "AcDbBlockTableRecord");
        self.pair_str(2, "*Paper_Space");
        self.endtab();
        self.endsec();
        reveal(tables_part6);
        assert(self.groups@ =~= old(self).groups@ + tables_part6(h));
    }

    fn write_tables(&mut self)
        requires
            old(self).wf(),
            old(self).model_space_handle@ == model_space_handle(),
            old(self).paper_space_handle@ == paper_space_handle(),
            old(self).handles.next < u32::MAX - 19,
        ensures
            final(self).wf(),
            final(self).model_space_handle@ == old(self).model_space_handle@,
            final(self).paper_space_handle@ == old(self).paper_space_handle@,
            final(self).groups@ == old(self).groups@ + tables_groups(old(self).handles.next as nat),
            final(self).handles.next == old(self).handles.next + 19,
    {
        let ghost h = self.handles.next as nat;
        let ghost g0 = self.groups@;
        self.write_tables_part1();
        self.write_tables_part2();
        proof {
            lemma_concat_associative(g0, tables_part1(h), tables_part2(h));
        }
        self.write_tables_part3();
        proof {
            lemma_concat_associative(g0, tables_part1(h) + tables_part2(h), tables_part3(h));
        }
        self.write_tables_part4();
        proof {
            lemma_concat_associative(
                g0,
                tables_part1(h) + tables_part2(h) + tables_part3(h),
                tables_part4(h),
            );
        }
        self.write_tables_part5();
        proof {
            lemma_concat_associative(
                g0,
                tables_part1(h) + tables_part2(h) + tables_part3(h) + tables_part4(h),
                tables_part5(h),
            );
        }
        self.write_tables_part6();
        proof {
            lemma_concat_associative(
                g0,
                tables_part1(h) + tables_part2(h) + tables_part3(h) + tables_part4(h)
                    + tables_part5(h),
                tables_part6(h),
            );
        }
    }
    fn write_line(&mut self, layer: &Vec<char>, x1: &str, y1: &str, x2: &str, y2: &str)
        requires
            old(self).wf(),
            old(self).handles.next < u32::MAX,
        ensures
            final(self).wf(),
            final(self).model_space_handle@ == old(self).model_space_handle@,
            final(self).paper_space_handle@ == old(self).paper_space_handle@,
            final(self).groups@ == old(self).groups@ + entity_header_groups(
                "LINE"@,
                layer@,
                old(self).handles.next as nat,
                old(self).model_space_handle@,
            ) + seq![
                (100int, "AcDbLine"@),
                (10int, x1@),
                (20int, y1@),
                (30int, "0.0"@),
                (11int, x2@),
                (21int, y2@),
                (31int, "0.0"@),
            ],
            final(self).handles.next == old(self).handles.next + 1,
    {
        let ghost g0 = self.groups@;
        self.entity_header("LINE", layer);
        let ghost g1 = self.groups@;
        self.pair_str(100, "AcDbLine");
        self.pair_str(10, x1);
        self.pair_str(20, y1);
        self.pair_str(30, "0.0");
        self.pair_str(11, x2);
        self.pair_str(21, y2);
        self.pair_str(31, "0.0");
        assert(self.groups@ =~= g1 + seq![
            (100int, "AcDbLine"@),
            (10int, x1@),
            (20int, y1@),
            (30int, "0.0"@),
            (11int, x2@),
            (21int, y2@),
            (31int, "0.0"@),
        ]);
    }

    fn write_lwpolyline(&mut self, layer: &Vec<char>, pts: &Vec<PointText>, closed: bool)
        requires
            old(self).wf(),
            old(self).handles.next < u32::MAX,
        ensures
            final(self).wf(),
            final(self).model_space_handle@ == old(self).model_space_handle@,
            final(self).paper_space_handle@ == old(self).paper_space_handle@,
            final(self).groups@ == old(self).groups@ + entity_header_groups(
                "LWPOLYLINE"@,
                layer@,
                old(self).handles.next as nat,
                old(self).model_space_handle@,
            ) + seq![
                (100int, "AcDbPolyline"@),
                int_group(90, pts@.len() as int),
                int_group(70, if closed { 1 } else { 0 }),
            ] + point_groups(pts@),
            final(self).handles.next == old(self).handles.next + 1,
    {
        self.entity_header("LWPOLYLINE", layer);
        self.pair_str(100, "AcDbPolyline");
        self.pair_usize(90, pts.len());
        self.pair_int(70, if closed { 1 } else { 0 });
        let ghost g1 = self.groups@;
        assert(g1 =~= old(self).groups@ + entity_header_groups(
            "LWPOLYLINE"@,
            layer@,
            old(self).handles.next as nat,
            old(self).model_space_handle@,
        ) + seq![
            (100int, "AcDbPolyline"@),
            int_group(90, pts@.len() as int),
            int_group(70, if closed { 1 } else { 0 }),
        ]);
        let mut k: usize = 0;
        assert(pts@.take(0) == Seq::<PointText>::empty());
        assert(g1 + point_groups(pts@.take(0)) =~= g1);
        while k < pts.len()
            invariant
                self.wf(),
                self.handles.next == old(self).handles.next + 1,
                self.model_space_handle@ == old(self).model_space_handle@,
                self.paper_space_handle@ == old(self).paper_space_handle@,
                k <= pts@.len(),
                self.groups@ == g1 + point_groups(pts@.take(k as int)),
            decreases pts@.len() - k,
        {
            self.pair_str(10, pts[k].0.as_str());
            self.pair_str(20, pts[k].1.as_str());
            proof {
                let t = pts@.take(k + 1);
                assert(t.drop_last() == pts@.take(k as int));
                assert(t.last() == pts@[k as int]);
            }
            k += 1;
            assert(self.groups@ =~= g1 + point_groups(pts@.take(k as int)));
        }
        assert(pts@.take(pts@.len() as int) == pts@);
        assert(self.groups@ =~= old(self).groups@ + entity_header_groups(
            "LWPOLYLINE"@,
            layer@,
            old(self).handles.next as nat,
            old(self).model_space_handle@,
        ) + seq![
            (100int, "AcDbPolyline"@),
            int_group(90, pts@.len() as int),
            int_group(70, if closed { 1 } else { 0 }),
        ] + point_groups(pts@));
    }

    fn write_text(&mut self, layer: &Vec<char>, x: &str, y: &str, height: &str, value: &str, h_align: TextHAlign, v_align: TextVAlign)
        requires
            old(self).wf(),
            old(self).handles.next < u32::MAX,
        ensures
            final(self).wf(),
            final(self).model_space_handle@ == old(self).model_space_handle@,
            final(self).paper_space_handle@ == old(self).paper_space_handle@,
            final(self).groups@ == old(self).groups@ + entity_header_groups(
                "TEXT"@,
                layer@,
                old(self).handles.next as nat,
                old(self).model_space_handle@,
            ) + text_body_groups(x@, y@, height@, value@, h_align, v_align),
            final(self).handles.next == old(self).handles.next + 1,
    {
        self.entity_header("TEXT", layer);
        let ghost g1 = self.groups@;
        self.pair_str(100, "AcDbText");
        self.pair_str(10, x);
        self.pair_str(20, y);
        self.pair_str(30, "0.0");
        self.pair_str(40, height);
        self.pair_str(1, value);
        self.pair_str(7, "Standard");
        self.pair_str(100, "AcDbText");
        self.pair_int(72, h_align.dxf_code() as i64);
        self.pair_str(11, x);
        self.pair_str(21, y);
        self.pair_str(31, "0.0");
        self.pair_int(73, v_align.dxf_code() as i64);
        assert(self.groups@ =~= g1 + text_body_groups(x@, y@, height@, value@, h_align, v_align));
    }

    fn write_solid(&mut self, layer: &Vec<char>, corners: &[PointText; 4])
        requires
            old(self).wf(),
            old(self).handles.next < u32::MAX,
        ensures
            final(self).wf(),
            final(self).model_space_handle@ == old(self).model_space_handle@,
            final(self).paper_space_handle@ == old(self).paper_space_handle@,
            final(self).groups@ == old(self).groups@ + entity_header_groups(
                "SOLID"@,
                layer@,
                old(self).handles.next as nat,
                old(self).model_space_handle@,
            ) + seq![(100int, "AcDbTrace"@)] + corner_groups(corners@),
            final(self).handles.next == old(self).handles.next + 1,
    {
        self.entity_header("SOLID", layer);
        self.pair_str(100, "AcDbTrace");
        let ghost g1 = self.groups@;
        assert(g1 =~= old(self).groups@ + entity_header_groups(
            "SOLID"@,
            layer@,
            old(self).handles.next as nat,
            old(self).model_space_handle@,
        ) + seq![(100int, "AcDbTrace"@)]);
        let mut i: usize = 0;
        assert(g1 + corner_groups_upto(corners@, 0) =~= g1);
        while i < 4
            invariant
                self.wf(),
                self.handles.next == old(self).handles.next + 1,
                self.model_space_handle@ == old(self).model_space_handle@,
                self.paper_space_handle@ == old(self).paper_space_handle@,
                i <= 4,
                self.groups@ == g1 + corner_groups_upto(corners@, i as int),
            decreases 4 - i,
        {
            let x_code = 10 + i as i32;
            let y_code = 20 + i as i32;
            self.pair_str(x_code, corners[i].0.as_str());
            self.pair_str(y_code, corners[i].1.as_str());
            self.pair_str(30 + i as i32, "0.0");
            i += 1;
            assert(self.groups@ =~= g1 + corner_groups_upto(corners@, i as int));
        }
        assert(corner_groups(corners@) == corner_groups_upto(corners@, 4));
        assert(self.groups@ =~= old(self).groups@ + entity_header_groups(
            "SOLID"@,
            layer@,
            old(self).handles.next as nat,
            old(self).model_space_handle@,
        ) + seq![(100int, "AcDbTrace"@)] + corner_groups(corners@));
    }

    fn write_entity_list(&mut self, entities: &Vec<EntityKind>)
        requires
            old(self).wf(),
            old(self).handles.next + entities@.len() <= u32::MAX,
        ensures
            final(self).wf(),
            final(self).model_space_handle@ == old(self).model_space_handle@,
            final(self).paper_space_handle@ == old(self).paper_space_handle@,
            final(self).groups@ == old(self).groups@ + entities_groups(
                entities@,
                old(self).handles.next as nat,
                old(self).model_space_handle@,
            ),
            final(self).handles.next == old(self).handles.next + entities@.len(),
    {
        let ghost h0 = self.handles.next as nat;
        let ghost owner = self.model_space_handle@;
        let ghost g1 = self.groups@;
        let mut k: usize = 0;
        assert(entities@.take(0) == Seq::<EntityKind>::empty());
        assert(g1 + entities_groups(entities@.take(0), h0, owner) =~= g1);
        while k < entities.len()
            invariant
                self.wf(),
                k <= entities@.len(),
                h0 + entities@.len() <= u32::MAX,
                self.handles.next == h0 + k,
                self.groups@ == g1 + entities_groups(entities@.take(k as int), h0, owner),
                self.model_space_handle@ == owner,
                self.paper_space_handle@ == old(self).paper_space_handle@,
            decreases entities@.len() - k,
        {
            let ghost gk = self.groups@;
            let entity = &entities[k];
            let layer = match entity {
                EntityKind::Line { layer, .. } => layer,
                EntityKind::LwPolyline { layer, .. } => layer,
                EntityKind::Text { layer, .. } => layer,
                EntityKind::Solid { layer, .. } => layer,
            };
            let layer_v = str_chars(layer.as_str());
            match entity {
                EntityKind::Line { x1, y1, x2, y2, .. } => self.write_line(
                    &layer_v,
                    x1.as_str(),
                    y1.as_str(),
                    x2.as_str(),
                    y2.as_str(),
                ),
                EntityKind::LwPolyline { pts, closed, .. } => self.write_lwpolyline(
                    &layer_v,
                    pts,
                    *closed,
                ),
                EntityKind::Text { x, y, height, value, h_align, v_align, .. } => self.write_text(
                    &layer_v,
                    x.as_str(),
                    y.as_str(),
                    height.as_str(),
                    value.as_str(),
                    *h_align,
                    *v_align,
                ),
                EntityKind::Solid { corners, .. } => self.write_solid(&layer_v, corners),
            }
            proof {
                let t = entities@.take(k + 1);
                assert(t.drop_last() == entities@.take(k as int));
                assert(t.last() == *entity);
                assert(self.groups@ =~= gk + entity_groups(*entity, (h0 + k) as nat, owner));
            }
            k += 1;
            assert(self.groups@ =~= g1 + entities_groups(entities@.take(k as int), h0, owner));
        }
        assert(entities@.take(entities@.len() as int) == entities@);
    }

    fn write_entities(&mut self, entities: &Vec<EntityKind>)
        requires
            old(self).wf(),
            old(self).handles.next + entities@.len() <= u32::MAX,
        ensures
            final(self).wf(),
            final(self).model_space_handle@ == old(self).model_space_handle@,
            final(self).paper_space_handle@ == old(self).paper_space_handle@,
            final(self).groups@ == old(self).groups@ + seq![
                (0int, "SECTION"@),
                (2int, "ENTITIES"@),
            ] + entities_groups(
                entities@,
                old(self).handles.next as nat,
                old(self).model_space_handle@,
            ) + seq![
                (0int, "ENDSEC"@),
            ],
            final(self).handles.next == old(self).handles.next + entities@.len(),
    {
        self.section("ENTITIES");
        self.write_entity_list(entities);
        self.endsec();
        assert(self.groups@ =~= old(self).groups@ + seq![
            (0int, "SECTION"@),
            (2int, "ENTITIES"@),
        ] + entities_groups(
            entities@,
            old(self).handles.next as nat,
            old(self).model_space_handle@,
        ) + seq![(0int, "ENDSEC"@)]);
    }

    fn finish(self) -> (out: Vec<char>)
        requires
            self.wf(),
        ensures
            out@ == groups_text(self.groups@.push((0int, "EOF"@))),
    {
        let mut w = self;
        w.pair_str(0, "EOF");
        w.out
    }
}

/// Groups opening a symbol table with the given handle.
pub open spec fn table_groups(name: Seq<char>, h: nat, max_entries: int) -> Seq<Group> {
    seq![
        (0int, "TABLE"@),
        (2int, name),
        (5int, hex_upper(h)),
        (330int, "0"@),
        (100int, "AcDbSymbolTable"@),
        int_group(70, max_entries),
    ]
}

/// Groups of a LAYER table record with the given handle.
pub open spec fn layer_groups(name: Seq<char>, h: nat, color: int) -> Seq<Group> {
    seq![
        (0int, "LAYER"@),
        (5int, hex_upper(h)),
        (330int, "2"@),
        (100int, "AcDbSymbolTableRecord"@),
        (100int, "AcDbLayerTableRecord"@),
        (2int, name),
        int_group(70, 0),
        int_group(62, color),
        int_group(370, -3),
    ]
}

/// Groups of the HEADER section with the given extent texts.
pub open spec fn header_groups(
    min_x: Seq<char>,
    min_y: Seq<char>,
    max_x: Seq<char>,
    max_y: Seq<char>,
) -> Seq<Group> {
    seq![
        (0int, "SECTION"@),
        (2int, "HEADER"@),
        (9int, "$ACADVER"@),
        (1int, "AC1015"@),
        (9int, "$INSUNITS"@),
        int_group(70, 1),
        (9int, "$DWGCODEPAGE"@),
        (3int, "ANSI_1252"@),
        (9int, "$EXTMIN"@),
        (10int, min_x),
        (20int, min_y),
        (30int, "0.0"@),
        (9int, "$EXTMAX"@),
        (10int, max_x),
        (20int, max_y),
        (30int, "0.0"@),
        (9int, "$LIMMIN"@),
        (10int, min_x),
        (20int, min_y),
        (9int, "$LIMMAX"@),
        (10int, max_x),
        (20int, max_y),
        (0int, "ENDSEC"@),
    ]
}

/// Groups that start an entity of the given kind, layer and handle.
pub open spec fn entity_header_groups(kind: Seq<char>, layer: Seq<char>, h: nat, owner: Seq<char>) -> Seq<
    Group,
> {
    seq![
        (0int, kind),
        (5int, hex_upper(h)),
        (330int, owner),
        (100int, "AcDbEntity"@),
        (8int, layer),
        int_group(370, -3),
    ]
}


/// Groups of the vertices of a polyline.
pub open spec fn point_groups(pts: Seq<PointText>) -> Seq<Group>
    decreases pts.len(),
{
    if pts.len() == 0 {
        Seq::<Group>::empty()
    } else {
        point_groups(pts.drop_last()) + seq![(10int, pts.last().0@), (20int, pts.last().1@)]
    }
}

/// Groups of the first `n` corners of a SOLID (codes 1x, 2x, 3x for corner x).
pub open spec fn corner_groups_upto(c: Seq<PointText>, n: int) -> Seq<Group>
    decreases n,
{
    if n <= 0 {
        Seq::<Group>::empty()
    } else {
        corner_groups_upto(c, n - 1) + seq![
            (10 + n - 1, c[n - 1].0@),
            (20 + n - 1, c[n - 1].1@),
            (30 + n - 1, "0.0"@),
        ]
    }
}

/// Groups of the four corners of a SOLID.
pub open spec fn corner_groups(c: Seq<PointText>) -> Seq<Group> {
    corner_groups_upto(c, 4)
}

/// Groups of a TEXT entity after its header.
pub open spec fn text_body_groups(
    x: Seq<char>,
    y: Seq<char>,
    height: Seq<char>,
    value: Seq<char>,
    h: TextHAlign,
    v: TextVAlign,
) -> Seq<Group> {
    seq![
        (100int, "AcDbText"@),
        (10int, x),
        (20int, y),
        (30int, "0.0"@),
        (40int, height),
        (1int, value),
        (7int, "Standard"@),
        (100int, "AcDbText"@),
        int_group(72, h_code(h)),
        (11int, x),
        (21int, y),
        (31int, "0.0"@),
        int_group(73, v_code(v)),
    ]
}

/// Groups of one entity written with handle `h`.
pub open spec fn entity_groups(e: EntityKind, h: nat, owner: Seq<char>) -> Seq<Group> {
    match e {
        EntityKind::Line { layer, x1, y1, x2, y2 } => entity_header_groups("LINE"@, layer@, h, owner)
            + seq![
            (100int, "AcDbLine"@),
            (10int, x1@),
            (20int, y1@),
            (30int, "0.0"@),
            (11int, x2@),
            (21int, y2@),
            (31int, "0.0"@),
        ],
        EntityKind::LwPolyline { layer, pts, closed } => entity_header_groups(
            "LWPOLYLINE"@,
            layer@,
            h,
            owner,
        ) + seq![
            (100int, "AcDbPolyline"@),
            int_group(90, pts@.len() as int),
            int_group(70, if closed { 1 } else { 0 }),
        ] + point_groups(pts@),
        EntityKind::Text { layer, x, y, height, value, h_align, v_align } => entity_header_groups(
            "TEXT"@,
            layer@,
            h,
            owner,
        ) + text_body_groups(x@, y@, height@, value@, h_align, v_align),
        EntityKind::Solid { layer, corners } => entity_header_groups("SOLID"@, layer@, h, owner) + seq![
            (100int, "AcDbTrace"@),
        ] + corner_groups(corners@),
    }
}

/// Groups of a list of entities, the first written with handle `h`, the next
/// with `h + 1`, and so on.
pub open spec fn entities_groups(es: Seq<EntityKind>, h: nat, owner: Seq<char>) -> Seq<Group>
    decreases es.len(),
{
    if es.len() == 0 {
        Seq::<Group>::empty()
    } else {
        entities_groups(es.drop_last(), h, owner) + entity_groups(
            es.last(),
            (h + es.len() - 1) as nat,
            owner,
        )
    }
}

#[verifier::opaque]
pub open spec fn tables_part1(h: nat) -> Seq<Group> {
    seq![(0int, "SECTION"@), (2int, "TABLES"@)] + table_groups("VPORT"@, h, 1) + seq![
        (0int, "VPORT"@),
        (5int, hex_upper(h + 1)),
        (330int, "8"@),
        (100int, "AcDbSymbolTableRecord"@),
        (100int, "AcDbViewportTableRecord"@),
        (2int, "*Active"@),
        (0int, "ENDTAB"@),
    ]
}

#[verifier::opaque]
pub open spec fn tables_part2(h: nat) -> Seq<Group> {
    table_groups("LTYPE"@, h + 2, 1) + seq![
        (0int, "LTYPE"@),
        (5int, hex_upper(h + 3)),
        (330int, "5"@),
        (100int, "AcDbSymbolTableRecord"@),
        (100int, "AcDbLinetypeTableRecord"@),
        (2int, "CONTINUOUS"@),
        int_group(70, 0),
        (3int, "Solid line"@),
        int_group(72, 65),
        int_group(73, 0),
        (40int, "0.0"@),
        (0int, "ENDTAB"@),
    ]
}

#[verifier::opaque]
pub open spec fn tables_part3(h: nat) -> Seq<Group> {
    table_groups("LAYER"@, h + 4, 5) + layer_groups("0"@, h + 5, 7) + layer_groups(
        "WIRES"@,
        h + 6,
        7,
    ) + layer_groups("FILLS"@, h + 7, 9) + layer_groups("INKFILL"@, h + 8, 7) + layer_groups(
        "GUIDES"@,
        h + 9,
        8,
    ) + seq![(0int, "ENDTAB"@)]
}

#[verifier::opaque]
pub open spec fn tables_part4(h: nat) -> Seq<Group> {
    table_groups("STYLE"@, h + 10, 1) + seq![
        (0int, "STYLE"@),
        (5int, hex_upper(h + 11)),
        (330int, "3"@),
        (100int, "AcDbSymbolTableRecord"@),
        (100int, "AcDbTextStyleTableRecord"@),
        (2int, "Standard"@),
        int_group(70, 0),
        (40int, "0.0"@),
        (41int, "1.0"@),
        (50int, "0.0"@),
        int_group(71, 0),
        (42int, "0.2"@),
        (3int, "Arial Narrow.ttf"@),
        (4int, ""@),
        (0int, "ENDTAB"@),
    ] + table_groups("VIEW"@, h + 12, 0) + seq![(0int, "ENDTAB"@)] + table_groups(
        "UCS"@,
        h + 13,
        0,
    ) + seq![(0int, "ENDTAB"@)]
}

#[verifier::opaque]
pub open spec fn tables_part5(h: nat) -> Seq<Group> {
    table_groups("APPID"@, h + 14, 1) + seq![
        (0int, "APPID"@),
        (5int, hex_upper(h + 15)),
        (330int, "9"@),
        (100int, "AcDbSymbolTableRecord"@),
        (100int, "AcDbRegAppTableRecord"@),
        (2int, "ACAD"@),
        int_group(70, 0),
        (0int, "ENDTAB"@),
    ] + table_groups("DIMSTYLE"@, h + 16, 1) + seq![
        (0int, "DIMSTYLE"@),
        (105int, hex_upper(h + 17)),
        (330int, "A"@),
        (100int, "AcDbSymbolTableRecord"@),
        (100int, "AcDbDimStyleTableRecord"@),
        (2int, "Standard"@),
        int_group(70, 0),
        (0int, "ENDTAB"@),
    ]
}

#[verifier::opaque]
pub open spec fn tables_part6(h: nat) -> Seq<Group> {
    table_groups("BLOCK_RECORD"@, h + 18, 2) + seq![
        (0int, "BLOCK_RECORD"@),
        (5int, model_space_handle()),
        (330int, "1"@),
        (100int, "AcDbSymbolTableRecord"@),
        (100int, "AcDbBlockTableRecord"@),
        (2int, "*Model_Space"@),
        (0int, "BLOCK_RECORD"@),
        (5int, paper_space_handle()),
        (330int, "1"@),
        (100int, "AcDbSymbolTableRecord"@),
        (100int, "AcDbBlockTableRecord"@),
        (2int, "*Paper_Space"@),
        (0int, "ENDTAB"@),
        (0int, "ENDSEC"@),
    ]
}

/// Groups of the TABLES section whose first table handle is `h`: the VPORT,
/// LTYPE, LAYER (layers `0`, `WIRES`, `FILLS`, `INKFILL`, `GUIDES`), STYLE
/// (Arial Narrow), VIEW, UCS, APPID, DIMSTYLE and BLOCK_RECORD tables.
pub open spec fn tables_groups(h: nat) -> Seq<Group> {
    tables_part1(h) + tables_part2(h) + tables_part3(h) + tables_part4(h) + tables_part5(h)
        + tables_part6(h)
}

/// All groups of the document written with the given header extent and entities.
pub open spec fn dxf_groups_of(header: CadExtentText, entities: Seq<EntityKind>) -> Seq<Group> {
    header_groups(header.min_x@, header.min_y@, header.max_x@, header.max_y@) + tables_groups(0x12)
        + seq![(0int, "SECTION"@), (2int, "ENTITIES"@)] + entities_groups(entities, 0x25, model_space_handle()) + seq![
        (0int, "ENDSEC"@),
        (0int, "EOF"@),
    ]
}

/// All groups of the document written for `doc`.
pub open spec fn dxf_groups(doc: CadDocument) -> Seq<Group> {
    dxf_groups_of(doc.extent_header, doc.entities@)
}

// ---------------------------------------------------------------------------
// Whole document
// ---------------------------------------------------------------------------

/// Writes the DXF text for a header extent and entities: HEADER, TABLES,
/// ENTITIES, EOF.
pub fn write_dxf_parts(header: &CadExtentText, entities: &Vec<EntityKind>) -> (out: String)
    requires
        entities@.len() <= u32::MAX - 0x25,
    ensures
        out@ == groups_text(dxf_groups_of(*header, entities@)),
{
    let mut w = DxfWriter::new();
    w.write_header(header);
    let ghost hg = header_groups(header.min_x@, header.min_y@, header.max_x@, header.max_y@);
    assert(w.groups@ =~= hg);
    w.write_tables();
    let ghost tg = tables_groups(0x12);
    assert(w.groups@ == hg + tg);
    w.write_entities(entities);
    let ghost eg = seq![(0int, "SECTION"@), (2int, "ENTITIES"@)] + entities_groups(
        entities@,
        0x25,
        model_space_handle(),
    ) + seq![(0int, "ENDSEC"@)];
    assert(w.groups@ =~= hg + tg + eg);
    let ghost final_groups = w.groups@;
    let out = w.finish();
    assert(final_groups.push((0int, "EOF"@)) =~= dxf_groups_of(*header, entities@));
    string_from_chars(&out)
}

/// Writes the DXF text of `doc`: HEADER, TABLES, ENTITIES, EOF.
pub fn write_dxf(doc: &CadDocument) -> (out: String)
    requires
        doc.entities@.len() <= u32::MAX - 0x25,
    ensures
        out@ == groups_text(dxf_groups(*doc)),
{
    write_dxf_parts(&doc.extent_header, &doc.entities)
}

/// The header variables that `inject_header_extents` inserts.
pub open spec fn extent_vars_text(e: CadExtentText) -> Seq<char> {
    "  9\n$EXTMIN\n 10\n"@ + e.min_x@ + "\n 20\n"@ + e.min_y@ + "\n 30\n0.0\n9\n$EXTMAX\n 10\n"@
        + e.max_x@ + "\n 20\n"@ + e.max_y@ + "\n 30\n0.0\n9\n$LIMMIN\n 10\n"@ + e.min_x@
        + "\n 20\n"@ + e.min_y@ + "\n9\n$LIMMAX\n 10\n"@ + e.max_x@ + "\n 20\n"@ + e.max_y@
}

fn extent_vars_exec(ext: &CadExtentText) -> (out: Vec<char>)
    ensures
        out@ == extent_vars_text(*ext),
{
    let mut out = str_chars("  9\n$EXTMIN\n 10\n");
    push_str(&mut out, ext.min_x.as_str());
    push_str(&mut out, "\n 20\n");
    push_str(&mut out, ext.min_y.as_str());
    push_str(&mut out, "\n 30\n0.0\n9\n$EXTMAX\n 10\n");
    push_str(&mut out, ext.max_x.as_str());
    push_str(&mut out, "\n 20\n");
    push_str(&mut out, ext.max_y.as_str());
    push_str(&mut out, "\n 30\n0.0\n9\n$LIMMIN\n 10\n");
    push_str(&mut out, ext.min_x.as_str());
    push_str(&mut out, "\n 20\n");
    push_str(&mut out, ext.min_y.as_str());
    push_str(&mut out, "\n9\n$LIMMAX\n 10\n");
    push_str(&mut out, ext.max_x.as_str());
    push_str(&mut out, "\n 20\n");
    push_str(&mut out, ext.max_y.as_str());
    out
}

/// `dxf` with the extent variables inserted before the end of its HEADER
/// section, unless there is no HEADER, it has no end, or it already holds
/// `$EXTMIN`.
pub open spec fn with_header_extents(dxf: Seq<char>, e: CadExtentText) -> Seq<char> {
    match find(dxf, "  2\nHEADER\n"@) {
        None => dxf,
        Some(h) => match find_from(dxf, "\n  0\nENDSEC\n"@, h) {
            None => dxf,
            Some(end) => if contains(dxf.subrange(h, end), "$EXTMIN"@) {
                dxf
            } else {
                dxf.take(end) + "\n"@ + extent_vars_text(e) + dxf.skip(end)
            },
        },
    }
}

/// Inserts `$EXTMIN` / `$EXTMAX` / `$LIMMIN` / `$LIMMAX` into HEADER when the
/// writer omitted them. If HEADER already contains `$EXTMIN`, returns `dxf`
/// unchanged.
pub fn inject_header_extents(dxf: &str, ext: &CadExtentText) -> (out: String)
    ensures
        out@ == with_header_extents(dxf@, *ext),
{
    let d = str_chars(dxf);
    let header_marker = str_chars("  2\nHEADER\n");
    let h = match find_from_exec(&d, &header_marker, 0) {
        None => {
            return dxf.to_owned();
        },
        Some(h) => h,
    };
    proof {
        lemma_find_from_some(d@, header_marker@, 0);
    }
    let endsec_marker = str_chars("\n  0\nENDSEC\n");
    let end = match find_from_exec(&d, &endsec_marker, h) {
        None => {
            return dxf.to_owned();
        },
        Some(end) => end,
    };
    proof {
        lemma_find_from_some(d@, endsec_marker@, h as int);
    }
    let body = slice_vec(&d, h, end);
    let extmin = str_chars("$EXTMIN");
    if contains_exec(&body, &extmin) {
        return dxf.to_owned();
    }
    let mut out = slice_vec(&d, 0, end);
    push_str(&mut out, "\n");
    let vars = extent_vars_exec(ext);
    push_all(&mut out, &vars);
    let rest = slice_vec(&d, end, d.len());
    push_all(&mut out, &rest);
    assert(d@.subrange(0, end as int) == d@.take(end as int));
    assert(d@.subrange(end as int, d@.len() as int) == d@.skip(end as int));
    assert(out@ =~= d@.take(end as int) + "\n"@ + extent_vars_text(*ext) + d@.skip(end as int));
    string_from_chars(&out)
}

proof fn lemma_header_marker_newline(k: int)
    requires
        0 <= k < 11,
        "  2\nHEADER\n"@[k] == '\n',
    ensures
        k == 3 || k == 10,
{
    reveal_strlit("  2\nHEADER\n");
    assert(k == 3 || k == 10 || "  2\nHEADER\n"@[k] != '\n') by {
        if k == 0 {} else if k == 1 {} else if k == 2 {} else if k == 4 {} else if k == 5 {}
        else if k == 6 {} else if k == 7 {} else if k == 8 {} else if k == 9 {}
    }
}

proof fn lemma_endsec_marker_newline(k: int)
    requires
        0 <= k < 12,
        "\n  0\nENDSEC\n"@[k] == '\n',
    ensures
        k == 0 || k == 4 || k == 11,
{
    reveal_strlit("\n  0\nENDSEC\n");
    assert(k == 0 || k == 4 || k == 11 || "\n  0\nENDSEC\n"@[k] != '\n') by {
        if k == 1 {} else if k == 2 {} else if k == 3 {} else if k == 5 {} else if k == 6 {}
        else if k == 7 {} else if k == 8 {} else if k == 9 {} else if k == 10 {}
    }
}

proof fn lemma_extent_lead_newline(k: int)
    requires
        0 <= k < 11,
        "  9\n$EXTMIN\n 10\n"@[k] == '\n',
    ensures
        k == 3,
{
    reveal_strlit("  9\n$EXTMIN\n 10\n");
    assert(k == 3 || "  9\n$EXTMIN\n 10\n"@[k] != '\n') by {
        if k == 0 {} else if k == 1 {} else if k == 2 {} else if k == 4 {} else if k == 5 {}
        else if k == 6 {} else if k == 7 {} else if k == 8 {} else if k == 9 {} else if k == 10 {}
    }
}

/// The extents are inserted at most once: a text that already went through
/// the insertion comes back unchanged from a second one, whatever extents
/// the second one is given.
#[verifier::spinoff_prover]
#[verifier::rlimit(60)]
pub proof fn header_extents_inserted_once(dxf: Seq<char>, e: CadExtentText, e2: CadExtentText)
    ensures
        with_header_extents(with_header_extents(dxf, e), e2) == with_header_extents(dxf, e),
{
    let hm = "  2\nHEADER\n"@;
    let em = "\n  0\nENDSEC\n"@;
    let xm = "$EXTMIN"@;
    let lead = "  9\n$EXTMIN\n 10\n"@;
    reveal_strlit("  2\nHEADER\n");
    reveal_strlit("\n  0\nENDSEC\n");
    reveal_strlit("$EXTMIN");
    reveal_strlit("  9\n$EXTMIN\n 10\n");
    let h = match find(dxf, hm) {
        Some(h) => h,
        None => {
            return;
        },
    };
    lemma_find_from_some(dxf, hm, 0);
    let end = match find_from(dxf, em, h) {
        Some(end) => end,
        None => {
            return;
        },
    };
    lemma_find_from_some(dxf, em, h);
    if contains(dxf.subrange(h, end), xm) {
        return;
    }
    let v = extent_vars_text(e);
    let n = dxf.take(end) + "\n"@ + v + dxf.skip(end);
    assert(n == with_header_extents(dxf, e));
    // the inserted text begins with `lead`
    assert(v.len() >= 16 && forall|t: int| 0 <= t < 16 ==> v[t] == lead[t]) by {
        let rest = e.min_x@ + "\n 20\n"@ + e.min_y@ + "\n 30\n0.0\n9\n$EXTMAX\n 10\n"@ + e.max_x@
            + "\n 20\n"@ + e.max_y@ + "\n 30\n0.0\n9\n$LIMMIN\n 10\n"@ + e.min_x@ + "\n 20\n"@
            + e.min_y@ + "\n9\n$LIMMAX\n 10\n"@ + e.max_x@ + "\n 20\n"@ + e.max_y@;
        assert(v =~= lead + rest);
    }
    // where `n` agrees with `dxf`, and what it holds after the cut
    reveal_strlit("\n");
    let b = dxf.take(end) + "\n"@;
    let c = b + v;
    assert(b.len() == end + 1);
    assert(forall|t: int| 0 <= t < end ==> n[t] == dxf[t]) by {
        assert forall|t: int| 0 <= t < end implies n[t] == dxf[t] by {
            assert(n[t] == c[t]);
            assert(c[t] == b[t]);
        }
    }
    assert(n[end] == '\n') by {
        assert(n[end] == c[end]);
        assert(c[end] == b[end]);
    }
    assert(forall|t: int| 0 <= t < 16 ==> n[end + 1 + t] == lead[t]) by {
        assert forall|t: int| 0 <= t < 16 implies n[end + 1 + t] == lead[t] by {
            assert(n[end + 1 + t] == c[end + 1 + t]);
            assert(c[end + 1 + t] == v[t]);
        }
    }
    assert(dxf.subrange(end, end + 12) == em);
    assert(dxf[end] == '\n') by {
        assert(dxf.subrange(end, end + 12)[0] == dxf[end]);
    }
    assert(dxf[end + 1] == ' ') by {
        assert(dxf.subrange(end, end + 12)[1] == dxf[end + 1]);
    }
    // HEADER is still found at `h`
    assert(occurs_at(n, hm, h)) by {
        assert(dxf.subrange(h, h + 11) == hm);
        if h + 11 <= end {
            assert(n.subrange(h, h + 11) =~= dxf.subrange(h, h + 11));
        } else {
            let d = end - h;
            assert(dxf.subrange(h, h + 11)[d] == dxf[end]);
            assert(hm[d] == '\n');
            if d == 3 {
                assert(dxf.subrange(h, h + 11)[4] == dxf[end + 1]);
            }
            assert(d == 10);
            assert forall|t: int| 0 <= t < 11 implies #[trigger] n.subrange(h, h + 11)[t] == hm[t] by {
                if t < 10 {
                    assert(dxf.subrange(h, h + 11)[t] == dxf[h + t]);
                }
            }
            assert(n.subrange(h, h + 11) =~= hm);
        }
    }
    assert forall|i: int| 0 <= i < h implies !occurs_at(n, hm, i) by {
        if occurs_at(n, hm, i) {
            if i + 11 <= end {
                assert(n.subrange(i, i + 11) =~= dxf.subrange(i, i + 11));
                assert(occurs_at(dxf, hm, i));
            } else {
                let d = end - i;
                assert(n.subrange(i, i + 11)[d] == n[end]);
                lemma_header_marker_newline(d);
                if d == 3 {
                    assert(n.subrange(i, i + 11)[4] == n[end + 1]);
                    assert(n[end + 1 + 0] == lead[0]);
                } else {
                    assert forall|t: int| 0 <= t < 11 implies #[trigger] dxf.subrange(i, i + 11)[t]
                        == hm[t] by {
                        if t < 10 {
                            assert(n.subrange(i, i + 11)[t] == n[i + t]);
                        }
                    }
                    assert(dxf.subrange(i, i + 11) =~= hm);
                    assert(occurs_at(dxf, hm, i));
                }
            }
        }
    }
    lemma_find_from_past(n, hm, 0, h);
    assert(find(n, hm) == Some(h));
    // no ENDSEC before the inserted `$EXTMIN`
    assert forall|k: int| h <= k < end + 12 implies !occurs_at(n, em, k) by {
        if occurs_at(n, em, k) {
            if k + 12 <= end {
                assert(n.subrange(k, k + 12) =~= dxf.subrange(k, k + 12));
                assert(occurs_at(dxf, em, k));
            } else if k < end {
                let d = end - k;
                assert(n.subrange(k, k + 12)[d] == n[end]);
                lemma_endsec_marker_newline(d);
                if d == 4 {
                    assert(n.subrange(k, k + 12)[5] == n[end + 1]);
                    assert(n[end + 1 + 0] == lead[0]);
                } else {
                    assert forall|t: int| 0 <= t < 12 implies #[trigger] dxf.subrange(k, k + 12)[t]
                        == em[t] by {
                        if t < 11 {
                            assert(n.subrange(k, k + 12)[t] == n[k + t]);
                        }
                    }
                    assert(dxf.subrange(k, k + 12) =~= em);
                    assert(occurs_at(dxf, em, k));
                }
            } else {
                let d = k - end;
                assert(n.subrange(k, k + 12)[0] == n[k]);
                assert(n.subrange(k, k + 12)[1] == n[k + 1]);
                assert(n.subrange(k, k + 12)[3] == n[k + 3]);
                if d == 0 {
                    assert(n[end + 1 + 2] == lead[2]);
                } else {
                    assert(n[end + 1 + (d - 1)] == lead[d - 1]);
                    lemma_extent_lead_newline(d - 1);
                    assert(n[end + 1 + 4] == lead[4]);
                }
            }
        }
    }
    lemma_find_from_past(n, em, h, end + 12);
    match find_from(n, em, h) {
        None => {},
        Some(end2) => {
            lemma_find_from_some(n, em, end + 12);
            assert(end2 >= end + 12);
            let sub = n.subrange(h, end2);
            assert(xm =~= lead.subrange(4, 11));
            assert(occurs_at(sub, xm, end + 5 - h)) by {
                assert forall|t: int| 0 <= t < 7 implies #[trigger] sub.subrange(
                    end + 5 - h,
                    end + 12 - h,
                )[t] == xm[t] by {
                    assert(n[end + 1 + (4 + t)] == lead[4 + t]);
                    assert(sub.subrange(end + 5 - h, end + 12 - h)[t] == sub[end + 5 - h + t]);
                    assert(sub[end + 5 - h + t] == n[end + 5 + t]);
                    assert(xm[t] == lead.subrange(4, 11)[t]);
                }
                assert(sub.subrange(end + 5 - h, end + 12 - h) =~= xm);
            }
            lemma_occurrence_found(sub, xm, 0, end + 5 - h);
        },
    }
}

/// Writes the ENTITIES body for `entities`: each entity owned by `owner`,
/// with handles `first_handle`, `first_handle + 1`, and so on.
pub fn write_entities_body(entities: &Vec<EntityKind>, owner: &str, first_handle: u32) -> (out:
    String)
    requires
        first_handle + entities@.len() <= u32::MAX,
    ensures
        out@ == groups_text(entities_groups(entities@, first_handle as nat, owner@)),
{
    let mut w = DxfWriter {
        out: Vec::new(),
        handles: HandleGen { next: first_handle },
        model_space_handle: str_chars(owner),
        paper_space_handle: Vec::new(),
        groups: Ghost(Seq::empty()),
    };
    w.write_entity_list(entities);
    assert(w.groups@ =~= entities_groups(entities@, first_handle as nat, owner@));
    string_from_chars(&w.out)
}

/// The ENTITIES body written for `entities` in the drawing shell.
pub open spec fn shell_body(entities: Seq<EntityKind>) -> Seq<char> {
    groups_text(entities_groups(entities, shell_first_handle(), shell_owner()))
}

/// Entities that can be written into the shell: their handles fit in 32
/// bits, and the merged text's largest handle leaves room for `$HANDSEED`.
pub open spec fn serializable_entities(entities: Seq<EntityKind>) -> bool {
    &&& shell_first_handle() + entities.len() <= u32::MAX
    &&& mergeable(SHELL_TEMPLATE@, shell_body(entities))
}

/// `out` is the DXF text, as handed to Revit, of a drawing with the given
/// extent variables and entities: the entities merged into the drawing shell,
/// the extents inserted into its HEADER, then sanitized.
pub open spec fn revit_text_of(vars: CadExtentText, entities: Seq<EntityKind>, out: Seq<char>) -> bool {
    unique_handles_text(
        reorder_solids(
            join(
                cleaned_lines(with_header_extents(merged(SHELL_TEMPLATE@, shell_body(entities)), vars)),
                "\n"@,
            ),
        ),
        out,
    )
}

/// The DXF text of `doc` as handed to Revit.
pub open spec fn revit_dxf_text(doc: CadDocument, out: Seq<char>) -> bool {
    revit_text_of(doc.extent_vars, doc.entities@, out)
}

/// Writes entities into the drawing shell, inserts the header extents, and
/// sanitizes the text.
pub fn serialize_parts(vars: &CadExtentText, entities: &Vec<EntityKind>) -> (out: String)
    requires
        serializable_entities(entities@),
    ensures
        revit_text_of(*vars, entities@, out@),
{
    let (owner, first) = shell_entity_start();
    let body = write_entities_body(entities, owner.as_str(), first);
    let merged_text = merge_entities_into_shell(SHELL_TEMPLATE, body.as_str());
    let with_extents = inject_header_extents(merged_text.as_str(), vars);
    sanitize_dxf_string(with_extents.as_str())
}

/// Writes `doc` into the drawing shell, inserts the header extents, and
/// sanitizes the text.
pub fn serialize_revit_dxf(doc: &CadDocument) -> (out: String)
    requires
        serializable_entities(doc.entities@),
    ensures
        revit_dxf_text(*doc, out@),
{
    serialize_parts(&doc.extent_vars, &doc.entities)
}

/// Whether `serialize_revit_dxf` can write `doc`.
pub fn is_serializable(doc: &CadDocument) -> (r: bool)
    ensures
        r == serializable_entities(doc.entities@),
{
    entities_serializable(&doc.entities)
}

/// Whether the entities can be written into the shell.
pub fn entities_serializable(entities: &Vec<EntityKind>) -> (r: bool)
    ensures
        r == serializable_entities(entities@),
{
    let (owner, first) = shell_entity_start();
    if entities.len() > (u32::MAX - first) as usize {
        return false;
    }
    let body = write_entities_body(entities, owner.as_str(), first);
    match splice_entities(SHELL_TEMPLATE, body.as_str()) {
        None => true,
        Some(text) => match max_handle(text.as_str()) {
            Some(m) => m != 0xFFFF_FFFF,
            None => true,
        },
    }
}


proof fn lemma_point_group_codes(pts: Seq<PointText>)
    ensures
        forall|k: int|
            0 <= k < point_groups(pts).len() ==> #[trigger] point_groups(pts)[k].0 == 10
                || point_groups(pts)[k].0 == 20,
    decreases pts.len(),
{
    if pts.len() > 0 {
        lemma_point_group_codes(pts.drop_last());
        let r = point_groups(pts.drop_last());
        assert forall|k: int| 0 <= k < point_groups(pts).len() implies #[trigger] point_groups(pts)[k].0
            == 10 || point_groups(pts)[k].0 == 20 by {
            if k < r.len() {
                assert(point_groups(pts)[k] == r[k]);
            }
        }
    }
}

/// A polyline is written with exactly one group `70`, whose value is `1`
/// when the polyline is closed and `0` when it is open.
pub proof fn polyline_closed_flag_written(
    layer: String,
    pts: Vec<PointText>,
    closed: bool,
    h: nat,
    owner: Seq<char>,
)
    ensures
        ({
            let g = entity_groups(EntityKind::LwPolyline { layer, pts, closed }, h, owner);
            &&& exists|k: int| 0 <= k < g.len() && #[trigger] g[k].0 == 70
            &&& forall|k: int|
                0 <= k < g.len() && #[trigger] g[k].0 == 70 ==> g[k].1 == (if closed {
                    "1"@
                } else {
                    "0"@
                })
            &&& forall|k: int, m: int|
                0 <= k < g.len() && 0 <= m < g.len() && #[trigger] g[k].0 == 70 && #[trigger] g[m].0
                    == 70 ==> k == m
        }),
{
    reveal_strlit("1");
    reveal_strlit("0");
    let g = entity_groups(EntityKind::LwPolyline { layer, pts, closed }, h, owner);
    let head = entity_header_groups("LWPOLYLINE"@, layer@, h, owner) + seq![
        (100int, "AcDbPolyline"@),
        int_group(90, pts@.len() as int),
        int_group(70, if closed { 1 } else { 0 }),
    ];
    lemma_point_group_codes(pts@);
    assert(g == head + point_groups(pts@));
    assert(head.len() == 9);
    assert(dec_int(1) =~= "1"@);
    assert(dec_int(0) =~= "0"@);
    assert(g[8].0 == 70);
    assert forall|k: int| 0 <= k < g.len() && #[trigger] g[k].0 == 70 implies k == 8 by {
        if k >= 9 {
            assert(g[k] == point_groups(pts@)[k - 9]);
        } else {
            assert(g[k] == head[k]);
        }
    }
}

} // verus!
