//! Layer and entity-type selections of a drawing, for bisecting CAD import
//! failures: which entities each split keeps, and the manifest text.

use vstd::prelude::*;

use crate::audit::{audit_dxf, audit_issues, issue_views, report_text, DxfAuditReport};
use crate::chars::{push_all, push_str, str_chars, string_from_chars, vec_eq};
use crate::document::{
    copy_points, entities_groups, entities_serializable, entity_groups, revit_text_of,
    serializable_entities, serialize_parts, shell_body, CadDocument, CadExtentText, EntityKind,
    PointText,
};
use crate::template::{shell_first_handle, shell_owner};

verus! {

/// The entity kinds a split can select.
#[derive(Debug, Clone, Copy, PartialEq, Eq, Structural)]
pub enum EntityTypeFilter {
    Line,
    LwPolyline,
    Text,
    Solid,
}

/// The kind of an entity.
pub open spec fn kind_of(e: EntityKind) -> EntityTypeFilter {
    match e {
        EntityKind::Line { .. } => EntityTypeFilter::Line,
        EntityKind::LwPolyline { .. } => EntityTypeFilter::LwPolyline,
        EntityKind::Text { .. } => EntityTypeFilter::Text,
        EntityKind::Solid { .. } => EntityTypeFilter::Solid,
    }
}

/// The DXF name of an entity kind.
pub open spec fn kind_name(k: EntityTypeFilter) -> Seq<char> {
    match k {
        EntityTypeFilter::Line => "LINE"@,
        EntityTypeFilter::LwPolyline => "LWPOLYLINE"@,
        EntityTypeFilter::Text => "TEXT"@,
        EntityTypeFilter::Solid => "SOLID"@,
    }
}

/// The layer of an entity.
pub open spec fn layer_of(e: EntityKind) -> Seq<char> {
    match e {
        EntityKind::Line { layer, .. } => layer@,
        EntityKind::LwPolyline { layer, .. } => layer@,
        EntityKind::Text { layer, .. } => layer@,
        EntityKind::Solid { layer, .. } => layer@,
    }
}

fn kind_exec(e: &EntityKind) -> (k: EntityTypeFilter)
    ensures
        k == kind_of(*e),
{
    match e {
        EntityKind::Line { .. } => EntityTypeFilter::Line,
        EntityKind::LwPolyline { .. } => EntityTypeFilter::LwPolyline,
        EntityKind::Text { .. } => EntityTypeFilter::Text,
        EntityKind::Solid { .. } => EntityTypeFilter::Solid,
    }
}

fn layer_exec(e: &EntityKind) -> (l: &str)
    ensures
        l@ == layer_of(*e),
{
    match e {
        EntityKind::Line { layer, .. } => layer.as_str(),
        EntityKind::LwPolyline { layer, .. } => layer.as_str(),
        EntityKind::Text { layer, .. } => layer.as_str(),
        EntityKind::Solid { layer, .. } => layer.as_str(),
    }
}

/// Which entities a split keeps: those on one of `layers` (any layer when
/// none are given) whose kind is one of `include_kinds` (any kind when none
/// are given).
#[derive(Debug, Clone)]
pub struct EntityFilter {
    pub layers: Option<Vec<String>>,
    pub include_kinds: Option<Vec<EntityTypeFilter>>,
}

/// A filter as plain values.
pub type FilterView = (Option<Seq<Seq<char>>>, Option<Seq<EntityTypeFilter>>);

impl View for EntityFilter {
    type V = FilterView;

    open spec fn view(&self) -> FilterView {
        (
            match self.layers {
                Some(v) => Some(v@.map_values(|s: String| s@)),
                None => None,
            },
            match self.include_kinds {
                Some(k) => Some(k@),
                None => None,
            },
        )
    }
}

/// Whether the filter keeps `e`.
pub open spec fn keeps(f: FilterView, e: EntityKind) -> bool {
    &&& (f.0 matches Some(ls) ==> ls.contains(layer_of(e)))
    &&& (f.1 matches Some(ks) ==> ks.contains(kind_of(e)))
}

/// The entities the filter keeps, in order.
pub open spec fn kept(es: Seq<EntityKind>, f: FilterView) -> Seq<EntityKind>
    decreases es.len(),
{
    if es.len() == 0 {
        Seq::empty()
    } else {
        kept(es.drop_last(), f) + if keeps(f, es.last()) {
            seq![es.last()]
        } else {
            Seq::<EntityKind>::empty()
        }
    }
}

/// Two entities write the same groups: same kind, same field texts.
pub open spec fn same_entity(a: EntityKind, b: EntityKind) -> bool {
    match (a, b) {
        (
            EntityKind::Line { layer: l1, x1: a1, y1: b1, x2: c1, y2: d1 },
            EntityKind::Line { layer: l2, x1: a2, y1: b2, x2: c2, y2: d2 },
        ) => l1@ == l2@ && a1@ == a2@ && b1@ == b2@ && c1@ == c2@ && d1@ == d2@,
        (
            EntityKind::LwPolyline { layer: l1, pts: p1, closed: c1 },
            EntityKind::LwPolyline { layer: l2, pts: p2, closed: c2 },
        ) => l1@ == l2@ && p1@ == p2@ && c1 == c2,
        (
            EntityKind::Text {
                layer: l1,
                x: x1,
                y: y1,
                height: h1,
                value: v1,
                h_align: ha1,
                v_align: va1,
            },
            EntityKind::Text {
                layer: l2,
                x: x2,
                y: y2,
                height: h2,
                value: v2,
                h_align: ha2,
                v_align: va2,
            },
        ) => l1@ == l2@ && x1@ == x2@ && y1@ == y2@ && h1@ == h2@ && v1@ == v2@ && ha1 == ha2
            && va1 == va2,
        (EntityKind::Solid { layer: l1, corners: c1 }, EntityKind::Solid { layer: l2, corners: c2 }) => l1@
            == l2@ && c1@ == c2@,
        _ => false,
    }
}

proof fn lemma_same_entities_groups(a: Seq<EntityKind>, b: Seq<EntityKind>, h: nat, owner: Seq<char>)
    requires
        a.len() == b.len(),
        forall|i: int| 0 <= i < a.len() ==> same_entity(#[trigger] a[i], b[i]),
    ensures
        entities_groups(a, h, owner) == entities_groups(b, h, owner),
    decreases a.len(),
{
    if a.len() > 0 {
        lemma_same_entities_groups(a.drop_last(), b.drop_last(), h, owner);
        assert(same_entity(a.last(), b.last()));
        assert(entity_groups(a.last(), (h + a.len() - 1) as nat, owner) == entity_groups(
            b.last(),
            (h + b.len() - 1) as nat,
            owner,
        ));
    }
}

fn copy_entity(e: &EntityKind) -> (r: EntityKind)
    ensures
        same_entity(r, *e),
        layer_of(r) == layer_of(*e),
        kind_of(r) == kind_of(*e),
{
    match e {
        EntityKind::Line { layer, x1, y1, x2, y2 } => EntityKind::Line {
            layer: layer.clone(),
            x1: x1.clone(),
            y1: y1.clone(),
            x2: x2.clone(),
            y2: y2.clone(),
        },
        EntityKind::LwPolyline { layer, pts, closed } => EntityKind::LwPolyline {
            layer: layer.clone(),
            pts: copy_points(pts),
            closed: *closed,
        },
        EntityKind::Text { layer, x, y, height, value, h_align, v_align } => EntityKind::Text {
            layer: layer.clone(),
            x: x.clone(),
            y: y.clone(),
            height: height.clone(),
            value: value.clone(),
            h_align: *h_align,
            v_align: *v_align,
        },
        EntityKind::Solid { layer, corners } => {
            let c: [PointText; 4] = [
                (corners[0].0.clone(), corners[0].1.clone()),
                (corners[1].0.clone(), corners[1].1.clone()),
                (corners[2].0.clone(), corners[2].1.clone()),
                (corners[3].0.clone(), corners[3].1.clone()),
            ];
            assert(c@ =~= corners@);
            EntityKind::Solid { layer: layer.clone(), corners: c }
        },
    }
}

fn contains_text(v: &Vec<String>, s: &str) -> (r: bool)
    ensures
        r == v@.map_values(|t: String| t@).contains(s@),
{
    let ghost vv = v@.map_values(|t: String| t@);
    let mut k: usize = 0;
    while k < v.len()
        invariant
            k <= v@.len(),
            vv == v@.map_values(|t: String| t@),
            forall|j: int| 0 <= j < k ==> vv[j] != s@,
        decreases v@.len() - k,
    {
        if crate::diagram::same_text(v[k].as_str(), s) {
            assert(vv[k as int] == s@);
            return true;
        }
        k += 1;
    }
    false
}

fn contains_kind(v: &Vec<EntityTypeFilter>, k: EntityTypeFilter) -> (r: bool)
    ensures
        r == v@.contains(k),
{
    let mut i: usize = 0;
    while i < v.len()
        invariant
            i <= v@.len(),
            forall|j: int| 0 <= j < i ==> v@[j] != k,
        decreases v@.len() - i,
    {
        if v[i] == k {
            return true;
        }
        i += 1;
    }
    false
}

impl EntityFilter {
    /// Keeps the entities on the given layers, of any kind.
    pub fn layers(names: &[&str]) -> (f: EntityFilter)
        ensures
            f@ == (Some(names@.map_values(|s: &str| s@)), None::<Seq<EntityTypeFilter>>),
    {
        let mut v: Vec<String> = Vec::new();
        let mut k: usize = 0;
        while k < names.len()
            invariant
                k <= names@.len(),
                v@.len() == k,
                forall|j: int| 0 <= j < k ==> #[trigger] v@[j]@ == names@[j]@,
            decreases names@.len() - k,
        {
            v.push(names[k].to_owned());
            k += 1;
        }
        let f = EntityFilter { layers: Some(v), include_kinds: None };
        assert(v@.map_values(|s: String| s@) =~= names@.map_values(|s: &str| s@));
        f
    }

    /// Keeps the entities of the given kinds, on any layer.
    pub fn kinds(kinds: &[EntityTypeFilter]) -> (f: EntityFilter)
        ensures
            f@ == (None::<Seq<Seq<char>>>, Some(kinds@)),
    {
        let mut v: Vec<EntityTypeFilter> = Vec::new();
        let mut k: usize = 0;
        while k < kinds.len()
            invariant
                k <= kinds@.len(),
                v@ == kinds@.take(k as int),
            decreases kinds@.len() - k,
        {
            v.push(kinds[k]);
            k += 1;
            assert(v@ =~= kinds@.take(k as int));
        }
        assert(kinds@.take(kinds@.len() as int) =~= kinds@);
        EntityFilter { layers: None, include_kinds: Some(v) }
    }

    /// Whether the filter keeps `e`.
    pub fn keeps(&self, e: &EntityKind) -> (r: bool)
        ensures
            r == keeps(self@, *e),
    {
        let layer_ok = match &self.layers {
            Some(ls) => contains_text(ls, layer_exec(e)),
            None => true,
        };
        let kind_ok = match &self.include_kinds {
            Some(ks) => contains_kind(ks, kind_exec(e)),
            None => true,
        };
        layer_ok && kind_ok
    }

    /// Copies of the entities the filter keeps, in order.
    pub fn apply(&self, entities: &Vec<EntityKind>) -> (out: Vec<EntityKind>)
        ensures
            out@.len() == kept(entities@, self@).len(),
            forall|i: int|
                0 <= i < out@.len() ==> same_entity(#[trigger] out@[i], kept(entities@, self@)[i]),
    {
        let mut out: Vec<EntityKind> = Vec::new();
        let mut k: usize = 0;
        while k < entities.len()
            invariant
                k <= entities@.len(),
                out@.len() == kept(entities@.take(k as int), self@).len(),
                forall|i: int|
                    0 <= i < out@.len() ==> same_entity(
                        #[trigger] out@[i],
                        kept(entities@.take(k as int), self@)[i],
                    ),
            decreases entities@.len() - k,
        {
            let ghost prev = out@;
            proof {
                let t = entities@.take(k + 1);
                assert(t.drop_last() =~= entities@.take(k as int));
                assert(t.last() == entities@[k as int]);
            }
            if self.keeps(&entities[k]) {
                let c = copy_entity(&entities[k]);
                out.push(c);
            }
            k += 1;
        }
        assert(entities@.take(entities@.len() as int) =~= entities@);
        out
    }
}

impl Default for EntityFilter {
    /// Keeps every entity.
    fn default() -> (f: EntityFilter)
        ensures
            f.layers is None,
            f.include_kinds is None,
    {
        EntityFilter { layers: None, include_kinds: None }
    }
}

proof fn lemma_kept_len(es: Seq<EntityKind>, f: FilterView)
    ensures
        kept(es, f).len() <= es.len(),
    decreases es.len(),
{
    if es.len() > 0 {
        lemma_kept_len(es.drop_last(), f);
    }
}

/// Writes and sanitizes the drawing with only the entities `filter` keeps.
pub fn serialize_revit_dxf_with_filter(doc: &CadDocument, filter: &EntityFilter) -> (out: Option<
    String,
>)
    ensures
        match out {
            Some(text) => serializable_entities(kept(doc.entities@, filter@)) && revit_text_of(
                doc.extent_vars,
                kept(doc.entities@, filter@),
                text@,
            ),
            None => !serializable_entities(kept(doc.entities@, filter@)),
        },
{
    let filtered = filter.apply(&doc.entities);
    proof {
        lemma_same_entities_groups(
            filtered@,
            kept(doc.entities@, filter@),
            shell_first_handle(),
            shell_owner(),
        );
        assert(shell_body(filtered@) == shell_body(kept(doc.entities@, filter@)));
    }
    if !entities_serializable(&filtered) {
        return None;
    }
    Some(serialize_parts(&doc.extent_vars, &filtered))
}

// ---------------------------------------------------------------------------
// Sorted sets of names
// ---------------------------------------------------------------------------

/// Lexicographic order of texts by character (the order of `String`).
pub open spec fn text_lt(a: Seq<char>, b: Seq<char>) -> bool
    decreases a.len(),
{
    if a.len() == 0 {
        b.len() > 0
    } else if b.len() == 0 {
        false
    } else if a[0] != b[0] {
        a[0] < b[0]
    } else {
        text_lt(a.drop_first(), b.drop_first())
    }
}

pub proof fn lemma_text_lt_irreflexive(a: Seq<char>)
    ensures
        !text_lt(a, a),
    decreases a.len(),
{
    if a.len() > 0 {
        lemma_text_lt_irreflexive(a.drop_first());
    }
}

pub proof fn lemma_text_lt_transitive(a: Seq<char>, b: Seq<char>, c: Seq<char>)
    requires
        text_lt(a, b),
        text_lt(b, c),
    ensures
        text_lt(a, c),
    decreases a.len(),
{
    if a.len() > 0 && b.len() > 0 && c.len() > 0 && a[0] == b[0] && b[0] == c[0] {
        lemma_text_lt_transitive(a.drop_first(), b.drop_first(), c.drop_first());
    }
}

pub proof fn lemma_text_lt_total(a: Seq<char>, b: Seq<char>)
    requires
        a != b,
    ensures
        text_lt(a, b) || text_lt(b, a),
    decreases a.len(),
{
    if a.len() == 0 && b.len() == 0 {
        assert(a =~= b);
    } else if a.len() > 0 && b.len() > 0 && a[0] != b[0] {
    } else if a.len() > 0 && b.len() > 0 && a[0] == b[0] {
        if a.drop_first() == b.drop_first() {
            assert(a =~= seq![a[0]] + a.drop_first());
            assert(b =~= seq![b[0]] + b.drop_first());
        }
        lemma_text_lt_total(a.drop_first(), b.drop_first());
    }
}

/// Strictly increasing in the order of texts (so without repeats).
pub open spec fn sorted_distinct(s: Seq<Seq<char>>) -> bool {
    forall|i: int, j: int| 0 <= i < j < s.len() ==> text_lt(#[trigger] s[i], #[trigger] s[j])
}

fn text_lt_exec(a: &Vec<char>, b: &Vec<char>) -> (r: bool)
    ensures
        r == text_lt(a@, b@),
{
    let mut i: usize = 0;
    assert(a@.skip(0) =~= a@ && b@.skip(0) =~= b@);
    while i < a.len() && i < b.len() && a[i] == b[i]
        invariant
            i <= a@.len(),
            i <= b@.len(),
            text_lt(a@, b@) == text_lt(a@.skip(i as int), b@.skip(i as int)),
        decreases a@.len() - i,
    {
        assert(a@.skip(i as int).drop_first() =~= a@.skip(i + 1));
        assert(b@.skip(i as int).drop_first() =~= b@.skip(i + 1));
        i += 1;
    }
    if i == a.len() {
        i < b.len()
    } else if i == b.len() {
        false
    } else {
        let ca = a[i];
        let cb = b[i];
        assert(a@.skip(i as int)[0] == ca && b@.skip(i as int)[0] == cb);
        ca < cb
    }
}

/// Views of a list of texts.
pub open spec fn names(v: Seq<String>) -> Seq<Seq<char>> {
    v.map_values(|s: String| s@)
}

/// Adds `x` to the sorted names `v` unless it is there already.
fn insert_sorted(v: &mut Vec<String>, x: &str)
    requires
        sorted_distinct(names(old(v)@)),
    ensures
        sorted_distinct(names(final(v)@)),
        names(final(v)@).to_set() == names(old(v)@).to_set().insert(x@),
{
    let xv = str_chars(x);
    let ghost o = names(v@);
    let mut p: usize = 0;
    let mut stop = false;
    while !stop && p < v.len()
        invariant
            p <= v@.len(),
            o == names(v@),
            xv@ == x@,
            forall|i: int| 0 <= i < p ==> text_lt(#[trigger] o[i], x@),
            stop ==> p < v@.len() && !text_lt(o[p as int], x@),
        decreases v@.len() - p, if stop { 0int } else { 1int },
    {
        let cur = str_chars(v[p].as_str());
        assert(o[p as int] == v@[p as int]@);
        if text_lt_exec(&cur, &xv) {
            p += 1;
        } else {
            stop = true;
        }
    }
    if p < v.len() {
        let cur = str_chars(v[p].as_str());
        assert(o[p as int] == v@[p as int]@);
        if vec_eq(&cur, &xv) {
            assert(o.to_set() =~= o.to_set().insert(x@)) by {
                assert(o.contains(x@));
            }
            return ;
        }
    }
    v.insert(p, x.to_owned());
    proof {
        let n = names(v@);
        assert(n =~= o.insert(p as int, x@));
        assert forall|i: int, j: int| 0 <= i < j < n.len() implies text_lt(
            #[trigger] n[i],
            #[trigger] n[j],
        ) by {
            if j < p {
                assert(n[i] == o[i] && n[j] == o[j]);
            } else if j == p {
                assert(n[i] == o[i]);
            } else if i < p {
                assert(n[i] == o[i] && n[j] == o[j - 1]);
                assert(text_lt(o[i], x@));
                if i < j - 1 {
                    assert(text_lt(o[i], o[j - 1]));
                }
            } else if i == p {
                assert(n[j] == o[j - 1]);
                assert(!text_lt(o[p as int], x@));
                assert(o[p as int] != x@);
                lemma_text_lt_total(o[p as int], x@);
                if j - 1 > p {
                    assert(text_lt(o[p as int], o[j - 1]));
                    lemma_text_lt_transitive(x@, o[p as int], o[j - 1]);
                }
            } else {
                assert(n[i] == o[i - 1] && n[j] == o[j - 1]);
            }
        }
        assert(n.to_set() =~= o.to_set().insert(x@)) by {
            assert forall|t: Seq<char>| n.to_set().contains(t) <==> o.to_set().insert(x@).contains(
                t,
            ) by {
                if n.contains(t) {
                    let k = choose|k: int| 0 <= k < n.len() && n[k] == t;
                    if k < p {
                        assert(o[k] == t);
                    } else if k > p {
                        assert(o[k - 1] == t);
                    }
                }
                if o.contains(t) {
                    let k = choose|k: int| 0 <= k < o.len() && o[k] == t;
                    if k < p {
                        assert(n[k] == t);
                    } else {
                        assert(n[k + 1] == t);
                    }
                }
                if t == x@ {
                    assert(n[p as int] == t);
                }
            }
        }
    }
}

/// The layers of the entities.
pub open spec fn layer_set(es: Seq<EntityKind>) -> Set<Seq<char>> {
    Set::new(|l: Seq<char>| exists|i: int| 0 <= i < es.len() && layer_of(#[trigger] es[i]) == l)
}

/// The kind names of the entities.
pub open spec fn kind_name_set(es: Seq<EntityKind>) -> Set<Seq<char>> {
    Set::new(
        |n: Seq<char>| exists|i: int| 0 <= i < es.len() && kind_name(kind_of(#[trigger] es[i])) == n,
    )
}

fn kind_name_exec(k: EntityTypeFilter) -> (s: &'static str)
    ensures
        s@ == kind_name(k),
{
    match k {
        EntityTypeFilter::Line => "LINE",
        EntityTypeFilter::LwPolyline => "LWPOLYLINE",
        EntityTypeFilter::Text => "TEXT",
        EntityTypeFilter::Solid => "SOLID",
    }
}

/// The number of entities of `doc`, and the sorted distinct names of their
/// layers and of their kinds.
pub fn entity_summary(doc: &CadDocument) -> (r: (usize, Vec<String>, Vec<String>))
    ensures
        r.0 == doc.entities@.len(),
        sorted_distinct(names(r.1@)),
        names(r.1@).to_set() == layer_set(doc.entities@),
        sorted_distinct(names(r.2@)),
        names(r.2@).to_set() == kind_name_set(doc.entities@),
{
    let ghost es = doc.entities@;
    let mut layers: Vec<String> = Vec::new();
    let mut kinds: Vec<String> = Vec::new();
    let mut k: usize = 0;
    assert(names(layers@).to_set() =~= layer_set(es.take(0)));
    assert(names(kinds@).to_set() =~= kind_name_set(es.take(0)));
    while k < doc.entities.len()
        invariant
            k <= es.len(),
            es == doc.entities@,
            sorted_distinct(names(layers@)),
            sorted_distinct(names(kinds@)),
            names(layers@).to_set() == layer_set(es.take(k as int)),
            names(kinds@).to_set() == kind_name_set(es.take(k as int)),
        decreases es.len() - k,
    {
        let e = &doc.entities[k];
        insert_sorted(&mut layers, layer_exec(e));
        insert_sorted(&mut kinds, kind_name_exec(kind_exec(e)));
        proof {
            let t = es.take(k + 1);
            assert(t[k as int] == es[k as int]);
            assert(layer_set(t) =~= layer_set(es.take(k as int)).insert(layer_of(es[k as int]))) by {
                assert forall|l: Seq<char>| layer_set(t).contains(l) <==> layer_set(
                    es.take(k as int),
                ).insert(layer_of(es[k as int])).contains(l) by {
                    if layer_set(t).contains(l) {
                        let i = choose|i: int| 0 <= i < t.len() && layer_of(#[trigger] t[i]) == l;
                        if i < k {
                            assert(es.take(k as int)[i] == t[i]);
                        }
                    }
                    if layer_set(es.take(k as int)).contains(l) {
                        let i = choose|i: int|
                            0 <= i < k && layer_of(#[trigger] es.take(k as int)[i]) == l;
                        assert(t[i] == es.take(k as int)[i]);
                    }
                }
            }
            assert(kind_name_set(t) =~= kind_name_set(es.take(k as int)).insert(
                kind_name(kind_of(es[k as int])),
            )) by {
                assert forall|n: Seq<char>| kind_name_set(t).contains(n) <==> kind_name_set(
                    es.take(k as int),
                ).insert(kind_name(kind_of(es[k as int]))).contains(n) by {
                    if kind_name_set(t).contains(n) {
                        let i = choose|i: int|
                            0 <= i < t.len() && kind_name(kind_of(#[trigger] t[i])) == n;
                        if i < k {
                            assert(es.take(k as int)[i] == t[i]);
                        }
                    }
                    if kind_name_set(es.take(k as int)).contains(n) {
                        let i = choose|i: int|
                            0 <= i < k && kind_name(kind_of(#[trigger] es.take(k as int)[i])) == n;
                        assert(t[i] == es.take(k as int)[i]);
                    }
                }
            }
        }
        k += 1;
    }
    assert(es.take(es.len() as int) =~= es);
    (doc.entities.len(), layers, kinds)
}

// ---------------------------------------------------------------------------
// Splits and their manifest
// ---------------------------------------------------------------------------

/// One bisection file: its name, what it holds, and its entity filter.
#[derive(Debug, Clone)]
pub struct DebugSplitSpec {
    pub filename: String,
    pub description: String,
    pub filter: EntityFilter,
}

/// A split as plain values.
pub type SplitView = (Seq<char>, Seq<char>, FilterView);

impl View for DebugSplitSpec {
    type V = SplitView;

    open spec fn view(&self) -> SplitView {
        (self.filename@, self.description@, self.filter@)
    }
}

/// What was written for one split: its entity count, layers, kinds and audit.
#[derive(Debug, Clone)]
pub struct DebugSplitManifest {
    pub filename: String,
    pub description: String,
    pub entity_count: usize,
    pub layers: Vec<String>,
    pub kinds: Vec<String>,
    pub audit: DxfAuditReport,
}

/// A filter on the given layers.
pub open spec fn on_layers(ls: Seq<Seq<char>>) -> FilterView {
    (Some(ls), None)
}

/// A filter on the given kinds.
pub open spec fn of_kinds(ks: Seq<EntityTypeFilter>) -> FilterView {
    (None, Some(ks))
}

/// The preset splits, in order: the shell without entities, each layer, each
/// kind, layer `0` by kind, FILLS with WIRES, and the full drawing.
pub open spec fn split_table() -> Seq<SplitView> {
    seq![
        (
            "00-shell-no-entities.dxf"@,
            "Document shell only — no ENTITIES (tests structure vs geometry)"@,
            on_layers(Seq::empty()),
        ),
        ("01-layer-FILLS.dxf"@, "FILLS layer only (SOLID fill rectangles)"@, on_layers(seq!["FILLS"@])),
        ("02-layer-WIRES.dxf"@, "WIRES layer only (wire polylines)"@, on_layers(seq!["WIRES"@])),
        ("03-layer-0.dxf"@, "Layer 0 only (device outlines + text labels)"@, on_layers(seq!["0"@])),
        ("04-type-SOLID.dxf"@, "All SOLID entities"@, of_kinds(seq![EntityTypeFilter::Solid])),
        (
            "05-type-LWPOLYLINE.dxf"@,
            "All LWPOLYLINE entities"@,
            of_kinds(seq![EntityTypeFilter::LwPolyline]),
        ),
        ("06-type-TEXT.dxf"@, "All TEXT entities"@, of_kinds(seq![EntityTypeFilter::Text])),
        (
            "07-layer-0-LWPOLYLINE.dxf"@,
            "Layer 0 outlines only (no text)"@,
            (Some(seq!["0"@]), Some(seq![EntityTypeFilter::LwPolyline])),
        ),
        (
            "08-layer-0-TEXT.dxf"@,
            "Layer 0 text labels only (no outlines)"@,
            (Some(seq!["0"@]), Some(seq![EntityTypeFilter::Text])),
        ),
        (
            "09-cum-FILLS+WIRES.dxf"@,
            "FILLS + WIRES (no layer 0)"@,
            on_layers(seq!["FILLS"@, "WIRES"@]),
        ),
        ("10-full.dxf"@, "Full export (all layers)"@, (None, None)),
    ]
}

fn split(filename: &str, description: &str, filter: EntityFilter) -> (s: DebugSplitSpec)
    ensures
        s@ == (filename@, description@, filter@),
{
    DebugSplitSpec { filename: filename.to_owned(), description: description.to_owned(), filter }
}

fn filter_of(layers: Option<&str>, kind: Option<EntityTypeFilter>) -> (f: EntityFilter)
    ensures
        f@ == (
            match layers {
                Some(l) => Some(seq![l@]),
                None => None,
            },
            match kind {
                Some(k) => Some(seq![k]),
                None => None,
            },
        ),
{
    let ls = match layers {
        Some(l) => {
            let mut v: Vec<String> = Vec::new();
            v.push(l.to_owned());
            assert(v@.map_values(|s: String| s@) =~= seq![l@]);
            Some(v)
        },
        None => None,
    };
    let ks = match kind {
        Some(k) => {
            let mut v: Vec<EntityTypeFilter> = Vec::new();
            v.push(k);
            assert(v@ =~= seq![k]);
            Some(v)
        },
        None => None,
    };
    EntityFilter { layers: ls, include_kinds: ks }
}

/// Preset splits for bisecting CAD import failures by layer and entity type.
pub fn debug_split_specs() -> (specs: Vec<DebugSplitSpec>)
    ensures
        specs@.map_values(|s: DebugSplitSpec| s@) == split_table(),
{
    let mut out: Vec<DebugSplitSpec> = Vec::new();
    let no_layers: Vec<String> = Vec::new();
    let shell = EntityFilter { layers: Some(no_layers), include_kinds: None };
    assert(no_layers@.map_values(|s: String| s@) =~= Seq::<Seq<char>>::empty());
    out.push(
        split(
            "00-shell-no-entities.dxf",
            "Document shell only — no ENTITIES (tests structure vs geometry)",
            shell,
        ),
    );
    out.push(
        split(
            "01-layer-FILLS.dxf",
            "FILLS layer only (SOLID fill rectangles)",
            filter_of(Some("FILLS"), None),
        ),
    );
    out.push(
        split(
            "02-layer-WIRES.dxf",
            "WIRES layer only (wire polylines)",
            filter_of(Some("WIRES"), None),
        ),
    );
    out.push(
        split(
            "03-layer-0.dxf",
            "Layer 0 only (device outlines + text labels)",
            filter_of(Some("0"), None),
        ),
    );
    out.push(
        split(
            "04-type-SOLID.dxf",
            "All SOLID entities",
            filter_of(None, Some(EntityTypeFilter::Solid)),
        ),
    );
    out.push(
        split(
            "05-type-LWPOLYLINE.dxf",
            "All LWPOLYLINE entities",
            filter_of(None, Some(EntityTypeFilter::LwPolyline)),
        ),
    );
    out.push(
        split(
            "06-type-TEXT.dxf",
            "All TEXT entities",
            filter_of(None, Some(EntityTypeFilter::Text)),
        ),
    );
    out.push(
        split(
            "07-layer-0-LWPOLYLINE.dxf",
            "Layer 0 outlines only (no text)",
            filter_of(Some("0"), Some(EntityTypeFilter::LwPolyline)),
        ),
    );
    out.push(
        split(
            "08-layer-0-TEXT.dxf",
            "Layer 0 text labels only (no outlines)",
            filter_of(Some("0"), Some(EntityTypeFilter::Text)),
        ),
    );
    let fills_wires = EntityFilter::layers(&["FILLS", "WIRES"]);
    assert(fills_wires@.0 matches Some(ls) && ls =~= seq!["FILLS"@, "WIRES"@]);
    out.push(split("09-cum-FILLS+WIRES.dxf", "FILLS + WIRES (no layer 0)", fills_wires));
    out.push(split("10-full.dxf", "Full export (all layers)", EntityFilter::default()));
    proof {
        let t = split_table();
        let v = out@.map_values(|s: DebugSplitSpec| s@);
        assert(v.len() == t.len());
        assert(v =~= t);
    }
    out
}

/// What `format!("{:?}", list)` writes for a list of texts: `[`, the
/// `Debug` form of each text, separated by `, `, then `]`.
pub open spec fn debug_list_text(items: Seq<Seq<char>>) -> Seq<char> {
    "["@ + crate::chars::join(items.map_values(|s: Seq<char>| crate::audit::debug_text(s)), ", "@)
        + "]"@
}

/// The `Debug` form of a `Vec<String>` (`format!("{:?}", items)`): `[`, each
/// item's `str` `Debug` form (quoted and escaped) separated by `, `, then
/// `]`. The escaping of each item is only named (`debug_text`).
#[verifier::external_body]
fn debug_list(items: &Vec<String>) -> (r: Vec<char>)
    ensures
        r@ == debug_list_text(items@.map_values(|s: String| s@)),
{
    format!("{:?}", items).chars().collect()
}

/// The manifest section of one split.
pub open spec fn manifest_entry_text(m: DebugSplitManifest) -> Seq<char> {
    "## "@ + m.filename@ + "\n"@ + m.description@ + "\n"@ + "entities: "@ + crate::chars::dec_nat(
        m.entity_count as nat,
    ) + " | layers: "@ + debug_list_text(names(m.layers@)) + " | kinds: "@ + debug_list_text(
        names(m.kinds@),
    ) + "\n"@ + report_text(issue_views(m.audit.issues@)) + "\n"@
}

/// The manifest text: a title, a how-to line, then each split's section.
pub open spec fn manifest_text(ms: Seq<DebugSplitManifest>) -> Seq<char> {
    "Diagramme DXF layer bisection manifest\n"@
        + "Import each file into Revit in order. Note the first file that fails.\n\n"@
        + crate::chars::concat(ms.map_values(|m: DebugSplitManifest| manifest_entry_text(m)))
}

/// The manifest text of the written splits.
pub fn manifest_to_text(manifest: &Vec<DebugSplitManifest>) -> (out: String)
    ensures
        out@ == manifest_text(manifest@),
{
    let mut out = str_chars("Diagramme DXF layer bisection manifest\n");
    push_str(&mut out, "Import each file into Revit in order. Note the first file that fails.\n\n");
    let ghost head = out@;
    let ghost texts = manifest@.map_values(|m: DebugSplitManifest| manifest_entry_text(m));
    let mut k: usize = 0;
    assert(texts.take(0) =~= Seq::<Seq<char>>::empty());
    while k < manifest.len()
        invariant
            k <= manifest@.len(),
            texts == manifest@.map_values(|m: DebugSplitManifest| manifest_entry_text(m)),
            out@ == head + crate::chars::concat(texts.take(k as int)),
        decreases manifest@.len() - k,
    {
        let entry = &manifest[k];
        let ghost prev = out@;
        push_str(&mut out, "## ");
        push_str(&mut out, entry.filename.as_str());
        push_str(&mut out, "\n");
        push_str(&mut out, entry.description.as_str());
        push_str(&mut out, "\n");
        push_str(&mut out, "entities: ");
        let d = crate::chars::dec_u64_exec(entry.entity_count as u64);
        push_all(&mut out, &d);
        push_str(&mut out, " | layers: ");
        let l = debug_list(&entry.layers);
        push_all(&mut out, &l);
        push_str(&mut out, " | kinds: ");
        let kd = debug_list(&entry.kinds);
        push_all(&mut out, &kd);
        push_str(&mut out, "\n");
        let audit_text = entry.audit.to_text();
        push_str(&mut out, audit_text.as_str());
        push_str(&mut out, "\n");
        proof {
            assert(out@ =~= prev + manifest_entry_text(*entry));
            let t = texts.take(k + 1);
            assert(t.drop_last() =~= texts.take(k as int));
            assert(t.last() == manifest_entry_text(*entry));
        }
        k += 1;
    }
    assert(texts.take(manifest@.len() as int) =~= texts);
    string_from_chars(&out)
}

/// The filter of the full split keeps every entity, and the filter of the
/// shell split (no layers) keeps none.
pub proof fn full_and_shell_filters(es: Seq<EntityKind>)
    ensures
        kept(es, (None, None)) == es,
        kept(es, (Some(Seq::<Seq<char>>::empty()), None)) == Seq::<EntityKind>::empty(),
    decreases es.len(),
{
    if es.len() > 0 {
        full_and_shell_filters(es.drop_last());
        assert(es.drop_last().push(es.last()) =~= es);
    }
}

/// A filter keeps exactly the entities it accepts, in their order.
pub proof fn kept_is_filter(es: Seq<EntityKind>, f: FilterView)
    ensures
        kept(es, f) == es.filter(|e: EntityKind| keeps(f, e)),
    decreases es.len(),
{
    reveal(Seq::filter);
    if es.len() > 0 {
        kept_is_filter(es.drop_last(), f);
    }
}

proof fn lemma_sorted_first_is_least(a: Seq<Seq<char>>, x: Seq<char>)
    requires
        sorted_distinct(a),
        a.len() > 0,
        a.to_set().contains(x),
        x != a[0],
    ensures
        text_lt(a[0], x),
{
    assert(a.contains(x));
    let k = choose|k: int| 0 <= k < a.len() && a[k] == x;
    assert(k != 0);
    assert(text_lt(a[0], a[k]));
}

/// A sorted list without repeats is fixed by the set of its items: the
/// layer and kind lists of `entity_summary` are the only lists its contract allows.
pub proof fn sorted_set_is_unique(a: Seq<Seq<char>>, b: Seq<Seq<char>>)
    requires
        sorted_distinct(a),
        sorted_distinct(b),
        a.to_set() == b.to_set(),
    ensures
        a == b,
    decreases a.len() + b.len(),
{
    if a.len() == 0 {
        if b.len() > 0 {
            assert(b.to_set().contains(b[0]));
            assert(!a.to_set().contains(b[0]));
        }
        assert(a =~= b);
    } else if b.len() == 0 {
        assert(a.to_set().contains(a[0]));
        assert(!b.to_set().contains(a[0]));
    } else {
        assert(a.to_set().contains(a[0]));
        assert(b.to_set().contains(b[0]));
        if a[0] != b[0] {
            lemma_sorted_first_is_least(a, b[0]);
            lemma_sorted_first_is_least(b, a[0]);
            lemma_text_lt_transitive(a[0], b[0], a[0]);
            lemma_text_lt_irreflexive(a[0]);
        }
        let ta = a.drop_first();
        let tb = b.drop_first();
        assert(sorted_distinct(ta)) by {
            assert forall|i: int, j: int| 0 <= i < j < ta.len() implies text_lt(
                #[trigger] ta[i],
                #[trigger] ta[j],
            ) by {
                assert(ta[i] == a[i + 1] && ta[j] == a[j + 1]);
            }
        }
        assert(sorted_distinct(tb)) by {
            assert forall|i: int, j: int| 0 <= i < j < tb.len() implies text_lt(
                #[trigger] tb[i],
                #[trigger] tb[j],
            ) by {
                assert(tb[i] == b[i + 1] && tb[j] == b[j + 1]);
            }
        }
        assert(ta.to_set() =~= tb.to_set()) by {
            assert forall|x: Seq<char>| ta.to_set().contains(x) <==> tb.to_set().contains(x) by {
                if ta.to_set().contains(x) {
                    assert(ta.contains(x));
                    let k = choose|k: int| 0 <= k < ta.len() && ta[k] == x;
                    assert(a[k + 1] == x);
                    assert(text_lt(a[0], a[k + 1]));
                    if x == a[0] {
                        lemma_text_lt_irreflexive(x);
                    }
                    assert(a.contains(x));
                    assert(b.to_set().contains(x));
                    assert(b.contains(x));
                    let m = choose|m: int| 0 <= m < b.len() && b[m] == x;
                    assert(m != 0);
                    assert(tb[m - 1] == x);
                }
                if tb.to_set().contains(x) {
                    assert(tb.contains(x));
                    let k = choose|k: int| 0 <= k < tb.len() && tb[k] == x;
                    assert(b[k + 1] == x);
                    assert(text_lt(b[0], b[k + 1]));
                    if x == b[0] {
                        lemma_text_lt_irreflexive(x);
                    }
                    assert(b.contains(x));
                    assert(a.to_set().contains(x));
                    assert(a.contains(x));
                    let m = choose|m: int| 0 <= m < a.len() && a[m] == x;
                    assert(m != 0);
                    assert(ta[m - 1] == x);
                }
            }
        }
        sorted_set_is_unique(ta, tb);
        assert(a =~= seq![a[0]] + ta);
        assert(b =~= seq![b[0]] + tb);
    }
}


// ---------------------------------------------------------------------------
// The bundle of split files
// ---------------------------------------------------------------------------

/// `m` is the manifest entry of split `s` of `entities`, written as `dxf`:
/// the split's file name and description, the number, layers and kinds of
/// the entities it keeps, and the audit of its text.
pub open spec fn is_manifest_entry(
    m: DebugSplitManifest,
    s: SplitView,
    entities: Seq<EntityKind>,
    dxf: Seq<char>,
) -> bool {
    let es = kept(entities, s.2);
    &&& m.filename@ == s.0
    &&& m.description@ == s.1
    &&& m.entity_count == es.len()
    &&& sorted_distinct(names(m.layers@))
    &&& names(m.layers@).to_set() == layer_set(es)
    &&& sorted_distinct(names(m.kinds@))
    &&& names(m.kinds@).to_set() == kind_name_set(es)
    &&& issue_views(m.audit.issues@) == audit_issues(dxf)
}

proof fn lemma_same_entity_parts(a: EntityKind, b: EntityKind)
    requires
        same_entity(a, b),
    ensures
        layer_of(a) == layer_of(b),
        kind_of(a) == kind_of(b),
{
}

proof fn lemma_same_entity_sets(xs: Seq<EntityKind>, ys: Seq<EntityKind>)
    requires
        xs.len() == ys.len(),
        forall|i: int| 0 <= i < xs.len() ==> same_entity(#[trigger] xs[i], ys[i]),
    ensures
        layer_set(xs) == layer_set(ys),
        kind_name_set(xs) == kind_name_set(ys),
{
    assert forall|i: int| 0 <= i < xs.len() implies layer_of(#[trigger] xs[i]) == layer_of(ys[i])
        && kind_of(xs[i]) == kind_of(ys[i]) by {
        lemma_same_entity_parts(xs[i], ys[i]);
    }
    assert(layer_set(xs) =~= layer_set(ys)) by {
        assert forall|l: Seq<char>| layer_set(xs).contains(l) implies layer_set(ys).contains(l) by {
            let i = choose|i: int| 0 <= i < xs.len() && layer_of(#[trigger] xs[i]) == l;
            assert(layer_of(ys[i]) == l);
        }
        assert forall|l: Seq<char>| layer_set(ys).contains(l) implies layer_set(xs).contains(l) by {
            let i = choose|i: int| 0 <= i < ys.len() && layer_of(#[trigger] ys[i]) == l;
            assert(layer_of(xs[i]) == l);
        }
    }
    assert(kind_name_set(xs) =~= kind_name_set(ys)) by {
        assert forall|n: Seq<char>| kind_name_set(xs).contains(n) implies kind_name_set(ys).contains(
            n,
        ) by {
            let i = choose|i: int| 0 <= i < xs.len() && kind_name(kind_of(#[trigger] xs[i])) == n;
            assert(kind_name(kind_of(ys[i])) == n);
        }
        assert forall|n: Seq<char>| kind_name_set(ys).contains(n) implies kind_name_set(xs).contains(
            n,
        ) by {
            let i = choose|i: int| 0 <= i < ys.len() && kind_name(kind_of(#[trigger] ys[i])) == n;
            assert(kind_name(kind_of(xs[i])) == n);
        }
    }
}

/// The manifest entry of split `spec` of `entities`, written as `dxf`.
pub fn split_manifest_entry(entities: &Vec<EntityKind>, spec: &DebugSplitSpec, dxf: &str) -> (m:
    DebugSplitManifest)
    ensures
        is_manifest_entry(m, spec@, entities@, dxf@),
{
    let filtered = spec.filter.apply(entities);
    let ghost es = kept(entities@, spec.filter@);
    proof {
        lemma_same_entity_sets(filtered@, es);
    }
    let blank = CadExtentText {
        min_x: String::new(),
        min_y: String::new(),
        max_x: String::new(),
        max_y: String::new(),
    };
    let blank2 = CadExtentText {
        min_x: String::new(),
        min_y: String::new(),
        max_x: String::new(),
        max_y: String::new(),
    };
    let doc = CadDocument { extent_header: blank, extent_vars: blank2, entities: filtered };
    let (entity_count, layers, kinds) = entity_summary(&doc);
    DebugSplitManifest {
        filename: spec.filename.clone(),
        description: spec.description.clone(),
        entity_count,
        layers,
        kinds,
        audit: audit_dxf(dxf),
    }
}

/// The file texts and manifest entries of every preset split of `doc`, in
/// the order of the presets; none when some split cannot be serialized.
pub fn debug_split_bundle(doc: &CadDocument) -> (r: Option<(Vec<String>, Vec<DebugSplitManifest>)>)
    ensures
        match r {
            Some((texts, ms)) => {
                &&& texts@.len() == split_table().len()
                &&& ms@.len() == split_table().len()
                &&& forall|i: int|
                    0 <= i < split_table().len() ==> {
                        &&& serializable_entities(kept(doc.entities@, #[trigger] split_table()[i].2))
                        &&& revit_text_of(
                            doc.extent_vars,
                            kept(doc.entities@, split_table()[i].2),
                            texts@[i]@,
                        )
                        &&& is_manifest_entry(ms@[i], split_table()[i], doc.entities@, texts@[i]@)
                    }
            },
            None => exists|i: int|
                0 <= i < split_table().len() && !serializable_entities(
                    kept(doc.entities@, #[trigger] split_table()[i].2),
                ),
        },
{
    let specs = debug_split_specs();
    let ghost table = split_table();
    assert(specs@.len() == table.len());
    let mut texts: Vec<String> = Vec::new();
    let mut ms: Vec<DebugSplitManifest> = Vec::new();
    let mut k: usize = 0;
    while k < specs.len()
        invariant
            k <= specs@.len(),
            table == split_table(),
            specs@.map_values(|s: DebugSplitSpec| s@) == table,
            texts@.len() == k,
            ms@.len() == k,
            forall|i: int|
                0 <= i < k ==> {
                    &&& serializable_entities(kept(doc.entities@, #[trigger] table[i].2))
                    &&& revit_text_of(doc.extent_vars, kept(doc.entities@, table[i].2), texts@[i]@)
                    &&& is_manifest_entry(ms@[i], table[i], doc.entities@, texts@[i]@)
                },
        decreases specs@.len() - k,
    {
        let spec = &specs[k];
        assert(spec@ == table[k as int]);
        let dxf = match serialize_revit_dxf_with_filter(doc, &spec.filter) {
            Some(d) => d,
            None => {
                assert(!serializable_entities(kept(doc.entities@, table[k as int].2)));
                return None;
            },
        };
        let m = split_manifest_entry(&doc.entities, spec, dxf.as_str());
        texts.push(dxf);
        ms.push(m);
        k += 1;
    }
    Some((texts, ms))
}

} // verus!
