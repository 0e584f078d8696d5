//! Bundle brackets: which body rows a bundle of row ids spans.
//!
//! A bundle is drawn as one bracket per run of consecutive body rows that
//! belong to it; the drawing code turns row indices into coordinates.

use vstd::prelude::*;

use crate::layout::{
    groups_view, plate_rows_view, slots_view, texts, AvPlateBodyRow, ColumnGroup, DeviceV2BodySlot,
    PlateRowView, Side, SlotView,
};

verus! {

/// A run of rows: first row, last row, number of rows.
pub type Run = (int, int, int);

/// The runs of set marks from mark `i` on, with the run `open` under way.
pub open spec fn runs_from(marks: Seq<bool>, i: int, open: Option<Run>) -> Seq<Run>
    decreases marks.len() - i,
{
    if i < 0 || i >= marks.len() {
        match open {
            Some(r) => seq![r],
            None => Seq::empty(),
        }
    } else if marks[i] {
        runs_from(
            marks,
            i + 1,
            match open {
                None => Some((i, i, 1)),
                Some(r) => Some((r.0, i, r.2 + 1)),
            },
        )
    } else {
        (match open {
            Some(r) => seq![r],
            None => Seq::<Run>::empty(),
        }) + runs_from(marks, i + 1, None)
    }
}

/// The maximal runs of consecutive set marks, in order.
pub open spec fn runs(marks: Seq<bool>) -> Seq<Run> {
    runs_from(marks, 0, None)
}

/// Views of runs.
pub open spec fn runs_view(v: Seq<(usize, usize, usize)>) -> Seq<Run> {
    v.map_values(|r: (usize, usize, usize)| (r.0 as int, r.1 as int, r.2 as int))
}

pub(crate) fn runs_exec(marks: &Vec<bool>) -> (out: Vec<(usize, usize, usize)>)
    ensures
        runs_view(out@) == runs(marks@),
{
    let mut out: Vec<(usize, usize, usize)> = Vec::new();
    let mut open: Option<(usize, usize, usize)> = None;
    let mut i: usize = 0;
    while i < marks.len()
        invariant
            i <= marks@.len(),
            runs(marks@) == runs_view(out@) + runs_from(
                marks@,
                i as int,
                match open {
                    Some(r) => Some((r.0 as int, r.1 as int, r.2 as int)),
                    None => None,
                },
            ),
            match open {
                Some(r) => r.2 <= i && r.1 < i,
                None => true,
            },
        decreases marks@.len() - i,
    {
        let ghost prev = runs_view(out@);
        if marks[i] {
            open = match open {
                None => Some((i, i, 1)),
                Some(r) => Some((r.0, i, r.2 + 1)),
            };
        } else {
            match open {
                Some(r) => {
                    out.push(r);
                    assert(runs_view(out@) =~= prev + seq![(r.0 as int, r.1 as int, r.2 as int)]);
                },
                None => {
                    assert(runs_view(out@) =~= prev + Seq::<Run>::empty());
                },
            }
            open = None;
        }
        i += 1;
    }
    let ghost prev = runs_view(out@);
    match open {
        Some(r) => {
            out.push(r);
            assert(runs_view(out@) =~= prev + seq![(r.0 as int, r.1 as int, r.2 as int)]);
        },
        None => {
            assert(runs_view(out@) =~= prev + Seq::<Run>::empty());
        },
    }
    out
}

/// Whether `id` is one of the texts of `v`.
fn in_texts(v: &Vec<String>, id: &str) -> (r: bool)
    ensures
        r == texts(v@).contains(id@),
{
    let mut k: usize = 0;
    while k < v.len()
        invariant
            k <= v@.len(),
            forall|j: int| 0 <= j < k ==> v@[j]@ != id@,
        decreases v@.len() - k,
    {
        if crate::diagram::same_text(v[k].as_str(), id) {
            assert(texts(v@)[k as int] == id@);
            return true;
        }
        k += 1;
    }
    proof {
        if texts(v@).contains(id@) {
            let j = choose|j: int| 0 <= j < texts(v@).len() && texts(v@)[j] == id@;
            assert(v@[j]@ == id@);
        }
    }
    false
}

/// Marks of the patch rows whose id is in the bundle.
pub open spec fn patch_marks(row_ids: Seq<Seq<char>>, bundle: Seq<Seq<char>>) -> Seq<bool> {
    row_ids.map_values(|id: Seq<char>| bundle.contains(id))
}

/// The runs of patch panel rows (by id) that belong to `bundle`.
pub fn collect_patch_bundle_run(row_ids: &Vec<String>, bundle: &Vec<String>) -> (out: Vec<
    (usize, usize, usize),
>)
    ensures
        runs_view(out@) == runs(patch_marks(texts(row_ids@), texts(bundle@))),
{
    let mut marks: Vec<bool> = Vec::new();
    let mut k: usize = 0;
    while k < row_ids.len()
        invariant
            k <= row_ids@.len(),
            marks@.len() == k,
            forall|j: int|
                0 <= j < k ==> #[trigger] marks@[j] == patch_marks(texts(row_ids@), texts(bundle@))[j],
        decreases row_ids@.len() - k,
    {
        marks.push(in_texts(bundle, row_ids[k].as_str()));
        k += 1;
    }
    assert(marks@ =~= patch_marks(texts(row_ids@), texts(bundle@)));
    runs_exec(&marks)
}

/// Whether an AV plate row is a port of the bundle.
pub open spec fn plate_mark(row: PlateRowView, bundle: Seq<Seq<char>>) -> bool {
    match row {
        PlateRowView::Port(_, id, _, _) => bundle.contains(id),
        _ => false,
    }
}

/// Marks of the AV plate rows that are ports of the bundle.
pub open spec fn plate_marks(rows: Seq<PlateRowView>, bundle: Seq<Seq<char>>) -> Seq<bool> {
    rows.map_values(|r: PlateRowView| plate_mark(r, bundle))
}

/// The runs of AV plate body rows that are ports of `bundle`.
pub fn collect_av_bundle_run(rows: &Vec<AvPlateBodyRow>, bundle: &Vec<String>) -> (out: Vec<
    (usize, usize, usize),
>)
    ensures
        runs_view(out@) == runs(plate_marks(plate_rows_view(rows@), texts(bundle@))),
{
    let mut marks: Vec<bool> = Vec::new();
    let mut k: usize = 0;
    while k < rows.len()
        invariant
            k <= rows@.len(),
            marks@.len() == k,
            forall|j: int|
                0 <= j < k ==> #[trigger] marks@[j] == plate_marks(
                    plate_rows_view(rows@),
                    texts(bundle@),
                )[j],
        decreases rows@.len() - k,
    {
        let m = match &rows[k] {
            AvPlateBodyRow::Port { row_id, .. } => in_texts(bundle, row_id.as_str()),
            _ => false,
        };
        marks.push(m);
        k += 1;
    }
    assert(marks@ =~= plate_marks(plate_rows_view(rows@), texts(bundle@)));
    runs_exec(&marks)
}

/// A bracket run on one side.
pub type SideRun = (Side, int, int, int);

/// Views of side runs.
pub open spec fn side_runs_view(v: Seq<(Side, usize, usize, usize)>) -> Seq<SideRun> {
    v.map_values(|r: (Side, usize, usize, usize)| (r.0, r.1 as int, r.2 as int, r.3 as int))
}

/// Tags runs with their side.
pub open spec fn on_side(rs: Seq<Run>, side: Side) -> Seq<SideRun> {
    rs.map_values(|r: Run| (side, r.0, r.1, r.2))
}

/// The side runs of a list of bundles, in order.
pub open spec fn bundles_runs(
    bundles: Seq<Seq<Seq<char>>>,
    side: Side,
    run_of: spec_fn(Seq<Seq<char>>) -> Seq<Run>,
) -> Seq<SideRun>
    decreases bundles.len(),
{
    if bundles.len() == 0 {
        Seq::empty()
    } else {
        bundles_runs(bundles.drop_last(), side, run_of) + on_side(run_of(bundles.last()), side)
    }
}

/// Views of an optional list of bundles.
pub open spec fn opt_bundles(o: Option<&Vec<Vec<String>>>) -> Seq<Seq<Seq<char>>> {
    match o {
        Some(v) => v@.map_values(|b: Vec<String>| texts(b@)),
        None => Seq::empty(),
    }
}

fn push_side_runs(out: &mut Vec<(Side, usize, usize, usize)>, rs: Vec<(usize, usize, usize)>, side: Side)
    ensures
        side_runs_view(final(out)@) == side_runs_view(old(out)@) + on_side(runs_view(rs@), side),
{
    let mut k: usize = 0;
    while k < rs.len()
        invariant
            k <= rs@.len(),
            side_runs_view(out@) == side_runs_view(old(out)@) + on_side(
                runs_view(rs@).take(k as int),
                side,
            ),
        decreases rs@.len() - k,
    {
        let r = rs[k];
        let ghost prev = side_runs_view(out@);
        out.push((side, r.0, r.1, r.2));
        proof {
            let rv = runs_view(rs@);
            assert(rv[k as int] == (r.0 as int, r.1 as int, r.2 as int));
            assert(rv.take(k + 1) =~= rv.take(k as int).push(rv[k as int]));
            assert(on_side(rv.take(k + 1), side) =~= on_side(rv.take(k as int), side).push(
                (side, r.0 as int, r.1 as int, r.2 as int),
            ));
            assert(side_runs_view(out@) =~= prev.push((side, r.0 as int, r.1 as int, r.2 as int)));
        }
        k += 1;
    }
    assert(runs_view(rs@).take(rs@.len() as int) =~= runs_view(rs@));
}

/// The bracket runs of patch panel rows for the left, then the right bundles.
pub fn flat_patch_bundle_runs(
    row_ids: &Vec<String>,
    bundled_left: Option<&Vec<Vec<String>>>,
    bundled_right: Option<&Vec<Vec<String>>>,
) -> (out: Vec<(Side, usize, usize, usize)>)
    ensures
        side_runs_view(out@) == bundles_runs(
            opt_bundles(bundled_left),
            Side::Left,
            |b: Seq<Seq<char>>| runs(patch_marks(texts(row_ids@), b)),
        ) + bundles_runs(
            opt_bundles(bundled_right),
            Side::Right,
            |b: Seq<Seq<char>>| runs(patch_marks(texts(row_ids@), b)),
        ),
{
    let ghost f = |b: Seq<Seq<char>>| runs(patch_marks(texts(row_ids@), b));
    let mut out: Vec<(Side, usize, usize, usize)> = Vec::new();
    let sides = [(bundled_left, Side::Left), (bundled_right, Side::Right)];
    let mut s: usize = 0;
    while s < 2
        invariant
            s <= 2,
            sides@ == seq![(bundled_left, Side::Left), (bundled_right, Side::Right)],
            f == (|b: Seq<Seq<char>>| runs(patch_marks(texts(row_ids@), b))),
            side_runs_view(out@) == (if s == 0 {
                Seq::<SideRun>::empty()
            } else if s == 1 {
                bundles_runs(opt_bundles(bundled_left), Side::Left, f)
            } else {
                bundles_runs(opt_bundles(bundled_left), Side::Left, f) + bundles_runs(
                    opt_bundles(bundled_right),
                    Side::Right,
                    f,
                )
            }),
        decreases 2 - s,
    {
        let (bundles, side) = sides[s];
        let ghost start = side_runs_view(out@);
        match bundles {
            Some(list) => {
                let mut k: usize = 0;
                assert(list@.map_values(|b: Vec<String>| texts(b@)).take(0) =~= Seq::<
                    Seq<Seq<char>>,
                >::empty());
                while k < list.len()
                    invariant
                        k <= list@.len(),
                        f == (|b: Seq<Seq<char>>| runs(patch_marks(texts(row_ids@), b))),
                        side_runs_view(out@) == start + bundles_runs(
                            list@.map_values(|b: Vec<String>| texts(b@)).take(k as int),
                            side,
                            f,
                        ),
                    decreases list@.len() - k,
                {
                    let rs = collect_patch_bundle_run(row_ids, &list[k]);
                    push_side_runs(&mut out, rs, side);
                    proof {
                        let bs = list@.map_values(|b: Vec<String>| texts(b@));
                        assert(bs.take(k + 1).drop_last() =~= bs.take(k as int));
                        assert(bs.take(k + 1).last() == texts(list@[k as int]@));
                    }
                    k += 1;
                }
                assert(list@.map_values(|b: Vec<String>| texts(b@)).take(list@.len() as int)
                    =~= list@.map_values(|b: Vec<String>| texts(b@)));
            },
            None => {
                assert(side_runs_view(out@) =~= start + bundles_runs(
                    Seq::<Seq<Seq<char>>>::empty(),
                    side,
                    f,
                ));
            },
        }
        s += 1;
    }
    out
}

/// The bracket runs of AV plate body rows for the left, then the right bundles.
pub fn flat_av_plate_bundle_runs(
    rows: &Vec<AvPlateBodyRow>,
    bundled_left: Option<&Vec<Vec<String>>>,
    bundled_right: Option<&Vec<Vec<String>>>,
) -> (out: Vec<(Side, usize, usize, usize)>)
    ensures
        side_runs_view(out@) == bundles_runs(
            opt_bundles(bundled_left),
            Side::Left,
            |b: Seq<Seq<char>>| runs(plate_marks(plate_rows_view(rows@), b)),
        ) + bundles_runs(
            opt_bundles(bundled_right),
            Side::Right,
            |b: Seq<Seq<char>>| runs(plate_marks(plate_rows_view(rows@), b)),
        ),
{
    let ghost f = |b: Seq<Seq<char>>| runs(plate_marks(plate_rows_view(rows@), b));
    let mut out: Vec<(Side, usize, usize, usize)> = Vec::new();
    let sides = [(bundled_left, Side::Left), (bundled_right, Side::Right)];
    let mut s: usize = 0;
    while s < 2
        invariant
            s <= 2,
            sides@ == seq![(bundled_left, Side::Left), (bundled_right, Side::Right)],
            f == (|b: Seq<Seq<char>>| runs(plate_marks(plate_rows_view(rows@), b))),
            side_runs_view(out@) == (if s == 0 {
                Seq::<SideRun>::empty()
            } else if s == 1 {
                bundles_runs(opt_bundles(bundled_left), Side::Left, f)
            } else {
                bundles_runs(opt_bundles(bundled_left), Side::Left, f) + bundles_runs(
                    opt_bundles(bundled_right),
                    Side::Right,
                    f,
                )
            }),
        decreases 2 - s,
    {
        let (bundles, side) = sides[s];
        let ghost start = side_runs_view(out@);
        match bundles {
            Some(list) => {
                let mut k: usize = 0;
                assert(list@.map_values(|b: Vec<String>| texts(b@)).take(0) =~= Seq::<
                    Seq<Seq<char>>,
                >::empty());
                while k < list.len()
                    invariant
                        k <= list@.len(),
                        f == (|b: Seq<Seq<char>>| runs(plate_marks(plate_rows_view(rows@), b))),
                        side_runs_view(out@) == start + bundles_runs(
                            list@.map_values(|b: Vec<String>| texts(b@)).take(k as int),
                            side,
                            f,
                        ),
                    decreases list@.len() - k,
                {
                    let rs = collect_av_bundle_run(rows, &list[k]);
                    push_side_runs(&mut out, rs, side);
                    proof {
                        let bs = list@.map_values(|b: Vec<String>| texts(b@));
                        assert(bs.take(k + 1).drop_last() =~= bs.take(k as int));
                        assert(bs.take(k + 1).last() == texts(list@[k as int]@));
                    }
                    k += 1;
                }
                assert(list@.map_values(|b: Vec<String>| texts(b@)).take(list@.len() as int)
                    =~= list@.map_values(|b: Vec<String>| texts(b@)));
            },
            None => {
                assert(side_runs_view(out@) =~= start + bundles_runs(
                    Seq::<Seq<Seq<char>>>::empty(),
                    side,
                    f,
                ));
            },
        }
        s += 1;
    }
    out
}


/// Whether a device body row is a port of group `gi` whose id is in the bundle.
pub open spec fn slot_in_bundle(s: SlotView, gi: int, bundle: Seq<Seq<char>>) -> bool {
    match s {
        SlotView::Port(g, row) => g == gi && bundle.contains(row.0),
        _ => false,
    }
}

/// The first row from `i` on that is a port of group `gi` in the bundle.
pub open spec fn first_in_bundle(rows: Seq<SlotView>, gi: int, bundle: Seq<Seq<char>>, i: int) -> Option<
    int,
>
    decreases rows.len() - i,
{
    if i < 0 || i >= rows.len() {
        None
    } else if slot_in_bundle(rows[i], gi, bundle) {
        Some(i)
    } else {
        first_in_bundle(rows, gi, bundle, i + 1)
    }
}

/// The bracket rows of the first `nb` bundles of group `gi`: for each
/// non-empty bundle with a row in the grid, its first row, the group and the
/// bundle index.
pub open spec fn group_bracket_rows(
    rows: Seq<SlotView>,
    bundles: Seq<Seq<Seq<char>>>,
    gi: int,
    nb: int,
) -> Seq<(int, int, int)>
    decreases nb,
{
    if nb <= 0 {
        Seq::empty()
    } else {
        let prev = group_bracket_rows(rows, bundles, gi, nb - 1);
        let b = bundles[nb - 1];
        if b.len() == 0 {
            prev
        } else {
            match first_in_bundle(rows, gi, b, 0) {
                Some(f) => prev.push((f, gi, nb - 1)),
                None => prev,
            }
        }
    }
}

/// The bracket rows of the first `n` groups.
pub open spec fn bracket_rows(rows: Seq<SlotView>, gs: Seq<crate::layout::ColumnGroupView>, n: int) -> Seq<
    (int, int, int),
>
    decreases n,
{
    if n <= 0 {
        Seq::empty()
    } else {
        bracket_rows(rows, gs, n - 1) + group_bracket_rows(rows, gs[n - 1].2, n - 1, gs[n - 1].2.len() as int)
    }
}

fn first_in_bundle_exec(rows: &Vec<DeviceV2BodySlot>, gi: usize, bundle: &Vec<String>) -> (r: Option<
    usize,
>)
    ensures
        match r {
            Some(f) => first_in_bundle(slots_view(rows@), gi as int, texts(bundle@), 0) == Some(f as int),
            None => first_in_bundle(slots_view(rows@), gi as int, texts(bundle@), 0) is None,
        },
{
    let ghost sv = slots_view(rows@);
    let mut i: usize = 0;
    while i < rows.len()
        invariant
            i <= rows@.len(),
            sv == slots_view(rows@),
            first_in_bundle(sv, gi as int, texts(bundle@), 0) == first_in_bundle(
                sv,
                gi as int,
                texts(bundle@),
                i as int,
            ),
        decreases rows@.len() - i,
    {
        assert(sv[i as int] == rows@[i as int]@);
        let hit = match &rows[i] {
            DeviceV2BodySlot::Port { group_index, row } => *group_index == gi && in_texts(
                bundle,
                row.id.as_str(),
            ),
            _ => false,
        };
        if hit {
            return Some(i);
        }
        i += 1;
    }
    None
}

/// The body rows where device bundle brackets start: for each group and each
/// non-empty bundle with a row in the grid, (first row, group, bundle).
pub fn bundled_bracket_rows(rows: &Vec<DeviceV2BodySlot>, groups: &Vec<ColumnGroup>) -> (out: Vec<
    (usize, usize, usize),
>)
    ensures
        runs_view(out@) == bracket_rows(
            slots_view(rows@),
            groups_view(groups@),
            groups@.len() as int,
        ),
{
    let ghost sv = slots_view(rows@);
    let ghost gs = groups_view(groups@);
    let mut out: Vec<(usize, usize, usize)> = Vec::new();
    let mut gi: usize = 0;
    while gi < groups.len()
        invariant
            gi <= groups@.len(),
            sv == slots_view(rows@),
            gs == groups_view(groups@),
            runs_view(out@) == bracket_rows(sv, gs, gi as int),
        decreases groups@.len() - gi,
    {
        let group = &groups[gi];
        let ghost start = runs_view(out@);
        let ghost bs = gs[gi as int].2;
        assert(bs == group.bundled_row_ids@.map_values(|b: Vec<String>| texts(b@)));
        let mut bi: usize = 0;
        while bi < group.bundled_row_ids.len()
            invariant
                bi <= group.bundled_row_ids@.len(),
                sv == slots_view(rows@),
                bs == group.bundled_row_ids@.map_values(|b: Vec<String>| texts(b@)),
                runs_view(out@) == start + group_bracket_rows(sv, bs, gi as int, bi as int),
            decreases group.bundled_row_ids@.len() - bi,
        {
            let bundle = &group.bundled_row_ids[bi];
            assert(bs[bi as int] == texts(bundle@));
            let ghost before = runs_view(out@);
            if bundle.len() > 0 {
                match first_in_bundle_exec(rows, gi, bundle) {
                    Some(f) => {
                        out.push((f, gi, bi));
                        assert(runs_view(out@) =~= before.push((f as int, gi as int, bi as int)));
                    },
                    None => {},
                }
            }
            bi += 1;
        }
        assert(runs_view(out@) =~= bracket_rows(sv, gs, gi + 1));
        gi += 1;
    }
    out
}
// ---------------------------------------------------------------------------
// Runs are maximal
// ---------------------------------------------------------------------------

/// `r` is a maximal run of set marks: all of its rows are set, the rows just
/// before and after it are not, and its count is its length.
pub open spec fn maximal_run(marks: Seq<bool>, r: Run) -> bool {
    &&& 0 <= r.0 <= r.1 < marks.len()
    &&& r.2 == r.1 - r.0 + 1
    &&& forall|k: int| r.0 <= k <= r.1 ==> #[trigger] marks[k]
    &&& (r.0 == 0 || !marks[r.0 - 1])
    &&& (r.1 == marks.len() - 1 || !marks[r.1 + 1])
}

/// The run under way at mark `i` is well begun.
pub open spec fn open_ok(marks: Seq<bool>, i: int, open: Option<Run>) -> bool {
    match open {
        Some(r) => {
            &&& 0 <= r.0 <= r.1
            &&& r.1 == i - 1
            &&& r.2 == r.1 - r.0 + 1
            &&& forall|k: int| r.0 <= k <= r.1 ==> #[trigger] marks[k]
            &&& (r.0 == 0 || !marks[r.0 - 1])
        },
        None => i == 0 || !marks[i - 1],
    }
}

/// Where the runs found from mark `i` can begin.
pub open spec fn runs_low(i: int, open: Option<Run>) -> int {
    match open {
        Some(r) => r.0,
        None => i,
    }
}

proof fn lemma_runs_from(marks: Seq<bool>, i: int, open: Option<Run>)
    requires
        0 <= i <= marks.len(),
        open_ok(marks, i, open),
    ensures
        forall|a: int|
            0 <= a < runs_from(marks, i, open).len() ==> maximal_run(
                marks,
                #[trigger] runs_from(marks, i, open)[a],
            ) && runs_from(marks, i, open)[a].0 >= runs_low(i, open),
        forall|a: int, b: int|
            0 <= a < b < runs_from(marks, i, open).len() ==> #[trigger] runs_from(
                marks,
                i,
                open,
            )[a].1 < #[trigger] runs_from(marks, i, open)[b].0,
        forall|k: int|
            runs_low(i, open) <= k < marks.len() && #[trigger] marks[k] ==> exists|a: int|
                0 <= a < runs_from(marks, i, open).len() && (#[trigger] runs_from(marks, i, open)[a]).0
                    <= k <= runs_from(marks, i, open)[a].1,
    decreases marks.len() - i,
{
    let res = runs_from(marks, i, open);
    if i == marks.len() {
        if let Some(r) = open {
            assert(res == seq![r]);
            assert(maximal_run(marks, r));
            assert forall|k: int| runs_low(i, open) <= k < marks.len() && #[trigger] marks[k] implies exists|a: int|
                0 <= a < res.len() && (#[trigger] res[a]).0 <= k <= res[a].1 by {
                assert(res[0].0 <= k <= res[0].1);
            }
        }
    } else if marks[i] {
        let next = match open {
            None => Some((i, i, 1)),
            Some(r) => Some((r.0, i, r.2 + 1)),
        };
        assert(open_ok(marks, i + 1, next)) by {
            if let Some(r) = open {
                assert forall|k: int| r.0 <= k <= i implies #[trigger] marks[k] by {
                    if k < i {
                        assert(marks[k]);
                    }
                }
            }
        }
        lemma_runs_from(marks, i + 1, next);
    } else {
        let rest = runs_from(marks, i + 1, None);
        lemma_runs_from(marks, i + 1, None);
        match open {
            Some(r) => {
                assert(res == seq![r] + rest);
                assert(maximal_run(marks, r));
                assert forall|a: int|
                    0 <= a < res.len() implies maximal_run(marks, #[trigger] res[a]) && res[a].0
                    >= runs_low(i, open) by {
                    if a > 0 {
                        assert(res[a] == rest[a - 1]);
                    }
                }
                assert forall|a: int, b: int| 0 <= a < b < res.len() implies #[trigger] res[a].1
                    < #[trigger] res[b].0 by {
                    assert(res[b] == rest[b - 1]);
                    if a > 0 {
                        assert(res[a] == rest[a - 1]);
                    }
                }
                assert forall|k: int|
                    runs_low(i, open) <= k < marks.len() && #[trigger] marks[k] implies exists|a: int|
                    0 <= a < res.len() && (#[trigger] res[a]).0 <= k <= res[a].1 by {
                    if k < i {
                        assert(res[0].0 <= k <= res[0].1);
                    } else {
                        assert(k > i);
                        let a = choose|a: int| 0 <= a < rest.len() && (#[trigger] rest[a]).0 <= k <= rest[a].1;
                        assert(res[a + 1] == rest[a]);
                    }
                }
            },
            None => {
                assert(res =~= rest);
            },
        }
    }
}

/// The runs of a bundle are its maximal runs of consecutive rows, in order,
/// and every row of the bundle lies in one of them.
pub proof fn runs_are_maximal(marks: Seq<bool>)
    ensures
        forall|a: int| 0 <= a < runs(marks).len() ==> maximal_run(marks, #[trigger] runs(marks)[a]),
        forall|a: int, b: int|
            0 <= a < b < runs(marks).len() ==> #[trigger] runs(marks)[a].1 < #[trigger] runs(
                marks,
            )[b].0,
        forall|k: int|
            0 <= k < marks.len() && #[trigger] marks[k] ==> exists|a: int|
                0 <= a < runs(marks).len() && (#[trigger] runs(marks)[a]).0 <= k <= runs(marks)[a].1,
{
    lemma_runs_from(marks, 0, None);
    let res = runs_from(marks, 0, None);
    assert(runs(marks) == res);
    assert forall|k: int| 0 <= k < marks.len() && #[trigger] marks[k] implies exists|a: int|
        0 <= a < runs(marks).len() && (#[trigger] runs(marks)[a]).0 <= k <= runs(marks)[a].1 by {
        assert(runs_low(0, None) <= k);
        let a = choose|a: int| 0 <= a < res.len() && (#[trigger] res[a]).0 <= k <= res[a].1;
        assert(runs(marks)[a] == res[a]);
    }
}

} // verus!
