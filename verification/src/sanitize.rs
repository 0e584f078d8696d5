//! Revit-safe DXF post-processing: extents, SOLID-first reorder, unique handles.

use vstd::prelude::*;
use vstd::relations::injective_on;
use vstd::set_lib::{lemma_int_range, lemma_len_subset, lemma_map_size, set_int_range};

use crate::chars::{
    before, concat, concat_exec, find, find_from, find_from_exec, join, join_exec, lines_exec,
    lines_of, push_all, push_str, split_char, split_char_exec, split_str, split_str_exec, contains,
    is_ws, occurs_at, lemma_find_from_none, lemma_find_from_past, lemma_find_from_some,
    lemma_trim_nonblank,
    starts_with, starts_with_exec, string_from_chars, hex_upper, hex_upper_exec, lemma_hex_upper_injective, lemma_hex_upper_len, lemma_hex_upper_no_ws,
    lemma_trim_no_ws, range_eq, slice_vec, str_chars, trim, trim_bounds, trim_vec, vec_eq, views,
};

verus! {

// ---------------------------------------------------------------------------
// Unique handles
// ---------------------------------------------------------------------------

/// Line `p` holds a handle: the line before it is the group code `5`.
pub open spec fn is_handle_pos(ls: Seq<Seq<char>>, p: int) -> bool {
    1 <= p < ls.len() && trim(ls[p - 1]) == "5"@
}

/// Trimmed handle values at the handle positions before `k`.
pub open spec fn handles_before(ls: Seq<Seq<char>>, k: int) -> Set<Seq<char>> {
    Set::new(
        |v: Seq<char>|
            exists|p: int| 0 <= p < k && #[trigger] is_handle_pos(ls, p) && trim(ls[p]) == v,
    )
}

/// `m` is the least number from `0x1000` up whose hexadecimal text is not taken.
pub open spec fn first_free_handle(taken: Set<Seq<char>>, m: nat) -> bool {
    &&& m >= 0x1000
    &&& !taken.contains(hex_upper(m))
    &&& forall|j: nat| 0x1000 <= j < m ==> taken.contains(#[trigger] hex_upper(j))
}

/// Line `k` of `fin` is line `k` of `orig`, unless it is a handle whose value
/// an earlier handle already has; then it is the first free hexadecimal handle.
pub open spec fn kept_or_renamed(orig: Seq<Seq<char>>, fin: Seq<Seq<char>>, k: int) -> bool {
    let pre = fin.take(k + 1);
    if is_handle_pos(pre, k) && handles_before(pre, k).contains(trim(orig[k])) {
        exists|m: nat| first_free_handle(handles_before(pre, k), m) && fin[k] == hex_upper(m)
    } else {
        fin[k] == orig[k]
    }
}

/// `fin` is `orig` with every repeated handle renamed.
pub open spec fn renamed_handles(orig: Seq<Seq<char>>, fin: Seq<Seq<char>>) -> bool {
    &&& fin.len() == orig.len()
    &&& forall|k: int| 0 <= k < orig.len() ==> #[trigger] kept_or_renamed(orig, fin, k)
}

/// No two handle positions of `ls` hold the same trimmed value.
pub open spec fn handles_distinct(ls: Seq<Seq<char>>) -> bool {
    forall|p: int, q: int|
        #![trigger is_handle_pos(ls, p), is_handle_pos(ls, q)]
        is_handle_pos(ls, p) && is_handle_pos(ls, q) && p != q ==> trim(ls[p]) != trim(ls[q])
}

/// Counting: if the hexadecimal texts of all numbers in `[lo, hi)` appear in
/// `seen`, then `seen` has at least `hi - lo` entries.
pub proof fn lemma_hex_range_bound(seen: Seq<Seq<char>>, lo: nat, hi: nat)
    requires
        lo <= hi,
        forall|j: nat| lo <= j < hi ==> seen.contains(#[trigger] hex_upper(j)),
    ensures
        hi - lo <= seen.len(),
{
    let r = set_int_range(lo as int, hi as int);
    lemma_int_range(lo as int, hi as int);
    let f = |j: int| hex_upper(j as nat);
    let img = r.map(f);
    assert(injective_on(f, r)) by {
        assert forall|a: int, b: int| r.contains(a) && r.contains(b) && #[trigger] f(a) == #[trigger] f(
            b,
        ) implies a == b by {
            lemma_hex_upper_injective(a as nat, b as nat);
        }
    }
    lemma_map_size(r, img, f);
    assert(img.subset_of(seen.to_set())) by {
        assert forall|x: Seq<char>| img.contains(x) implies seen.to_set().contains(x) by {
            let j = choose|j: int| r.contains(j) && f(j) == x;
            assert(seen.contains(hex_upper(j as nat)));
        }
    }
    seen.lemma_cardinality_of_set();
    lemma_len_subset(img, seen.to_set());
}

proof fn lemma_handles_before_same(a: Seq<Seq<char>>, b: Seq<Seq<char>>, k: int)
    requires
        0 <= k <= a.len(),
        k <= b.len(),
        forall|j: int| 0 <= j < k ==> a[j] == b[j],
    ensures
        handles_before(a, k) == handles_before(b, k),
{
    assert forall|v: Seq<char>| handles_before(a, k).contains(v) implies handles_before(
        b,
        k,
    ).contains(v) by {
        let p = choose|p: int| 0 <= p < k && #[trigger] is_handle_pos(a, p) && trim(a[p]) == v;
        assert(is_handle_pos(b, p));
    }
    assert forall|v: Seq<char>| handles_before(b, k).contains(v) implies handles_before(
        a,
        k,
    ).contains(v) by {
        let p = choose|p: int| 0 <= p < k && #[trigger] is_handle_pos(b, p) && trim(b[p]) == v;
        assert(is_handle_pos(a, p));
    }
    assert(handles_before(a, k) =~= handles_before(b, k));
}

proof fn lemma_handles_before_step(a: Seq<Seq<char>>, k: int)
    requires
        0 <= k < a.len(),
    ensures
        handles_before(a, k + 1) == if is_handle_pos(a, k) {
            handles_before(a, k).insert(trim(a[k]))
        } else {
            handles_before(a, k)
        },
{
    let hb = handles_before(a, k);
    let hb1 = handles_before(a, k + 1);
    if is_handle_pos(a, k) {
        assert forall|v: Seq<char>| hb1.contains(v) implies hb.insert(trim(a[k])).contains(v) by {
            let p = choose|p: int| 0 <= p < k + 1 && #[trigger] is_handle_pos(a, p) && trim(a[p]) == v;
            if p < k {
                assert(hb.contains(v));
            }
        }
        assert forall|v: Seq<char>| hb.insert(trim(a[k])).contains(v) implies hb1.contains(v) by {
            if v != trim(a[k]) {
                let p = choose|p: int| 0 <= p < k && #[trigger] is_handle_pos(a, p) && trim(a[p]) == v;
                assert(0 <= p < k + 1);
            } else {
                assert(is_handle_pos(a, k));
            }
        }
        assert(hb1 =~= hb.insert(trim(a[k])));
    } else {
        assert forall|v: Seq<char>| hb1.contains(v) implies hb.contains(v) by {
            let p = choose|p: int| 0 <= p < k + 1 && #[trigger] is_handle_pos(a, p) && trim(a[p]) == v;
            assert(p != k);
        }
        assert forall|v: Seq<char>| hb.contains(v) implies hb1.contains(v) by {
            let p = choose|p: int| 0 <= p < k && #[trigger] is_handle_pos(a, p) && trim(a[p]) == v;
            assert(0 <= p < k + 1);
        }
        assert(hb1 =~= hb);
    }
}

/// Whether `v` is one of the entries of `seen`.
pub(crate) fn seen_contains(seen: &Vec<Vec<char>>, v: &Vec<char>) -> (r: bool)
    ensures
        r == views(seen@).contains(v@),
{
    let mut k: usize = 0;
    while k < seen.len()
        invariant
            k <= seen@.len(),
            forall|j: int| 0 <= j < k ==> seen@[j]@ != v@,
        decreases seen@.len() - k,
    {
        if vec_eq(&seen[k], v) {
            assert(views(seen@)[k as int] == v@);
            return true;
        }
        k += 1;
    }
    proof {
        if views(seen@).contains(v@) {
            let j = choose|j: int| 0 <= j < views(seen@).len() && views(seen@)[j] == v@;
            assert(seen@[j]@ == v@);
        }
    }
    false
}

/// Renames every repeated handle of `lines` (a handle is the line after a `5`
/// group code), as the Revit importer rejects duplicate handles.
pub fn unique_handle_lines(lines: Vec<Vec<char>>) -> (fin: Vec<Vec<char>>)
    ensures
        renamed_handles(views(lines@), views(fin@)),
        handles_distinct(views(fin@)),
{
    let ghost orig = views(lines@);
    let n = lines.len();
    if n == 0 {
        return lines;
    }
    let mut lines = lines;
    let mut seen: Vec<Vec<char>> = Vec::new();
    let mut next_id: u128 = 0x1000;
    let mut i: usize = 0;
    let five = str_chars("5");
    proof {
        let cur = views(lines@);
        assert(cur.take(1)[0] == cur[0]);
        assert(kept_or_renamed(orig, cur, 0));
        assert(handles_before(cur.take(1), 1) =~= Set::<Seq<char>>::empty());
        assert(views(seen@).to_set() =~= Set::<Seq<char>>::empty());
    }
    while i + 1 < n
        invariant
            n == lines@.len(),
            n == orig.len(),
            i + 1 <= n,
            five@ == "5"@,
            forall|k: int| i + 1 <= k < n ==> views(lines@)[k] == orig[k],
            forall|k: int| 0 <= k <= i ==> #[trigger] kept_or_renamed(orig, views(lines@), k),
            views(seen@).to_set() == handles_before(views(lines@).take(i + 1), i + 1),
            handles_distinct(views(lines@).take(i + 1)),
            0x1000 <= next_id,
            seen@.len() <= i,
            next_id - 0x1000 <= seen@.len(),
            forall|j: nat| 0x1000 <= j < next_id ==> views(seen@).contains(#[trigger] hex_upper(j)),
        decreases n - i,
    {
        let ghost cur = views(lines@);
        let ghost pre = cur.take(i + 1);
        let ghost pre2 = cur.take(i + 2);
        let ghost seen0 = views(seen@);
        let (a, b) = trim_bounds(&lines[i], 0, lines[i].len());
        proof {
            assert(lines@[i as int]@.subrange(0, lines@[i as int]@.len() as int) == lines@[i as int]@);
        }
        let is_code5 = range_eq(&lines[i], a, b, &five);
        proof {
            assert(cur[i as int] == lines@[i as int]@);
            assert(is_code5 == is_handle_pos(pre2, i + 1));
            lemma_handles_before_same(pre, pre2, i + 1);
            lemma_handles_before_step(pre2, i + 1);
        }
        if is_code5 {
            let handle = trim_vec(&lines[i + 1]);
            proof {
                assert(handle@ == trim(orig[i + 1]));
                assert(trim(pre2[i + 1]) == handle@);
            }
            if seen_contains(&seen, &handle) {
                let mut cand = hex_upper_exec(next_id);
                let ghost start_id = next_id;
                proof {
                    lemma_hex_range_bound(seen0, 0x1000, next_id as nat);
                }
                next_id += 1;
                while seen_contains(&seen, &cand)
                    invariant
                        views(seen@) == seen0,
                        seen0.len() <= i,
                        i + 1 < n,
                        start_id < next_id,
                        0x1000 <= start_id,
                        next_id - 1 - 0x1000 <= seen0.len(),
                        cand@ == hex_upper((next_id - 1) as nat),
                        forall|j: nat| 0x1000 <= j < next_id - 1 ==> seen0.contains(#[trigger] hex_upper(j)),
                    decreases seen0.len() + 0x1001 - next_id,
                {
                    proof {
                        assert forall|j: nat| 0x1000 <= j < next_id implies seen0.contains(
                            #[trigger] hex_upper(j),
                        ) by {
                            if j == next_id - 1 {
                            }
                        }
                        lemma_hex_range_bound(seen0, 0x1000, next_id as nat);
                    }
                    cand = hex_upper_exec(next_id);
                    next_id += 1;
                }
                let ghost m: nat = (next_id - 1) as nat;
                proof {
                    lemma_hex_upper_len(m);
                    lemma_hex_upper_no_ws(m);
                    lemma_trim_no_ws(hex_upper(m));
                    assert(first_free_handle(seen0.to_set(), m));
                }
                seen.push(slice_vec(&cand, 0, cand.len()));
                proof {
                    assert(cand@.subrange(0, cand@.len() as int) == cand@);
                }
                lines.set(i + 1, cand);
                proof {
                    let nw = views(lines@);
                    assert(nw == cur.update(i + 1, hex_upper(m)));
                    assert(nw.take(i + 1) == pre);
                    assert(nw.take(i + 2) == pre2.update(i + 1, hex_upper(m)));
                    lemma_handles_before_same(nw.take(i + 2), pre2, i + 1);
                    lemma_handles_before_step(nw.take(i + 2), i + 1);
                    assert(views(seen@) == seen0.push(hex_upper(m)));
                    seen0.lemma_push_to_set_commute(hex_upper(m));
                    assert(views(seen@).to_set() =~= seen0.to_set().insert(hex_upper(m)));
                    assert(kept_or_renamed(orig, nw, i + 1));
                    assert forall|k: int| 0 <= k <= i + 1 implies #[trigger] kept_or_renamed(
                        orig,
                        nw,
                        k,
                    ) by {
                        if k <= i {
                            assert(nw.take(k + 1) == cur.take(k + 1));
                            assert(kept_or_renamed(orig, cur, k));
                        }
                    }
                    let pn = nw.take(i + 2);
                    assert forall|p: int, q: int|
                        #![trigger is_handle_pos(pn, p), is_handle_pos(pn, q)]
                        is_handle_pos(pn, p) && is_handle_pos(pn, q) && p != q implies trim(pn[p])
                        != trim(pn[q]) by {
                        if p <= i && q <= i {
                            assert(is_handle_pos(pre, p) && is_handle_pos(pre, q));
                        } else if p == i + 1 {
                            assert(is_handle_pos(pre, q));
                            assert(handles_before(pre, i + 1).contains(trim(pn[q])));
                        } else {
                            assert(is_handle_pos(pre, p));
                            assert(handles_before(pre, i + 1).contains(trim(pn[p])));
                        }
                    }
                    assert forall|j: nat| 0x1000 <= j < next_id implies views(seen@).contains(
                        #[trigger] hex_upper(j),
                    ) by {
                        if j < next_id - 1 {
                            assert(seen0.contains(hex_upper(j)));
                            let w = choose|w: int| 0 <= w < seen0.len() && seen0[w] == hex_upper(j);
                            assert(views(seen@)[w] == hex_upper(j));
                        } else {
                            assert(views(seen@)[seen0.len() as int] == hex_upper(j));
                        }
                    }
                }
            } else {
                seen.push(handle);
                proof {
                    let nw = views(lines@);
                    assert(nw == cur);
                    assert(views(seen@) == seen0.push(trim(pre2[i + 1])));
                    seen0.lemma_push_to_set_commute(trim(pre2[i + 1]));
                    assert(views(seen@).to_set() =~= seen0.to_set().insert(trim(pre2[i + 1])));
                    assert(kept_or_renamed(orig, nw, i + 1));
                    let pn = nw.take(i + 2);
                    assert forall|p: int, q: int|
                        #![trigger is_handle_pos(pn, p), is_handle_pos(pn, q)]
                        is_handle_pos(pn, p) && is_handle_pos(pn, q) && p != q implies trim(pn[p])
                        != trim(pn[q]) by {
                        if p <= i && q <= i {
                            assert(is_handle_pos(pre, p) && is_handle_pos(pre, q));
                        } else if p == i + 1 {
                            assert(is_handle_pos(pre, q));
                            assert(handles_before(pre, i + 1).contains(trim(pn[q])));
                        } else {
                            assert(is_handle_pos(pre, p));
                            assert(handles_before(pre, i + 1).contains(trim(pn[p])));
                        }
                    }
                    assert forall|j: nat| 0x1000 <= j < next_id implies views(seen@).contains(
                        #[trigger] hex_upper(j),
                    ) by {
                        assert(seen0.contains(hex_upper(j)));
                        let w = choose|w: int| 0 <= w < seen0.len() && seen0[w] == hex_upper(j);
                        assert(views(seen@)[w] == hex_upper(j));
                    }
                }
            }
        } else {
            proof {
                let nw = views(lines@);
                assert(nw == cur);
                assert(kept_or_renamed(orig, nw, i + 1));
                let pn = nw.take(i + 2);
                assert forall|p: int, q: int|
                    #![trigger is_handle_pos(pn, p), is_handle_pos(pn, q)]
                    is_handle_pos(pn, p) && is_handle_pos(pn, q) && p != q implies trim(pn[p]) != trim(
                        pn[q],
                    ) by {
                    assert(is_handle_pos(pre, p) && is_handle_pos(pre, q));
                }
            }
        }
        i += 1;
    }
    proof {
        let fin = views(lines@);
        assert(fin.take(n as int) == fin);
    }
    lines
}


// ---------------------------------------------------------------------------
// Line filtering
// ---------------------------------------------------------------------------

/// Whether `trim(line) == lit`.
pub fn trim_eq(line: &Vec<char>, lit: &Vec<char>) -> (r: bool)
    ensures
        r == (trim(line@) == lit@),
{
    let (a, b) = trim_bounds(line, 0, line.len());
    assert(line@.subrange(0, line@.len() as int) == line@);
    range_eq(line, a, b, lit)
}

/// The pair of lines at `i` is one the Revit importer rejects: a true-color
/// group `420` (not preceded by a handle code `5`), or the BYBLOCK color `62`/`0`.
pub open spec fn drops_pair(ls: Seq<Seq<char>>, i: int) -> bool {
    ||| (trim(ls[i]) == "420"@ && i > 0 && trim(ls[i - 1]) != "5"@)
    ||| (trim(ls[i]) == "62"@ && i + 1 < ls.len() && trim(ls[i + 1]) == "0"@)
}

/// Lines from `i` on with every rejected pair left out.
pub open spec fn filter_groups(ls: Seq<Seq<char>>, i: int) -> Seq<Seq<char>>
    decreases ls.len() + 1 - i,
{
    if i < 0 || i >= ls.len() {
        Seq::<Seq<char>>::empty()
    } else if drops_pair(ls, i) {
        filter_groups(ls, i + 2)
    } else {
        seq![ls[i]] + filter_groups(ls, i + 1)
    }
}

/// Lines with the value after every `$ACADVER` set to `AC1015`, scanning from `j`.
pub open spec fn fix_acadver(ls: Seq<Seq<char>>, j: int) -> Seq<Seq<char>>
    decreases ls.len() - j,
{
    if j < 0 || j + 2 >= ls.len() {
        ls
    } else {
        let next = if trim(ls[j]) == "$ACADVER"@ && trim(ls[j + 2]) != "AC1015"@ {
            ls.update(j + 2, "AC1015"@)
        } else {
            ls
        };
        fix_acadver(next, j + 1)
    }
}

/// The last line that is not blank.
pub open spec fn last_nonblank(ls: Seq<Seq<char>>) -> Option<Seq<char>>
    decreases ls.len(),
{
    if ls.len() == 0 {
        None
    } else if trim(ls.last()).len() > 0 {
        Some(ls.last())
    } else {
        last_nonblank(ls.drop_last())
    }
}

/// Lines ending in an `EOF` marker (one is appended when missing).
pub open spec fn eof_fixed(ls: Seq<Seq<char>>) -> Seq<Seq<char>> {
    match last_nonblank(ls) {
        Some(l) => if trim(l) == "EOF"@ {
            ls
        } else {
            ls + seq!["  0"@, "EOF"@, Seq::<char>::empty()]
        },
        None => ls + seq!["  0"@, "EOF"@, Seq::<char>::empty()],
    }
}

/// The lines of `dxf` after filtering, the `$ACADVER` fix and the `EOF` fix.
pub open spec fn cleaned_lines(dxf: Seq<char>) -> Seq<Seq<char>> {
    eof_fixed(fix_acadver(filter_groups(split_char(dxf, '\n'), 0), 0))
}

fn filter_rejected_pairs(ls: &Vec<Vec<char>>) -> (out: Vec<Vec<char>>)
    ensures
        views(out@) == filter_groups(views(ls@), 0),
{
    let ghost l = views(ls@);
    let n = ls.len();
    let v420 = str_chars("420");
    let v5 = str_chars("5");
    let v62 = str_chars("62");
    let v0 = str_chars("0");
    let mut out: Vec<Vec<char>> = Vec::new();
    let mut i: usize = 0;
    while i < n
        invariant
            n == ls@.len(),
            l == views(ls@),
            i <= n,
            v420@ == "420"@,
            v5@ == "5"@,
            v62@ == "62"@,
            v0@ == "0"@,
            views(out@) + filter_groups(l, i as int) == filter_groups(l, 0),
        decreases n - i,
    {
        assert(l[i as int] == ls@[i as int]@);
        let drop420 = trim_eq(&ls[i], &v420) && i > 0 && !trim_eq(&ls[i - 1], &v5);
        let drop62 = trim_eq(&ls[i], &v62) && i + 1 < n && trim_eq(&ls[i + 1], &v0);
        proof {
            if i > 0 {
                assert(l[i - 1] == ls@[i - 1]@);
            }
            if i + 1 < n {
                assert(l[i + 1] == ls@[i + 1]@);
            }
            assert((drop420 || drop62) == drops_pair(l, i as int));
        }
        if drop420 || drop62 {
            proof {
                if i + 2 > n {
                    assert(filter_groups(l, i + 2) == Seq::<Seq<char>>::empty());
                    assert(filter_groups(l, n as int) == Seq::<Seq<char>>::empty());
                }
            }
            i = if n - i >= 2 { i + 2 } else { n };
        } else {
            let line = slice_vec(&ls[i], 0, ls[i].len());
            assert(ls@[i as int]@.subrange(0, ls@[i as int]@.len() as int) == ls@[i as int]@);
            let ghost before_push = views(out@);
            out.push(line);
            assert(views(out@) == before_push + seq![l[i as int]]);
            i += 1;
        }
    }
    assert(filter_groups(l, i as int) == Seq::<Seq<char>>::empty());
    assert(views(out@) + Seq::<Seq<char>>::empty() == views(out@));
    out
}

fn fix_acadver_exec(ls: &mut Vec<Vec<char>>)
    ensures
        views(final(ls)@) == fix_acadver(views(old(ls)@), 0),
{
    let acadver = str_chars("$ACADVER");
    let ac1015 = str_chars("AC1015");
    let mut j: usize = 0;
    while j < ls.len() && ls.len() - j > 2
        invariant
            acadver@ == "$ACADVER"@,
            ac1015@ == "AC1015"@,
            fix_acadver(views(ls@), j as int) == fix_acadver(views(old(ls)@), 0),
        decreases ls@.len() - j,
    {
        let ghost cur = views(ls@);
        assert(cur[j as int] == ls@[j as int]@);
        assert(cur[j + 2] == ls@[j + 2]@);
        if trim_eq(&ls[j], &acadver) && !trim_eq(&ls[j + 2], &ac1015) {
            let v = slice_vec(&ac1015, 0, ac1015.len());
            assert(ac1015@.subrange(0, ac1015@.len() as int) == ac1015@);
            ls.set(j + 2, v);
            assert(views(ls@) == cur.update(j + 2, "AC1015"@));
        } else {
            assert(views(ls@) == cur);
        }
        j += 1;
    }
}

fn eof_fix_exec(ls: &mut Vec<Vec<char>>)
    ensures
        views(final(ls)@) == eof_fixed(views(old(ls)@)),
{
    let ghost l = views(ls@);
    let eof = str_chars("EOF");
    let mut k = ls.len();
    assert(l.take(k as int) == l);
    while k > 0 && trim_vec(&ls[k - 1]).len() == 0
        invariant
            k <= ls@.len(),
            l == views(ls@),
            last_nonblank(l) == last_nonblank(l.take(k as int)),
        decreases k,
    {
        proof {
            let t = l.take(k as int);
            assert(t.last() == ls@[k - 1]@);
            assert(t.drop_last() == l.take(k - 1));
        }
        k -= 1;
    }
    let keep = if k == 0 {
        assert(l.take(0) == Seq::<Seq<char>>::empty());
        false
    } else {
        proof {
            let t = l.take(k as int);
            assert(t.last() == ls@[k - 1]@);
        }
        trim_eq(&ls[k - 1], &eof)
    };
    if !keep {
        let a = str_chars("  0");
        let b = str_chars("EOF");
        let c: Vec<char> = Vec::new();
        ls.push(a);
        ls.push(b);
        ls.push(c);
        proof {
            assert(views(ls@) =~= l + seq!["  0"@, "EOF"@, Seq::<char>::empty()]);
        }
    }
}

/// Text of the lines of `dxf` after removing rejected pairs and fixing the
/// version and `EOF` marker.
fn cleaned_text(dxf: &Vec<char>) -> (out: Vec<char>)
    ensures
        out@ == join(cleaned_lines(dxf@), "\n"@),
{
    let pieces = split_char_exec(dxf, '\n');
    let mut kept = filter_rejected_pairs(&pieces);
    fix_acadver_exec(&mut kept);
    eof_fix_exec(&mut kept);
    let nl = str_chars("\n");
    join_exec(&kept, &nl)
}

// ---------------------------------------------------------------------------
// SOLID-first reorder
// ---------------------------------------------------------------------------

/// An ENTITIES piece with its `  0` group code line restored.
pub open spec fn chunk_of(part: Seq<char>) -> Seq<char> {
    if starts_with(part, "  0\n"@) {
        part
    } else {
        "  0\n"@ + part
    }
}

/// Piece `i` of a split ENTITIES body as entity text: its `  0` line put
/// back in front, and the newline taken by the split put back at the end of
/// every piece but the last.
pub open spec fn piece_entity(parts: Seq<Seq<char>>, i: int) -> Seq<char> {
    chunk_of(parts[i]) + if i + 1 < parts.len() {
        "\n"@
    } else {
        Seq::<char>::empty()
    }
}

/// An entity text that is a SOLID.
pub open spec fn is_solid_text(e: Seq<char>) -> bool {
    starts_with(e, "  0\nSOLID\n"@)
}

/// The SOLID entities among the first `n` non-blank pieces, in order.
pub open spec fn solids_upto(parts: Seq<Seq<char>>, n: int) -> Seq<Seq<char>>
    decreases n,
{
    if n <= 0 {
        Seq::<Seq<char>>::empty()
    } else {
        let r = solids_upto(parts, n - 1);
        let e = piece_entity(parts, n - 1);
        if trim(parts[n - 1]).len() > 0 && is_solid_text(e) {
            r.push(e)
        } else {
            r
        }
    }
}

/// The other entities among the first `n` non-blank pieces, in order.
pub open spec fn others_upto(parts: Seq<Seq<char>>, n: int) -> Seq<Seq<char>>
    decreases n,
{
    if n <= 0 {
        Seq::<Seq<char>>::empty()
    } else {
        let r = others_upto(parts, n - 1);
        let e = piece_entity(parts, n - 1);
        if trim(parts[n - 1]).len() > 0 && !is_solid_text(e) {
            r.push(e)
        } else {
            r
        }
    }
}

/// The SOLID entities of the pieces, in order.
pub open spec fn solid_chunks(parts: Seq<Seq<char>>) -> Seq<Seq<char>> {
    solids_upto(parts, parts.len() as int)
}

/// The non-SOLID entities of the pieces, in order.
pub open spec fn other_chunks(parts: Seq<Seq<char>>) -> Seq<Seq<char>> {
    others_upto(parts, parts.len() as int)
}

/// `dxf` with the SOLID entities of its ENTITIES section moved before all others.
pub open spec fn reorder_solids(dxf: Seq<char>) -> Seq<char> {
    let em = "  2\nENTITIES\n"@;
    match find(dxf, em) {
        None => dxf,
        Some(es) => {
            let bs = es + em.len();
            match find_from(dxf, "  0\nENDSEC\n"@, bs) {
                None => dxf,
                Some(be) => {
                    let parts = split_str(dxf.subrange(bs, be), "\n  0\n"@);
                    dxf.take(bs) + concat(solid_chunks(parts)) + concat(other_chunks(parts))
                        + dxf.skip(be)
                },
            }
        },
    }
}

fn reorder_solids_exec(dxf: &Vec<char>) -> (out: Vec<char>)
    ensures
        out@ == reorder_solids(dxf@),
{
    let dlen = dxf.len();
    let em = str_chars("  2\nENTITIES\n");
    let es = match find_from_exec(dxf, &em, 0) {
        None => return slice_vec(dxf, 0, dxf.len()),
        Some(es) => es,
    };
    proof {
        crate::chars::lemma_find_from_some(dxf@, em@, 0);
        assert(crate::chars::occurs_at(dxf@, em@, es as int));
    }
    let bs = es + em.len();
    let endsec = str_chars("  0\nENDSEC\n");
    let be = match find_from_exec(dxf, &endsec, bs) {
        None => {
            assert(dxf@.subrange(0, dxf@.len() as int) == dxf@);
            return slice_vec(dxf, 0, dxf.len());
        },
        Some(be) => be,
    };
    proof {
        crate::chars::lemma_find_from_some(dxf@, endsec@, bs as int);
    }
    let body = slice_vec(dxf, bs, be);
    let sep = str_chars("\n  0\n");
    proof {
        reveal_strlit("\n  0\n");
    }
    let parts = split_str_exec(&body, &sep);
    let ghost ps = views(parts@);
    let zero = str_chars("  0\n");
    let solid_head = str_chars("  0\nSOLID\n");
    let mut solids: Vec<Vec<char>> = Vec::new();
    let mut others: Vec<Vec<char>> = Vec::new();
    let mut k: usize = 0;
    assert(ps.take(0) == Seq::<Seq<char>>::empty());
    while k < parts.len()
        invariant
            k <= parts@.len(),
            ps == views(parts@),
            zero@ == "  0\n"@,
            solid_head@ == "  0\nSOLID\n"@,
            views(solids@) == solids_upto(ps, k as int),
            views(others@) == others_upto(ps, k as int),
        decreases parts@.len() - k,
    {
        let part = &parts[k];
        assert(ps[k as int] == part@);
        if trim_vec(part).len() > 0 {
            let mut chunk = if starts_with_exec(part, &zero) {
                slice_vec(part, 0, part.len())
            } else {
                let mut c = slice_vec(&zero, 0, zero.len());
                push_all(&mut c, part);
                c
            };
            proof {
                assert(part@.subrange(0, part@.len() as int) == part@);
                assert(zero@.subrange(0, zero@.len() as int) == zero@);
                assert(chunk@ == chunk_of(part@));
            }
            if k + 1 < parts.len() {
                chunk.push('\n');
                proof {
                    reveal_strlit("\n");
                }
            } else {
                assert(chunk@ =~= chunk@ + Seq::<char>::empty());
            }
            assert(chunk@ =~= piece_entity(ps, k as int));
            if starts_with_exec(&chunk, &solid_head) {
                solids.push(chunk);
            } else {
                others.push(chunk);
            }
        }
        k += 1;
    }
    let mut out = slice_vec(dxf, 0, bs);
    let s_all = concat_exec(&solids);
    let o_all = concat_exec(&others);
    push_all(&mut out, &s_all);
    push_all(&mut out, &o_all);
    let tail = slice_vec(dxf, be, dxf.len());
    push_all(&mut out, &tail);
    proof {
        assert(dxf@.take(bs as int) == dxf@.subrange(0, bs as int));
        assert(dxf@.skip(be as int) == dxf@.subrange(be as int, dxf@.len() as int));
    }
    out
}

/// Output of the handle fix: the lines of `src`, every repeated handle renamed,
/// joined with `'\n'`.
pub open spec fn unique_handles_text(src: Seq<char>, out: Seq<char>) -> bool {
    exists|fin: Seq<Seq<char>>|
        renamed_handles(lines_of(src), fin) && handles_distinct(fin) && out == join(fin, "\n"@)
}

fn ensure_unique_handles_exec(dxf: &Vec<char>) -> (out: Vec<char>)
    ensures
        unique_handles_text(dxf@, out@),
{
    let lines = lines_exec(dxf);
    let fin = unique_handle_lines(lines);
    let nl = str_chars("\n");
    let out = join_exec(&fin, &nl);
    assert(renamed_handles(lines_of(dxf@), views(fin@)));
    out
}

/// Renames repeated entity handles so that every handle is unique.
pub fn ensure_unique_handles(dxf: &str) -> (out: String)
    ensures
        unique_handles_text(dxf@, out@),
{
    let v = str_chars(dxf);
    let out = ensure_unique_handles_exec(&v);
    string_from_chars(&out)
}

/// Moves the SOLID entities of the ENTITIES section before all other entities.
pub fn reorder_solids_first(dxf: &str) -> (out: String)
    ensures
        out@ == reorder_solids(dxf@),
{
    let v = str_chars(dxf);
    let out = reorder_solids_exec(&v);
    string_from_chars(&out)
}

/// Makes a DXF text safe for the Revit importer: drops true-color `420` and
/// BYBLOCK `62`/`0` pairs, forces `$ACADVER` to `AC1015`, ends the file with
/// `EOF`, puts SOLID entities first and renames repeated handles.
pub fn sanitize_dxf_string(dxf: &str) -> (out: String)
    ensures
        unique_handles_text(reorder_solids(join(cleaned_lines(dxf@), "\n"@)), out@),
{
    let v = str_chars(dxf);
    let joined = cleaned_text(&v);
    let reordered = reorder_solids_exec(&joined);
    let out = ensure_unique_handles_exec(&reordered);
    string_from_chars(&out)
}

/// The number of non-blank pieces among the first `n`.
pub open spec fn nonblank_upto(parts: Seq<Seq<char>>, n: int) -> nat
    decreases n,
{
    if n <= 0 {
        0
    } else {
        nonblank_upto(parts, n - 1) + if trim(parts[n - 1]).len() > 0 {
            1nat
        } else {
            0nat
        }
    }
}

/// The number of non-blank pieces.
pub open spec fn nonblank_count(parts: Seq<Seq<char>>) -> nat {
    nonblank_upto(parts, parts.len() as int)
}

proof fn lemma_solids_upto(parts: Seq<Seq<char>>, n: int)
    requires
        0 <= n <= parts.len(),
    ensures
        forall|i: int|
            0 <= i < solids_upto(parts, n).len() ==> is_solid_text(#[trigger] solids_upto(parts, n)[i]),
        forall|j: int|
            0 <= j < others_upto(parts, n).len() ==> !is_solid_text(
                #[trigger] others_upto(parts, n)[j],
            ),
        solids_upto(parts, n).len() + others_upto(parts, n).len() == nonblank_upto(parts, n),
    decreases n,
{
    if n > 0 {
        lemma_solids_upto(parts, n - 1);
        let r = solids_upto(parts, n - 1);
        let o = others_upto(parts, n - 1);
        assert forall|i: int|
            0 <= i < solids_upto(parts, n).len() implies is_solid_text(
            #[trigger] solids_upto(parts, n)[i],
        ) by {
            if i < r.len() {
                assert(solids_upto(parts, n)[i] == r[i]);
            }
        }
        assert forall|j: int|
            0 <= j < others_upto(parts, n).len() implies !is_solid_text(
            #[trigger] others_upto(parts, n)[j],
        ) by {
            if j < o.len() {
                assert(others_upto(parts, n)[j] == o[j]);
            }
        }
    }
}

/// Reordering keeps every non-blank entity piece and puts the SOLIDs first:
/// every entity placed first is a SOLID, no entity placed after is, and
/// together they are as many as the non-blank pieces.
pub proof fn solids_come_first(parts: Seq<Seq<char>>)
    ensures
        forall|i: int|
            0 <= i < solid_chunks(parts).len() ==> is_solid_text(#[trigger] solid_chunks(parts)[i]),
        forall|j: int|
            0 <= j < other_chunks(parts).len() ==> !is_solid_text(#[trigger] other_chunks(parts)[j]),
        solid_chunks(parts).len() + other_chunks(parts).len() == nonblank_count(parts),
{
    lemma_solids_upto(parts, parts.len() as int);
}

proof fn lemma_prefix_kept(orig: Seq<Seq<char>>, fin: Seq<Seq<char>>, k: int)
    requires
        renamed_handles(orig, fin),
        handles_distinct(orig),
        0 <= k <= orig.len(),
    ensures
        forall|j: int| 0 <= j < k ==> #[trigger] fin[j] == orig[j],
    decreases k,
{
    if k > 0 {
        lemma_prefix_kept(orig, fin, k - 1);
        let j = k - 1;
        let pre = fin.take(j + 1);
        assert(kept_or_renamed(orig, fin, j));
        if is_handle_pos(pre, j) && handles_before(pre, j).contains(trim(orig[j])) {
            let p = choose|p: int|
                0 <= p < j && #[trigger] is_handle_pos(pre, p) && trim(pre[p]) == trim(orig[j]);
            assert(pre[p] == orig[p]);
            assert(pre[p - 1] == orig[p - 1]);
            assert(is_handle_pos(orig, p));
            assert(pre[j - 1] == orig[j - 1]);
            assert(is_handle_pos(orig, j));
            assert(false);
        }
    }
}

/// A text whose handles are already distinct keeps all of its lines.
pub proof fn distinct_handles_kept(orig: Seq<Seq<char>>, fin: Seq<Seq<char>>)
    requires
        renamed_handles(orig, fin),
        handles_distinct(orig),
    ensures
        fin == orig,
{
    lemma_prefix_kept(orig, fin, orig.len() as int);
    assert(fin =~= orig);
}


// ---------------------------------------------------------------------------
// The reorder on an ENTITIES body made of whole entities
// ---------------------------------------------------------------------------

/// The lines of one entity after its `  0` line: not blank, and none of them
/// is `  0` (such a line starts the next entity).
pub open spec fn entity_lines(x: Seq<char>) -> bool {
    &&& exists|k: int| 0 <= k < (x.len() as int) && !is_ws(#[trigger] x[k])
    &&& !contains("\n"@ + x + "\n"@, "\n  0\n"@)
}

/// The text of the entity whose lines after its `  0` line are `x`.
pub open spec fn entity_text(x: Seq<char>) -> Seq<char> {
    "  0\n"@ + x + "\n"@
}

/// The texts of the entities `xs`, one after the other.
pub open spec fn entities_text(xs: Seq<Seq<char>>) -> Seq<char>
    decreases xs.len(),
{
    if xs.len() == 0 {
        Seq::empty()
    } else {
        entity_text(xs[0]) + entities_text(xs.drop_first())
    }
}

/// The texts of the SOLID entities among `xs`, in order.
pub open spec fn solid_entities(xs: Seq<Seq<char>>) -> Seq<Seq<char>>
    decreases xs.len(),
{
    if xs.len() == 0 {
        Seq::empty()
    } else {
        let r = solid_entities(xs.drop_last());
        let e = entity_text(xs.last());
        if is_solid_text(e) {
            r.push(e)
        } else {
            r
        }
    }
}

/// The texts of the other entities among `xs`, in order.
pub open spec fn other_entities(xs: Seq<Seq<char>>) -> Seq<Seq<char>>
    decreases xs.len(),
{
    if xs.len() == 0 {
        Seq::empty()
    } else {
        let r = other_entities(xs.drop_last());
        let e = entity_text(xs.last());
        if !is_solid_text(e) {
            r.push(e)
        } else {
            r
        }
    }
}

spec fn joined(xs: Seq<Seq<char>>) -> Seq<char>
    decreases xs.len(),
{
    if xs.len() <= 1 {
        if xs.len() == 1 {
            xs[0]
        } else {
            Seq::empty()
        }
    } else {
        xs[0] + "\n  0\n"@ + joined(xs.drop_first())
    }
}

spec fn pieces_from(h: Seq<char>, xs: Seq<Seq<char>>) -> Seq<Seq<char>>
    decreases xs.len(),
{
    if xs.len() <= 1 {
        if xs.len() == 1 {
            seq![h + xs[0] + "\n"@]
        } else {
            Seq::empty()
        }
    } else {
        seq![h + xs[0]] + pieces_from(Seq::empty(), xs.drop_first())
    }
}

proof fn lemma_entities_joined(xs: Seq<Seq<char>>)
    requires
        xs.len() >= 1,
    ensures
        entities_text(xs) == "  0\n"@ + joined(xs) + "\n"@,
    decreases xs.len(),
{
    reveal_strlit("  0\n");
    reveal_strlit("\n  0\n");
    reveal_strlit("\n");
    if xs.len() == 1 {
        assert(entities_text(xs.drop_first()) == Seq::<char>::empty());
        assert(entities_text(xs) =~= "  0\n"@ + joined(xs) + "\n"@);
    } else {
        lemma_entities_joined(xs.drop_first());
        assert(entities_text(xs) =~= "  0\n"@ + joined(xs) + "\n"@);
    }
}

/// Where the lines `x` of an entity sit between two newlines in `t`, no
/// separator starts at that first newline or inside `x`.
proof fn lemma_no_sep_in_entity(t: Seq<char>, a: int, x: Seq<char>)
    requires
        entity_lines(x),
        0 <= a,
        a + (x.len() as int) + 2 <= t.len(),
        t.subrange(a, a + (x.len() as int) + 2) == "\n"@ + x + "\n"@,
    ensures
        forall|p: int| a <= p < a + (x.len() as int) + 1 ==> !occurs_at(t, "\n  0\n"@, p),
{
    reveal_strlit("\n  0\n");
    reveal_strlit("\n");
    let s = "\n  0\n"@;
    let w = "\n"@ + x + "\n"@;
    lemma_find_from_none(w, s, 0);
    assert forall|p: int| a <= p < a + (x.len() as int) + 1 implies !occurs_at(t, s, p) by {
        if occurs_at(t, s, p) {
            if p + 5 <= a + (x.len() as int) + 2 {
                assert(w.subrange(p - a, p - a + 5) =~= t.subrange(p, p + 5));
                assert(occurs_at(w, s, p - a));
            } else {
                let e = a + (x.len() as int) + 1;
                let d = e - p;
                assert(t.subrange(a, a + (x.len() as int) + 2)[(x.len() as int) + 1] == t[e]);
                assert(w[(x.len() as int) + 1] == '\n');
                assert(t.subrange(p, p + 5)[d] == t[e]);
                assert(s[d] == '\n');
                assert(1 <= d <= 3);
                assert(s[1] == ' ' && s[2] == ' ' && s[3] == '0');
            }
        }
    }
}

proof fn lemma_no_early_sep(h: Seq<char>, x: Seq<char>, t: Seq<char>)
    requires
        h == "  0\n"@ || h == Seq::<char>::empty(),
        entity_lines(x),
        (h.len() as int) + (x.len() as int) + 1 <= t.len(),
        t.take((h.len() as int) + (x.len() as int) + 1) == h + x + "\n"@,
    ensures
        forall|p: int| 0 <= p < (h.len() as int) + (x.len() as int) ==> !occurs_at(t, "\n  0\n"@, p),
{
    reveal_strlit("\n  0\n");
    reveal_strlit("  0\n");
    reveal_strlit("\n");
    let s = "\n  0\n"@;
    if (h.len() as int) == 0 {
        let u = "\n"@ + t;
        assert(u.subrange(0, (x.len() as int) + 2) =~= "\n"@ + x + "\n"@) by {
            assert forall|j: int| 0 <= j < (x.len() as int) + 2 implies u.subrange(0, (x.len() as int) + 2)[j] == (
            "\n"@ + x + "\n"@)[j] by {
                if j >= 1 {
                    assert(t.take((h.len() as int) + (x.len() as int) + 1)[j - 1] == t[j - 1]);
                }
            }
        }
        lemma_no_sep_in_entity(u, 0, x);
        assert forall|p: int| 0 <= p < (h.len() as int) + (x.len() as int) implies !occurs_at(t, s, p) by {
            if occurs_at(t, s, p) {
                assert(u.subrange(p + 1, p + 6) =~= t.subrange(p, p + 5));
                assert(occurs_at(u, s, p + 1));
            }
        }
    } else {
        assert(t.subrange(3, 3 + (x.len() as int) + 2) =~= "\n"@ + x + "\n"@) by {
            assert forall|j: int| 0 <= j < (x.len() as int) + 2 implies t.subrange(3, 3 + (x.len() as int) + 2)[j] == (
            "\n"@ + x + "\n"@)[j] by {
                assert(t.take((h.len() as int) + (x.len() as int) + 1)[3 + j] == t[3 + j]);
            }
        }
        lemma_no_sep_in_entity(t, 3, x);
        assert forall|p: int| 0 <= p < (h.len() as int) + (x.len() as int) implies !occurs_at(t, s, p) by {
            if p < 3 && occurs_at(t, s, p) {
                assert(t.subrange(p, p + 5)[0] == t[p]);
                assert(t.take((h.len() as int) + (x.len() as int) + 1)[p] == t[p]);
            }
        }
    }
}

proof fn lemma_split_pieces(h: Seq<char>, xs: Seq<Seq<char>>)
    requires
        xs.len() >= 1,
        h == "  0\n"@ || h == Seq::<char>::empty(),
        forall|i: int| 0 <= i < xs.len() ==> entity_lines(#[trigger] xs[i]),
    ensures
        split_str(h + joined(xs) + "\n"@, "\n  0\n"@) == pieces_from(h, xs),
    decreases xs.len(),
{
    reveal_strlit("\n  0\n");
    reveal_strlit("\n");
    let s = "\n  0\n"@;
    let t = h + joined(xs) + "\n"@;
    let x = xs[0];
    let k = (h.len() as int) + (x.len() as int);
    assert(entity_lines(xs[0]));
    if xs.len() == 1 {
        assert(t =~= h + x + "\n"@);
        assert(t.take(k + 1) =~= h + x + "\n"@);
        lemma_no_early_sep(h, x, t);
        if find(t, s) is Some {
            lemma_find_from_some(t, s, 0);
        }
        assert(split_str(t, s) == seq![t]);
    } else {
        let rest = xs.drop_first();
        assert(t =~= h + x + s + (joined(rest) + "\n"@));
        assert(t.take(k + 1) =~= h + x + "\n"@);
        lemma_no_early_sep(h, x, t);
        assert(t.subrange(k, k + 5) =~= s);
        lemma_find_from_past(t, s, 0, k);
        assert(find(t, s) == Some(k));
        assert(t.take(k) =~= h + x);
        assert(t.skip(k + 5) =~= Seq::<char>::empty() + joined(rest) + "\n"@);
        assert forall|i: int| 0 <= i < rest.len() implies entity_lines(#[trigger] rest[i]) by {
            assert(rest[i] == xs[i + 1]);
        }
        lemma_split_pieces(Seq::<char>::empty(), rest);
    }
}

proof fn lemma_pieces_shape(h: Seq<char>, xs: Seq<Seq<char>>)
    requires
        xs.len() >= 1,
    ensures
        pieces_from(h, xs).len() == xs.len(),
        forall|i: int|
            0 <= i < xs.len() ==> #[trigger] pieces_from(h, xs)[i] == (if i == 0 {
                h
            } else {
                Seq::<char>::empty()
            }) + xs[i] + (if i == xs.len() - 1 {
                "\n"@
            } else {
                Seq::<char>::empty()
            }),
    decreases xs.len(),
{
    if xs.len() > 1 {
        let rest = xs.drop_first();
        lemma_pieces_shape(Seq::<char>::empty(), rest);
        assert forall|i: int| 0 <= i < xs.len() implies #[trigger] pieces_from(h, xs)[i] == (if i
            == 0 {
            h
        } else {
            Seq::<char>::empty()
        }) + xs[i] + (if i == xs.len() - 1 {
            "\n"@
        } else {
            Seq::<char>::empty()
        }) by {
            if i == 0 {
                assert(pieces_from(h, xs)[0] =~= h + xs[0] + Seq::<char>::empty());
            } else {
                assert(pieces_from(h, xs)[i] == pieces_from(Seq::<char>::empty(), rest)[i - 1]);
                assert(rest[i - 1] == xs[i]);
                assert(Seq::<char>::empty() + xs[i] =~= (Seq::<char>::empty() + Seq::<char>::empty())
                    + xs[i]);
            }
        }
    }
}

proof fn lemma_piece_entity(parts: Seq<Seq<char>>, xs: Seq<Seq<char>>, i: int)
    requires
        xs.len() >= 1,
        parts.len() == xs.len(),
        0 <= i < xs.len(),
        entity_lines(xs[i]),
        parts[i] == (if i == 0 {
            "  0\n"@
        } else {
            Seq::<char>::empty()
        }) + xs[i] + (if i == xs.len() - 1 {
            "\n"@
        } else {
            Seq::<char>::empty()
        }),
    ensures
        piece_entity(parts, i) == entity_text(xs[i]),
        trim(parts[i]).len() > 0,
{
    reveal_strlit("  0\n");
    reveal_strlit("\n  0\n");
    reveal_strlit("\n");
    let x = xs[i];
    let p = parts[i];
    let o: int = if i == 0 {
        4
    } else {
        0
    };
    let kk = choose|kk: int| 0 <= kk < (x.len() as int) && !is_ws(#[trigger] x[kk]);
    assert(p[o + kk] == x[kk]);
    lemma_trim_nonblank(p, o + kk);
    if i == 0 {
        assert(p.take(4) =~= "  0\n"@);
        assert(chunk_of(p) == p);
    } else {
        if starts_with(p, "  0\n"@) {
            let w = "\n"@ + x + "\n"@;
            assert(w.subrange(0, 5) =~= "\n  0\n"@) by {
                assert forall|j: int| 0 <= j < 5 implies w.subrange(0, 5)[j] == "\n  0\n"@[j] by {
                    if j >= 1 {
                        assert(p.take(4)[j - 1] == p[j - 1]);
                        if j - 1 < (x.len() as int) {
                            assert(p[j - 1] == x[j - 1]);
                        }
                    }
                }
            }
            assert(find_from(w, "\n  0\n"@, 0) == Some(0int));
            assert(false);
        }
        assert(chunk_of(p) == "  0\n"@ + p);
    }
    assert(piece_entity(parts, i) =~= entity_text(xs[i]));
}

proof fn lemma_solids_match(parts: Seq<Seq<char>>, xs: Seq<Seq<char>>, k: int)
    requires
        parts.len() == xs.len(),
        0 <= k <= xs.len(),
        forall|i: int|
            0 <= i < xs.len() ==> #[trigger] piece_entity(parts, i) == entity_text(xs[i]) && trim(
                parts[i],
            ).len() > 0,
    ensures
        solids_upto(parts, k) == solid_entities(xs.take(k)),
        others_upto(parts, k) == other_entities(xs.take(k)),
    decreases k,
{
    if k > 0 {
        lemma_solids_match(parts, xs, k - 1);
        assert(xs.take(k).drop_last() =~= xs.take(k - 1));
        assert(xs.take(k).last() == xs[k - 1]);
        assert(piece_entity(parts, k - 1) == entity_text(xs[k - 1]));
    } else {
        assert(xs.take(0) =~= Seq::<Seq<char>>::empty());
    }
}

/// On an ENTITIES body made of whole entities (each a `  0` line, then
/// lines that are not blank and hold no further `  0` line, each line ended
/// by a newline), the reorder writes the SOLID entities and then the others,
/// each group in its original order and every entity's text unchanged; the
/// text before and after the body is kept.
pub proof fn solid_entities_first(dxf: Seq<char>, es: int, be: int, xs: Seq<Seq<char>>)
    requires
        find(dxf, "  2\nENTITIES\n"@) == Some(es),
        find_from(dxf, "  0\nENDSEC\n"@, es + "  2\nENTITIES\n"@.len()) == Some(be),
        dxf.subrange(es + "  2\nENTITIES\n"@.len(), be) == entities_text(xs),
        forall|i: int| 0 <= i < xs.len() ==> entity_lines(#[trigger] xs[i]),
    ensures
        reorder_solids(dxf) == dxf.take(es + "  2\nENTITIES\n"@.len()) + concat(solid_entities(xs))
            + concat(other_entities(xs)) + dxf.skip(be),
{
    reveal_strlit("\n  0\n");
    reveal_strlit("  0\n");
    let s = "\n  0\n"@;
    let body = entities_text(xs);
    let parts = split_str(body, s);
    if xs.len() == 0 {
        assert(body.len() == 0);
        assert(find(body, s) is None);
        assert(parts == seq![body]);
        assert(trim(body).len() == 0);
        assert(solids_upto(parts, 1) == solids_upto(parts, 0));
        assert(others_upto(parts, 1) == others_upto(parts, 0));
    } else {
        lemma_entities_joined(xs);
        lemma_split_pieces("  0\n"@, xs);
        lemma_pieces_shape("  0\n"@, xs);
        assert forall|i: int| 0 <= i < xs.len() implies #[trigger] piece_entity(parts, i) == entity_text(
            xs[i],
        ) && trim(parts[i]).len() > 0 by {
            lemma_piece_entity(parts, xs, i);
        }
        lemma_solids_match(parts, xs, xs.len() as int);
        assert(xs.take(xs.len() as int) =~= xs);
    }
}


proof fn lemma_filter_keeps_from(ls: Seq<Seq<char>>, i: int)
    requires
        0 <= i <= ls.len(),
        forall|k: int| 0 < k < ls.len() && trim(#[trigger] ls[k]) == "420"@ ==> trim(ls[k - 1]) == "5"@,
        forall|k: int|
            0 <= k && k + 1 < ls.len() && trim(#[trigger] ls[k]) == "62"@ ==> trim(ls[k + 1]) != "0"@,
    ensures
        filter_groups(ls, i) == ls.skip(i),
    decreases ls.len() - i,
{
    if i < ls.len() {
        lemma_filter_keeps_from(ls, i + 1);
        assert(ls.skip(i) =~= seq![ls[i]] + ls.skip(i + 1));
    } else {
        assert(ls.skip(i) =~= Seq::<Seq<char>>::empty());
    }
}

/// The line filter removes nothing but rejected groups: lines in which
/// every `420` (after the first line) follows a `5` line and no `62` line is
/// followed by a `0` line pass through unchanged, so a colour group `62`
/// with any value other than `0` is kept, in place. The cleaned lines of
/// such a text are its lines with only the version and `EOF` fixes applied.
pub proof fn filter_keeps_accepted_lines(dxf: Seq<char>)
    requires
        forall|k: int|
            0 < k < split_char(dxf, '\n').len() && trim(#[trigger] split_char(dxf, '\n')[k]) == "420"@
                ==> trim(split_char(dxf, '\n')[k - 1]) == "5"@,
        forall|k: int|
            0 <= k && k + 1 < split_char(dxf, '\n').len() && trim(#[trigger] split_char(dxf, '\n')[k])
                == "62"@ ==> trim(split_char(dxf, '\n')[k + 1]) != "0"@,
    ensures
        filter_groups(split_char(dxf, '\n'), 0) == split_char(dxf, '\n'),
        cleaned_lines(dxf) == eof_fixed(fix_acadver(split_char(dxf, '\n'), 0)),
{
    let ls = split_char(dxf, '\n');
    lemma_filter_keeps_from(ls, 0);
    assert(ls.skip(0) =~= ls);
}

} // verus!
