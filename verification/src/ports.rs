//! Port handle ids: the parts that the drawing and wiring rules read from them.
//!
//! Device rows are `L-{group}-{row}` / `R-{group}-{row}`, device bundles
//! `L-{group}-bundle-{index}`, AV plate rows `T-{group}-{row}` /
//! `S-{group}-{row}`, AV bundles `L-av-left-{first}-bundle-{index}`.

use vstd::prelude::*;

use crate::chars::{
    dec_nat, dec_u64_exec, find, find_from_exec, lemma_dec_nat_digits, lemma_find_from_past,
    lemma_find_from_some, lemma_parse_dec_usize, occurs_at, parse_usize, parse_usize_exec, push_all,
    push_str, slice_vec, split_char, split_char_exec, str_chars, string_from_chars, vec_eq, views,
};
use crate::layout::Side;

verus! {

/// `str::split_once(c)`: the text before and after the first `c`.
pub open spec fn split_once(s: Seq<char>, c: char) -> Option<(Seq<char>, Seq<char>)> {
    match find(s, seq![c]) {
        Some(i) => Some((s.take(i), s.skip(i + 1))),
        None => None,
    }
}

fn split_once_exec(s: &Vec<char>, c: char) -> (r: Option<(Vec<char>, Vec<char>)>)
    ensures
        match r {
            Some((a, b)) => split_once(s@, c) == Some((a@, b@)),
            None => split_once(s@, c) is None,
        },
{
    let mut p: Vec<char> = Vec::new();
    p.push(c);
    assert(p@ =~= seq![c]);
    match find_from_exec(s, &p, 0) {
        Some(i) => {
            proof {
                lemma_find_from_some(s@, p@, 0);
                assert(occurs_at(s@, p@, i as int));
            }
            let slen = s.len();
            let a = slice_vec(s, 0, i);
            let b = slice_vec(s, i + 1, slen);
            assert(a@ =~= s@.take(i as int));
            assert(b@ =~= s@.skip(i + 1));
            Some((a, b))
        },
        None => None,
    }
}

fn chars_are(v: &Vec<char>, s: &str) -> (r: bool)
    ensures
        r == (v@ == s@),
{
    let w = str_chars(s);
    vec_eq(v, &w)
}

/// The parts of an AV plate row handle `T-{group}-{row}` / `S-{group}-{row}`:
/// its letter, group text and row text.
pub open spec fn av_port_parts(h: Seq<char>) -> Option<(char, Seq<char>, Seq<char>)> {
    if h.len() < 4 || !(h[0] == 'T' || h[0] == 'S') || h[1] != '-' {
        None
    } else {
        match split_once(h.skip(2), '-') {
            Some((g, r)) => Some((h[0], g, r)),
            None => None,
        }
    }
}

/// The parts of a device row handle `L-{group}-{port}` / `R-{group}-{port}`.
pub open spec fn device_port_parts(h: Seq<char>) -> Option<(char, Seq<char>, Seq<char>)> {
    if h.len() < 4 || !(h[0] == 'L' || h[0] == 'R') || h[1] != '-' {
        None
    } else {
        match split_once(h.skip(2), '-') {
            Some((g, r)) => Some((h[0], g, r)),
            None => None,
        }
    }
}

fn letter_handle_parts(handle_id: &str, a: char, b: char) -> (r: Option<(char, String, String)>)
    ensures
        match r {
            Some((c, g, p)) => {
                let h = handle_id@;
                &&& !(h.len() < 4 || !(h[0] == a || h[0] == b) || h[1] != '-')
                &&& split_once(h.skip(2), '-') == Some((g@, p@))
                &&& c == h[0]
            },
            None => {
                let h = handle_id@;
                h.len() < 4 || !(h[0] == a || h[0] == b) || h[1] != '-' || split_once(
                    h.skip(2),
                    '-',
                ) is None
            },
        },
{
    let h = str_chars(handle_id);
    if h.len() < 4 || !(h[0] == a || h[0] == b) || h[1] != '-' {
        return None;
    }
    let rest = slice_vec(&h, 2, h.len());
    assert(rest@ =~= h@.skip(2));
    match split_once_exec(&rest, '-') {
        Some((g, p)) => Some((h[0], string_from_chars(&g), string_from_chars(&p))),
        None => None,
    }
}

/// Splits an AV plate row handle into its letter, group and row.
pub fn regex_av_port(handle_id: &str) -> (r: Option<(char, String, String)>)
    ensures
        match r {
            Some((c, g, p)) => av_port_parts(handle_id@) == Some((c, g@, p@)),
            None => av_port_parts(handle_id@) is None,
        },
{
    letter_handle_parts(handle_id, 'T', 'S')
}

/// Splits a device row handle into its side letter, group and port.
pub fn regex_device_port(handle_id: &str) -> (r: Option<(char, String, String)>)
    ensures
        match r {
            Some((c, g, p)) => device_port_parts(handle_id@) == Some((c, g@, p@)),
            None => device_port_parts(handle_id@) is None,
        },
{
    letter_handle_parts(handle_id, 'L', 'R')
}

/// `L` or `R`.
pub open spec fn is_side_letter(p: Seq<char>) -> bool {
    p == "L"@ || p == "R"@
}

/// The parts of an AV bundle handle `L-av-left-{first}-bundle-{index}`: the
/// side letter and the first row index text.
pub open spec fn av_bundle_parts(h: Seq<char>) -> Option<(char, Seq<char>)> {
    let parts = split_char(h, '-');
    if parts.len() == 6 && is_side_letter(parts[0]) && parts[1] == "av"@ && parts[4] == "bundle"@ {
        Some((parts[0][0], parts[3]))
    } else {
        None
    }
}

/// The parts of a device bundle handle `L-{group}-bundle-{index}`: the side
/// letter, the group text and the bundle index text.
pub open spec fn device_bundle_parts(h: Seq<char>) -> Option<(char, Seq<char>, Seq<char>)> {
    let parts = split_char(h, '-');
    if parts.len() == 4 && parts[2] == "bundle"@ && is_side_letter(parts[0]) {
        Some((parts[0][0], parts[1], parts[3]))
    } else {
        None
    }
}

/// Splits an AV bundle handle into its side letter and first row index.
pub fn regex_av_bundle(handle_id: &str) -> (r: Option<(char, String)>)
    ensures
        match r {
            Some((c, f)) => av_bundle_parts(handle_id@) == Some((c, f@)),
            None => av_bundle_parts(handle_id@) is None,
        },
{
    let h = str_chars(handle_id);
    let parts = split_char_exec(&h, '-');
    let ghost ps = views(parts@);
    if parts.len() != 6 {
        return None;
    }
    assert(ps[0] == parts@[0]@ && ps[1] == parts@[1]@ && ps[3] == parts@[3]@ && ps[4]
        == parts@[4]@);
    if !(chars_are(&parts[0], "L") || chars_are(&parts[0], "R")) {
        return None;
    }
    if !chars_are(&parts[1], "av") {
        return None;
    }
    if !chars_are(&parts[4], "bundle") {
        return None;
    }
    proof {
        reveal_strlit("L");
        reveal_strlit("R");
    }
    Some((parts[0][0], string_from_chars(&parts[3])))
}

/// Splits a device bundle handle into its side letter, group and bundle index.
pub fn regex_device_bundle(handle_id: &str) -> (r: Option<(char, String, String)>)
    ensures
        match r {
            Some((c, g, b)) => device_bundle_parts(handle_id@) == Some((c, g@, b@)),
            None => device_bundle_parts(handle_id@) is None,
        },
{
    let h = str_chars(handle_id);
    let parts = split_char_exec(&h, '-');
    let ghost ps = views(parts@);
    if parts.len() != 4 {
        return None;
    }
    assert(ps[0] == parts@[0]@ && ps[1] == parts@[1]@ && ps[2] == parts@[2]@ && ps[3]
        == parts@[3]@);
    if !chars_are(&parts[2], "bundle") {
        return None;
    }
    if !(chars_are(&parts[0], "L") || chars_are(&parts[0], "R")) {
        return None;
    }
    proof {
        reveal_strlit("L");
        reveal_strlit("R");
    }
    Some((parts[0][0], string_from_chars(&parts[1]), string_from_chars(&parts[3])))
}

/// The parts of a device handle `L-{group}-{tail}` / `R-{group}-{tail}`: the
/// side, the group index (a `usize`) and the tail.
pub open spec fn handle_parts(h: Seq<char>) -> Option<(Seq<char>, usize, Seq<char>)> {
    if h.len() >= 2 && (h[0] == 'L' || h[0] == 'R') && h[1] == '-' {
        match split_once(h.skip(2), '-') {
            Some((g, tail)) => match parse_usize(g) {
                Some(gi) => Some((seq![h[0]], gi, tail)),
                None => None,
            },
            None => None,
        }
    } else {
        None
    }
}

/// Splits a device handle into side, group index and tail.
pub fn device_v2_handle_parts(handle_id: &str) -> (r: Option<(String, usize, String)>)
    ensures
        match r {
            Some((side, gi, tail)) => handle_parts(handle_id@) == Some((side@, gi, tail@)),
            None => handle_parts(handle_id@) is None,
        },
{
    let h = str_chars(handle_id);
    if !(h.len() >= 2 && (h[0] == 'L' || h[0] == 'R') && h[1] == '-') {
        return None;
    }
    let rest = slice_vec(&h, 2, h.len());
    assert(rest@ =~= h@.skip(2));
    match split_once_exec(&rest, '-') {
        Some((g, tail)) => match parse_usize_exec(&g) {
            Some(gi) => {
                let mut side: Vec<char> = Vec::new();
                side.push(h[0]);
                assert(side@ =~= seq![h@[0]]);
                Some((string_from_chars(&side), gi, string_from_chars(&tail)))
            },
            None => None,
        },
        None => None,
    }
}

/// The row id of an AV plate handle `T-{group}-{row}` / `S-{group}-{row}`.
pub open spec fn plate_handle_row(h: Seq<char>) -> Option<Seq<char>> {
    if h.len() >= 2 && (h[0] == 'T' || h[0] == 'S') && h[1] == '-' {
        match split_once(h.skip(2), '-') {
            Some((_g, tail)) => Some(tail),
            None => None,
        }
    } else {
        None
    }
}

/// The row id of an AV plate handle.
pub fn av_plate_handle_row(handle_id: &str) -> (r: Option<String>)
    ensures
        match r {
            Some(row) => plate_handle_row(handle_id@) == Some(row@),
            None => plate_handle_row(handle_id@) is None,
        },
{
    let h = str_chars(handle_id);
    if !(h.len() >= 2 && (h[0] == 'T' || h[0] == 'S') && h[1] == '-') {
        return None;
    }
    let rest = slice_vec(&h, 2, h.len());
    assert(rest@ =~= h@.skip(2));
    match split_once_exec(&rest, '-') {
        Some((_g, tail)) => Some(string_from_chars(&tail)),
        None => None,
    }
}

// ---------------------------------------------------------------------------
// Building row handles, and reading them back
// ---------------------------------------------------------------------------

/// A row handle `{letter}-{group}-{row}`.
pub open spec fn letter_handle(letter: char, group: nat, row_id: Seq<char>) -> Seq<char> {
    seq![letter, '-'] + dec_nat(group) + seq!['-'] + row_id
}

/// The handle letter of a device column: `L` or `R`.
pub open spec fn side_letter(side: Side) -> char {
    match side {
        Side::Left => 'L',
        Side::Right => 'R',
    }
}

fn letter_handle_exec(letter: char, group: usize, row_id: &str) -> (h: String)
    ensures
        h@ == letter_handle(letter, group as nat, row_id@),
{
    let mut v: Vec<char> = Vec::new();
    v.push(letter);
    v.push('-');
    let g = dec_u64_exec(group as u64);
    push_all(&mut v, &g);
    v.push('-');
    push_str(&mut v, row_id);
    assert(v@ =~= letter_handle(letter, group as nat, row_id@));
    string_from_chars(&v)
}

/// The handle id of a device port row on `side`: `L-{group}-{row}` or
/// `R-{group}-{row}`.
pub fn device_v2_port_handle(side: Side, group_index: usize, row_id: &str) -> (h: String)
    ensures
        h@ == letter_handle(side_letter(side), group_index as nat, row_id@),
{
    let letter = match side {
        Side::Left => 'L',
        Side::Right => 'R',
    };
    letter_handle_exec(letter, group_index, row_id)
}

/// The handle ids of the two halves of an AV plate port row:
/// `T-{group}-{row}` and `S-{group}-{row}`.
pub fn av_plate_port_handles(group_index: usize, row_id: &str) -> (r: (String, String))
    ensures
        r.0@ == letter_handle('T', group_index as nat, row_id@),
        r.1@ == letter_handle('S', group_index as nat, row_id@),
{
    (letter_handle_exec('T', group_index, row_id), letter_handle_exec('S', group_index, row_id))
}

/// Digits hold no `-`: the text after `{letter}-` splits at the `-` that
/// follows the group.
proof fn lemma_split_after_group(group: nat, row_id: Seq<char>)
    ensures
        split_once(dec_nat(group) + seq!['-'] + row_id, '-') == Some((dec_nat(group), row_id)),
{
    lemma_dec_nat_digits(group);
    let d = dec_nat(group);
    let s = d + seq!['-'] + row_id;
    let p = seq!['-'];
    assert forall|j: int| 0 <= j < d.len() implies !occurs_at(s, p, j) by {
        if occurs_at(s, p, j) {
            assert(s.subrange(j, j + 1)[0] == s[j]);
            assert(s[j] == d[j]);
            assert('0' <= d[j] <= '9');
        }
    }
    assert(s.subrange(d.len() as int, d.len() as int + 1) =~= p);
    lemma_find_from_past(s, p, 0, d.len() as int);
    assert(find(s, p) == Some(d.len() as int));
    assert(s.take(d.len() as int) =~= d);
    assert(s.skip(d.len() as int + 1) =~= row_id);
}

proof fn lemma_letter_handle_shape(letter: char, group: nat, row_id: Seq<char>)
    ensures
        letter_handle(letter, group, row_id).len() >= 4,
        letter_handle(letter, group, row_id)[0] == letter,
        letter_handle(letter, group, row_id)[1] == '-',
        letter_handle(letter, group, row_id).skip(2) == dec_nat(group) + seq!['-'] + row_id,
        split_once(letter_handle(letter, group, row_id).skip(2), '-') == Some((dec_nat(group), row_id)),
{
    lemma_dec_nat_digits(group);
    lemma_split_after_group(group, row_id);
    assert(letter_handle(letter, group, row_id).skip(2) =~= dec_nat(group) + seq!['-'] + row_id);
}

/// A device port handle built from a side, a group index and a row id reads
/// back as exactly those parts, by both device handle readers.
pub proof fn device_port_handle_read_back(side: Side, group: usize, row_id: Seq<char>)
    ensures
        handle_parts(letter_handle(side_letter(side), group as nat, row_id)) == Some(
            (seq![side_letter(side)], group, row_id),
        ),
        device_port_parts(letter_handle(side_letter(side), group as nat, row_id)) == Some(
            (side_letter(side), dec_nat(group as nat), row_id),
        ),
{
    lemma_letter_handle_shape(side_letter(side), group as nat, row_id);
    lemma_parse_dec_usize(group);
}

/// An AV plate port handle (`T` or `S` half) built from a group index and a
/// row id reads back as that row, and as those parts.
pub proof fn plate_port_handle_read_back(letter: char, group: usize, row_id: Seq<char>)
    requires
        letter == 'T' || letter == 'S',
    ensures
        plate_handle_row(letter_handle(letter, group as nat, row_id)) == Some(row_id),
        av_port_parts(letter_handle(letter, group as nat, row_id)) == Some(
            (letter, dec_nat(group as nat), row_id),
        ),
{
    lemma_letter_handle_shape(letter, group as nat, row_id);
}

/// Whether a handle id is one of the wiretag connection handles.
pub open spec fn conn_handle(id: Option<Seq<char>>) -> bool {
    id == Some("conn-src"@) || id == Some("conn-tgt"@)
}

/// Whether `id` is a wiretag connection handle (`conn-src` or `conn-tgt`).
pub fn is_conn_handle(id: Option<&str>) -> (r: bool)
    ensures
        r == conn_handle(match id {
            Some(s) => Some(s@),
            None => None,
        }),
{
    match id {
        Some(s) => {
            let v = str_chars(s);
            chars_are(&v, "conn-src") || chars_are(&v, "conn-tgt")
        },
        None => false,
    }
}

} // verus!
