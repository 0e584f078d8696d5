//! Merging an ENTITIES body into the AC1015 drawing shell.
//!
//! The shell holds every section a CAD importer expects (HEADER, CLASSES,
//! TABLES, BLOCKS, OBJECTS) around an empty ENTITIES section; merging puts a
//! body in that section and refreshes `$HANDSEED` above the largest handle.

use vstd::prelude::*;

use crate::chars::{
    find, find_from_exec, occurs_at, hex_upper, hex_upper_exec, lemma_find_from_some, lines_exec, lines_of,
    parse_hex_u32, parse_hex_u32_exec, push_all, push_str, slice_vec, str_chars,
    string_from_chars, trim, trim_vec, vec_eq, views,
};

verus! {

/// The AC1015 drawing shell: all sections, model space block record `1D`, and
/// an empty ENTITIES section.
pub const SHELL_TEMPLATE: &'static str = "  0
SECTION
  2
HEADER
  9
$ACADVER
  1
AC1015
  9
$HANDSEED
  5
31
  9
$INSUNITS
 70
1
  9
$MEASUREMENT
 70
0
  9
$DWGCODEPAGE
  3
ANSI_1252
  0
ENDSEC
  0
SECTION
  2
CLASSES
  0
ENDSEC
  0
SECTION
  2
TABLES
  0
TABLE
  2
VPORT
  5
8
330
0
100
AcDbSymbolTable
 70
1
  0
VPORT
  5
29
330
8
100
AcDbSymbolTableRecord
100
AcDbViewportTableRecord
  2
*Active
 70
0
  0
ENDTAB
  0
TABLE
  2
LTYPE
  5
5
330
0
100
AcDbSymbolTable
 70
1
  0
LTYPE
  5
16
330
5
100
AcDbSymbolTableRecord
100
AcDbLinetypeTableRecord
  2
Continuous
 70
0
  3
Solid line
 72
65
 73
0
 40
0.0
  0
ENDTAB
  0
TABLE
  2
LAYER
  5
2
330
0
100
AcDbSymbolTable
 70
5
  0
LAYER
  5
10
330
2
100
AcDbSymbolTableRecord
100
AcDbLayerTableRecord
  2
0
 70
0
 62
7
  6
Continuous
  0
LAYER
  5
13
330
2
100
AcDbSymbolTableRecord
100
AcDbLayerTableRecord
  2
WIRES
 70
0
 62
7
  6
Continuous
  0
LAYER
  5
14
330
2
100
AcDbSymbolTableRecord
100
AcDbLayerTableRecord
  2
FILLS
 70
0
 62
9
  6
Continuous
  0
LAYER
  5
15
330
2
100
AcDbSymbolTableRecord
100
AcDbLayerTableRecord
  2
INKFILL
 70
0
 62
7
  6
Continuous
  0
LAYER
  5
17
330
2
100
AcDbSymbolTableRecord
100
AcDbLayerTableRecord
  2
GUIDES
 70
0
 62
8
  6
Continuous
  0
ENDTAB
  0
TABLE
  2
STYLE
  5
3
330
0
100
AcDbSymbolTable
 70
1
  0
STYLE
  5
11
330
3
100
AcDbSymbolTableRecord
100
AcDbTextStyleTableRecord
  2
Standard
 70
0
 40
0.0
 41
1.0
 50
0.0
 71
0
 42
0.2
  3
Arial Narrow.ttf
  4

  0
ENDTAB
  0
TABLE
  2
VIEW
  5
6
330
0
100
AcDbSymbolTable
 70
0
  0
ENDTAB
  0
TABLE
  2
UCS
  5
7
330
0
100
AcDbSymbolTable
 70
0
  0
ENDTAB
  0
TABLE
  2
APPID
  5
9
330
0
100
AcDbSymbolTable
 70
1
  0
APPID
  5
12
330
9
100
AcDbSymbolTableRecord
100
AcDbRegAppTableRecord
  2
ACAD
 70
0
  0
ENDTAB
  0
TABLE
  2
DIMSTYLE
  5
A
330
0
100
AcDbSymbolTable
 70
1
100
AcDbDimStyleTable
  0
DIMSTYLE
105
27
330
A
100
AcDbSymbolTableRecord
100
AcDbDimStyleTableRecord
  2
Standard
 70
0
  0
ENDTAB
  0
TABLE
  2
BLOCK_RECORD
  5
1
330
0
100
AcDbSymbolTable
 70
2
  0
BLOCK_RECORD
  5
1F
330
1
100
AcDbSymbolTableRecord
100
AcDbBlockTableRecord
  2
*Paper_Space
340
1E
  0
BLOCK_RECORD
  5
1D
330
1
100
AcDbSymbolTableRecord
100
AcDbBlockTableRecord
  2
*Model_Space
340
22
  0
ENDTAB
  0
ENDSEC
  0
SECTION
  2
BLOCKS
  0
BLOCK
  5
20
330
1D
100
AcDbEntity
  8
0
100
AcDbBlockBegin
  2
*Model_Space
 70
0
 10
0.0
 20
0.0
 30
0.0
  3
*Model_Space
  1

  0
ENDBLK
  5
21
330
1D
100
AcDbEntity
  8
0
100
AcDbBlockEnd
  0
BLOCK
  5
1B
330
1F
100
AcDbEntity
 67
1
  8
0
100
AcDbBlockBegin
  2
*Paper_Space
 70
0
 10
0.0
 20
0.0
 30
0.0
  3
*Paper_Space
  1

  0
ENDBLK
  5
1C
330
1F
100
AcDbEntity
 67
1
  8
0
100
AcDbBlockEnd
  0
ENDSEC
  0
SECTION
  2
ENTITIES
  0
ENDSEC
  0
SECTION
  2
OBJECTS
  0
DICTIONARY
  5
C
330
0
100
AcDbDictionary
281
1
  3
ACAD_GROUP
350
D
  3
ACAD_LAYOUT
350
1A
  0
DICTIONARY
  5
D
330
C
100
AcDbDictionary
281
1
  0
DICTIONARY
  5
1A
330
C
100
AcDbDictionary
281
1
  3
Layout1
350
1E
  3
Model
350
22
  0
LAYOUT
  5
1E
330
1A
100
AcDbPlotSettings
  1

 70
688
100
AcDbLayout
  1
Layout1
 70
1
 71
1
330
1F
  0
LAYOUT
  5
22
330
1A
100
AcDbPlotSettings
  1

 70
1712
100
AcDbLayout
  1
Model
 70
1
 71
0
330
1D
  0
ENDSEC
  0
EOF
";

/// The empty ENTITIES section of the shell.
pub const ENTITIES_EMPTY: &'static str = "  0\nSECTION\n  2\nENTITIES\n  0\nENDSEC\n";

/// Model space owner and first free entity handle of a shell.
#[derive(Debug, Clone)]
pub struct ShellInfo {
    pub model_space_owner: String,
    pub next_entity_handle: u32,
}

/// The drawing shell.
pub fn shell_template() -> (t: &'static str)
    ensures
        t@ == SHELL_TEMPLATE@,
{
    SHELL_TEMPLATE
}

// ---------------------------------------------------------------------------
// Handles
// ---------------------------------------------------------------------------

/// The trimmed lines of a text.
pub open spec fn trimmed(ls: Seq<Seq<char>>) -> Seq<Seq<char>> {
    ls.map_values(|l: Seq<char>| trim(l))
}

/// The trimmed lines of `text`, as `str::lines` cuts them.
pub open spec fn trimmed_lines(text: Seq<char>) -> Seq<Seq<char>> {
    trimmed(lines_of(text))
}

/// The handle read at line `i`: the line is a handle code (`5` or `105`) and
/// the next line parses as a hexadecimal `u32`.
pub open spec fn handle_at(ts: Seq<Seq<char>>, i: int) -> Option<u32> {
    if 0 <= i && i + 1 < ts.len() && (ts[i] == "5"@ || ts[i] == "105"@) {
        parse_hex_u32(ts[i + 1])
    } else {
        None
    }
}

/// The larger of two optional handles.
pub open spec fn max_opt(a: Option<u32>, b: Option<u32>) -> Option<u32> {
    match (a, b) {
        (Some(x), Some(y)) => Some(if x >= y { x } else { y }),
        (Some(x), None) => Some(x),
        (None, y) => y,
    }
}

/// The largest handle read at a line before `n`.
pub open spec fn max_handle_upto(ts: Seq<Seq<char>>, n: int) -> Option<u32>
    decreases n,
{
    if n <= 0 {
        None
    } else {
        max_opt(max_handle_upto(ts, n - 1), handle_at(ts, n - 1))
    }
}

/// The largest handle in `text`, if it has any.
pub open spec fn max_handle_of(text: Seq<char>) -> Option<u32> {
    max_handle_upto(trimmed_lines(text), trimmed_lines(text).len() as int)
}

proof fn lemma_max_handle_upto(ts: Seq<Seq<char>>, n: int)
    requires
        0 <= n,
    ensures
        max_handle_upto(ts, n) is None <==> forall|i: int| 0 <= i < n ==> handle_at(ts, i) is None,
        max_handle_upto(ts, n) matches Some(m) ==> {
            &&& forall|i: int|
                0 <= i < n ==> (#[trigger] handle_at(ts, i) matches Some(v) ==> v <= m)
            &&& exists|i: int| 0 <= i < n && handle_at(ts, i) == Some(m)
        },
    decreases n,
{
    if n > 0 {
        lemma_max_handle_upto(ts, n - 1);
        let prev = max_handle_upto(ts, n - 1);
        let cur = handle_at(ts, n - 1);
        if let Some(m) = max_handle_upto(ts, n) {
            if cur == Some(m) {
                assert(handle_at(ts, n - 1) == Some(m));
            } else {
                let w = choose|i: int| 0 <= i < n - 1 && handle_at(ts, i) == Some(m);
                assert(handle_at(ts, w) == Some(m));
            }
        }
        if prev is None && cur is None {
            assert forall|i: int| 0 <= i < n implies handle_at(ts, i) is None by {
                if i < n - 1 {
                }
            }
        }
    }
}

/// `max_handle` gives the greatest of the handles in a text: none when the
/// text holds no handle, else a handle that occurs in it and is at least as
/// large as every other.
pub proof fn max_handle_is_greatest(text: Seq<char>)
    ensures
        max_handle_of(text) is None <==> forall|i: int| #[trigger]
            handle_at(trimmed_lines(text), i) is None,
        max_handle_of(text) matches Some(m) ==> {
            &&& forall|i: int|
                #[trigger] handle_at(trimmed_lines(text), i) matches Some(v) ==> v <= m
            &&& exists|i: int| handle_at(trimmed_lines(text), i) == Some(m)
        },
{
    let ts = trimmed_lines(text);
    lemma_max_handle_upto(ts, ts.len() as int);
    assert forall|i: int| !(0 <= i < ts.len()) implies #[trigger] handle_at(ts, i) is None by {}
}

/// Trimmed copies of a list of lines.
pub(crate) fn trim_lines(lines: &Vec<Vec<char>>) -> (out: Vec<Vec<char>>)
    ensures
        views(out@) == trimmed(views(lines@)),
{
    let mut out: Vec<Vec<char>> = Vec::new();
    let mut k: usize = 0;
    while k < lines.len()
        invariant
            k <= lines@.len(),
            out@.len() == k,
            views(out@) == trimmed(views(lines@)).take(k as int),
        decreases lines@.len() - k,
    {
        let t = trim_vec(&lines[k]);
        let ghost prev = out@;
        out.push(t);
        proof {
            let want = trimmed(views(lines@)).take(k + 1);
            assert forall|j: int| 0 <= j < k + 1 implies #[trigger] views(out@)[j] == want[j] by {
                if j < k {
                    assert(out@[j] == prev[j]);
                    assert(views(prev)[j] == want[j]);
                } else {
                    assert(views(lines@)[j] == lines@[j]@);
                }
            }
            assert(views(out@) =~= want);
        }
        k += 1;
    }
    assert(trimmed(views(lines@)).take(lines@.len() as int) =~= trimmed(views(lines@)));
    out
}

/// Whether the characters of `v` are exactly `s`.
fn is_text(v: &Vec<char>, s: &str) -> (r: bool)
    ensures
        r == (v@ == s@),
{
    let w = str_chars(s);
    vec_eq(v, &w)
}

fn max_handle_lines(ts: &Vec<Vec<char>>) -> (r: Option<u32>)
    ensures
        r == max_handle_upto(views(ts@), ts@.len() as int),
{
    let ghost g = views(ts@);
    let n = ts.len();
    let mut best: Option<u32> = None;
    let mut i: usize = 0;
    while i < n && i + 1 < n
        invariant
            n == ts@.len(),
            g == views(ts@),
            i + 1 <= n || n == 0,
            i <= n,
            best == max_handle_upto(g, i as int),
        decreases n - i,
    {
        let c = &ts[i];
        let mut cur: Option<u32> = None;
        if is_text(c, "5") || is_text(c, "105") {
            cur = parse_hex_u32_exec(&ts[i + 1]);
        }
        assert(cur == handle_at(g, i as int));
        best = match (best, cur) {
            (Some(x), Some(y)) => Some(if x >= y { x } else { y }),
            (Some(x), None) => Some(x),
            (None, y) => y,
        };
        i += 1;
    }
    if n > 0 {
        assert(handle_at(g, n - 1) is None);
        assert(i == n - 1);
    }
    best
}

/// The largest handle (value of a `5` or `105` group, read as hexadecimal) in
/// `template`.
pub fn max_handle(template: &str) -> (r: Option<u32>)
    ensures
        r == max_handle_of(template@),
{
    let t = str_chars(template);
    let lines = lines_exec(&t);
    let ts = trim_lines(&lines);
    max_handle_lines(&ts)
}

// ---------------------------------------------------------------------------
// Model space owner
// ---------------------------------------------------------------------------

/// Reads the groups of a table record from line `j` on, up to the next `0`
/// code (or the end of the lines): the end line, and the last `5` (handle)
/// and `2` (name) values seen.
pub open spec fn record_scan(
    ts: Seq<Seq<char>>,
    j: int,
    handle: Option<Seq<char>>,
    name: Option<Seq<char>>,
) -> (int, Option<Seq<char>>, Option<Seq<char>>)
    decreases ts.len() - j,
{
    if j < 0 || j + 1 >= ts.len() || ts[j] == "0"@ {
        (j, handle, name)
    } else {
        record_scan(
            ts,
            j + 2,
            if ts[j] == "5"@ { Some(ts[j + 1]) } else { handle },
            if ts[j] == "2"@ { Some(ts[j + 1]) } else { name },
        )
    }
}

pub proof fn lemma_record_scan_end(
    ts: Seq<Seq<char>>,
    j: int,
    handle: Option<Seq<char>>,
    name: Option<Seq<char>>,
)
    requires
        0 <= j <= ts.len(),
    ensures
        j <= record_scan(ts, j, handle, name).0 <= ts.len(),
    decreases ts.len() - j,
{
    if !(j + 1 >= ts.len() || ts[j] == "0"@) {
        lemma_record_scan_end(
            ts,
            j + 2,
            if ts[j] == "5"@ { Some(ts[j + 1]) } else { handle },
            if ts[j] == "2"@ { Some(ts[j + 1]) } else { name },
        );
    }
}

/// The handle of the first `BLOCK_RECORD` named `*Model_Space` at or after line `i`.
pub open spec fn owner_from(ts: Seq<Seq<char>>, i: int) -> Option<Seq<char>>
    decreases ts.len() - i,
{
    if i < 0 || i + 1 >= ts.len() {
        None
    } else if ts[i] == "0"@ && ts[i + 1] == "BLOCK_RECORD"@ {
        let r = record_scan(ts, i + 2, None, None);
        if r.2 == Some("*Model_Space"@) {
            r.1
        } else {
            proof {
                lemma_record_scan_end(ts, i + 2, None, None);
            }
            owner_from(ts, r.0)
        }
    } else {
        owner_from(ts, i + 1)
    }
}

/// The model space block record handle of `text`.
pub open spec fn model_space_owner(text: Seq<char>) -> Option<Seq<char>> {
    owner_from(trimmed_lines(text), 0)
}

/// Views of an optional character vector.
pub open spec fn opt_view(o: Option<Vec<char>>) -> Option<Seq<char>> {
    match o {
        Some(v) => Some(v@),
        None => None,
    }
}

pub(crate) fn copy_chars(v: &Vec<char>) -> (out: Vec<char>)
    ensures
        out@ == v@,
{
    let out = slice_vec(v, 0, v.len());
    assert(v@.subrange(0, v@.len() as int) == v@);
    out
}

/// Handle of the `BLOCK_RECORD` named `*Model_Space` in `template`.
pub fn parse_model_space_owner(template: &str) -> (r: Option<String>)
    ensures
        match r {
            Some(s) => model_space_owner(template@) == Some(s@),
            None => model_space_owner(template@) is None,
        },
{
    let t = str_chars(template);
    let lines = lines_exec(&t);
    let ts = trim_lines(&lines);
    let ghost g = views(ts@);
    let n = ts.len();
    let mut i: usize = 0;
    while i < n && i + 1 < n
        invariant
            n == ts@.len(),
            g == views(ts@),
            g == trimmed_lines(template@),
            i <= n,
            owner_from(g, 0) == owner_from(g, i as int),
        decreases n - i,
    {
        if is_text(&ts[i], "0") && is_text(&ts[i + 1], "BLOCK_RECORD") {
            let mut handle: Option<Vec<char>> = None;
            let mut name: Option<Vec<char>> = None;
            let mut j: usize = i + 2;
            while j < n && j + 1 < n && !is_text(&ts[j], "0")
                invariant
                    n == ts@.len(),
                    g == views(ts@),
                    i + 2 <= j <= n,
                    record_scan(g, i + 2, None, None) == record_scan(
                        g,
                        j as int,
                        opt_view(handle),
                        opt_view(name),
                    ),
                decreases n - j,
            {
                if is_text(&ts[j], "5") {
                    handle = Some(copy_chars(&ts[j + 1]));
                }
                if is_text(&ts[j], "2") {
                    name = Some(copy_chars(&ts[j + 1]));
                }
                j += 2;
            }
            proof {
                lemma_record_scan_end(g, i + 2, None, None);
            }
            let is_model = match &name {
                Some(nm) => is_text(nm, "*Model_Space"),
                None => false,
            };
            if is_model {
                return match handle {
                    Some(h) => Some(string_from_chars(&h)),
                    None => None,
                };
            }
            i = j;
        } else {
            i += 1;
        }
    }
    None
}

/// The model space owner (default `1D`) and the first free entity handle
/// (one past the largest handle, default `0x331`) of `template`.
pub open spec fn shell_info_of(template: Seq<char>) -> (Seq<char>, int) {
    (
        match model_space_owner(template) {
            Some(o) => o,
            None => "1D"@,
        },
        match max_handle_of(template) {
            Some(h) => h + 1,
            None => 0x331,
        },
    )
}

/// Reads the model space owner and the next free handle of a shell.
pub fn parse_shell_info(template: &str) -> (info: ShellInfo)
    requires
        max_handle_of(template@) != Some(0xFFFF_FFFFu32),
    ensures
        info.model_space_owner@ == shell_info_of(template@).0,
        info.next_entity_handle == shell_info_of(template@).1,
{
    let owner = match parse_model_space_owner(template) {
        Some(o) => o,
        None => "1D".to_owned(),
    };
    let next = match max_handle(template) {
        Some(h) => h + 1,
        None => 0x331,
    };
    ShellInfo { model_space_owner: owner, next_entity_handle: next }
}

// ---------------------------------------------------------------------------
// Merging
// ---------------------------------------------------------------------------

/// The lines of `ls` from `i` on, each ended by a newline, with the value two
/// lines after a `$HANDSEED` line replaced by `seed`.
pub open spec fn seed_lines(ls: Seq<Seq<char>>, i: int, seed: Seq<char>) -> Seq<char>
    decreases ls.len() - i,
{
    if i < 0 || i >= ls.len() {
        Seq::<char>::empty()
    } else if trim(ls[i]) == "$HANDSEED"@ && i + 2 < ls.len() {
        ls[i] + "\n"@ + ls[i + 1] + "\n"@ + seed + "\n"@ + seed_lines(ls, i + 3, seed)
    } else {
        ls[i] + "\n"@ + seed_lines(ls, i + 1, seed)
    }
}

/// The `$HANDSEED` value for `text`: one past its largest handle (`0x2E`
/// when it has none).
pub open spec fn handseed_of(text: Seq<char>) -> nat {
    match max_handle_of(text) {
        Some(m) => (m + 1) as nat,
        None => 0x2E,
    }
}

/// `text` with its `$HANDSEED` value set to `handseed_of(text)` in upper-case
/// hexadecimal.
pub open spec fn with_handseed(text: Seq<char>) -> Seq<char> {
    seed_lines(lines_of(text), 0, hex_upper(handseed_of(text)))
}

/// Sets `$HANDSEED` one past the largest handle of `dxf`.
pub fn update_handseed(dxf: &mut String)
    requires
        max_handle_of(old(dxf)@) != Some(0xFFFF_FFFFu32),
    ensures
        final(dxf)@ == with_handseed(old(dxf)@),
{
    let t = str_chars(dxf.as_str());
    let lines = lines_exec(&t);
    let ts = trim_lines(&lines);
    let max = max_handle_lines(&ts);
    let seed_value: u32 = match max {
        Some(m) => m + 1,
        None => 0x2D + 1,
    };
    let seed = hex_upper_exec(seed_value as u128);
    let ghost ls = views(lines@);
    let ghost sd = seed@;
    let n = lines.len();
    let mut out: Vec<char> = Vec::new();
    let mut i: usize = 0;
    while i < n
        invariant
            n == lines@.len(),
            ls == views(lines@),
            views(ts@) == trimmed(ls),
            ts@.len() == n,
            sd == seed@,
            i <= n,
            seed_lines(ls, 0, sd) == out@ + seed_lines(ls, i as int, sd),
        decreases n - i,
    {
        let ghost before = out@;
        proof {
            assert(views(ts@)[i as int] == ts@[i as int]@);
            assert(ls[i as int] == lines@[i as int]@);
            assert(trimmed(ls)[i as int] == trim(ls[i as int]));
        }
        push_all(&mut out, &lines[i]);
        push_str(&mut out, "\n");
        if is_text(&ts[i], "$HANDSEED") && n - i > 2 {
            let ghost o1 = out@;
            push_all(&mut out, &lines[i + 1]);
            push_str(&mut out, "\n");
            let ghost o2 = out@;
            push_all(&mut out, &seed);
            push_str(&mut out, "\n");
            proof {
                assert(ls[i + 1] == lines@[i + 1]@);
                assert(o1 =~= before + ls[i as int] + "\n"@);
                assert(o2 =~= o1 + ls[i + 1] + "\n"@);
                assert(out@ =~= o2 + sd + "\n"@);
                let tail = seed_lines(ls, i + 3, sd);
                assert(seed_lines(ls, i as int, sd) == ls[i as int] + "\n"@ + ls[i + 1] + "\n"@
                    + sd + "\n"@ + tail);
                assert(out@ =~= before + ls[i as int] + "\n"@ + ls[i + 1] + "\n"@ + sd + "\n"@);
                assert(before + seed_lines(ls, i as int, sd) =~= out@ + tail);
            }
            i += 3;
        } else {
            proof {
                let tail = seed_lines(ls, i + 1, sd);
                assert(seed_lines(ls, i as int, sd) == ls[i as int] + "\n"@ + tail);
                assert(before + seed_lines(ls, i as int, sd) =~= out@ + tail);
            }
            i += 1;
        }
    }
    *dxf = string_from_chars(&out);
}

/// The shell text with `body` put into its empty ENTITIES section (a newline
/// added after a body that does not end with one), if the shell has one.
pub open spec fn spliced(template: Seq<char>, body: Seq<char>) -> Option<Seq<char>> {
    match find(template, ENTITIES_EMPTY@) {
        None => None,
        Some(start) => Some(
            template.take(start) + "  0\nSECTION\n  2\nENTITIES\n"@ + body + (if body.len() > 0
                && body.last() != '\n' {
                "\n"@
            } else {
                Seq::<char>::empty()
            }) + "  0\nENDSEC\n"@ + template.skip(start + ENTITIES_EMPTY@.len()),
        ),
    }
}

/// The merged drawing: the spliced text with a fresh `$HANDSEED`, or the shell
/// unchanged when it has no empty ENTITIES section.
pub open spec fn merged(template: Seq<char>, body: Seq<char>) -> Seq<char> {
    match spliced(template, body) {
        None => template,
        Some(s) => with_handseed(s),
    }
}

/// A merge whose handle seed can be written: the spliced text does not hold
/// the handle `FFFFFFFF`.
pub open spec fn mergeable(template: Seq<char>, body: Seq<char>) -> bool {
    spliced(template, body) matches Some(s) ==> max_handle_of(s) != Some(0xFFFF_FFFFu32)
}

/// The shell text with `entities_body` in its empty ENTITIES section, if it has one.
pub fn splice_entities(template: &str, entities_body: &str) -> (r: Option<String>)
    ensures
        match r {
            Some(t) => spliced(template@, entities_body@) == Some(t@),
            None => spliced(template@, entities_body@) is None,
        },
{
    let t = str_chars(template);
    let marker = str_chars(ENTITIES_EMPTY);
    let start = match find_from_exec(&t, &marker, 0) {
        None => {
            return None;
        },
        Some(start) => start,
    };
    proof {
        lemma_find_from_some(t@, marker@, 0);
        assert(occurs_at(t@, marker@, start as int));
        assert(start + marker@.len() <= t@.len());
    }
    let tlen = t.len();
    let end = start + marker.len();
    let body = str_chars(entities_body);
    let mut out = slice_vec(&t, 0, start);
    push_str(&mut out, "  0\nSECTION\n  2\nENTITIES\n");
    push_all(&mut out, &body);
    let needs_newline = body.len() > 0 && body[body.len() - 1] != '\n';
    if needs_newline {
        push_str(&mut out, "\n");
    }
    push_str(&mut out, "  0\nENDSEC\n");
    let rest = slice_vec(&t, end, t.len());
    push_all(&mut out, &rest);
    proof {
        assert(t@.subrange(0, start as int) == t@.take(start as int));
        assert(t@.subrange(end as int, t@.len() as int) == t@.skip(end as int));
        let sp = spliced(template@, entities_body@);
        assert(sp == Some(out@));
    }
    Some(string_from_chars(&out))
}

/// Puts `entities_body` into the empty ENTITIES section of `template` and
/// refreshes `$HANDSEED`.
pub fn merge_entities_into_shell(template: &str, entities_body: &str) -> (out: String)
    requires
        mergeable(template@, entities_body@),
    ensures
        out@ == merged(template@, entities_body@),
{
    match splice_entities(template, entities_body) {
        None => template.to_owned(),
        Some(text) => {
            let mut text = text;
            update_handseed(&mut text);
            text
        },
    }
}

/// Merges `entities_body` into the drawing shell.
pub fn write_dxf_from_template(entities_body: &str) -> (out: String)
    requires
        mergeable(SHELL_TEMPLATE@, entities_body@),
    ensures
        out@ == merged(SHELL_TEMPLATE@, entities_body@),
{
    merge_entities_into_shell(SHELL_TEMPLATE, entities_body)
}

/// The model space owner that drawings merged into the shell use.
pub open spec fn shell_owner() -> Seq<char> {
    shell_info_of(SHELL_TEMPLATE@).0
}

/// The first entity handle of drawings merged into the shell: one past the
/// shell's largest handle (`0x331` when it has none, or when that handle is
/// `FFFFFFFF` and has no successor).
pub open spec fn shell_first_handle() -> nat {
    match max_handle_of(SHELL_TEMPLATE@) {
        Some(h) => if h < 0xFFFF_FFFF {
            (h + 1) as nat
        } else {
            0x331
        },
        None => 0x331,
    }
}

/// The model space owner and first entity handle for the shell.
pub fn shell_entity_start() -> (r: (String, u32))
    ensures
        r.0@ == shell_owner(),
        r.1 == shell_first_handle(),
{
    let owner = match parse_model_space_owner(SHELL_TEMPLATE) {
        Some(o) => o,
        None => "1D".to_owned(),
    };
    let next = match max_handle(SHELL_TEMPLATE) {
        Some(h) => if h < 0xFFFF_FFFF {
            h + 1
        } else {
            0x331
        },
        None => 0x331,
    };
    (owner, next)
}

/// The `$HANDSEED` that merging writes is above every handle of the spliced
/// text: new entities numbered from it cannot collide with the shell's.
pub proof fn handseed_exceeds_handles(text: Seq<char>)
    ensures
        forall|i: int|
            #[trigger] handle_at(trimmed_lines(text), i) matches Some(v) ==> v < handseed_of(text),
{
    max_handle_is_greatest(text);
}

} // verus!
