//! Scans DXF output for values known to crash Autodesk translation.

use vstd::prelude::*;

use crate::sanitize::{
    cleaned_lines, drops_pair, eof_fixed, filter_groups, first_free_handle, fix_acadver,
    kept_or_renamed, renamed_handles,
};
use crate::template::{trim_lines, trimmed};
use crate::chars::{
    before, concat, contains, contains_exec, dec_nat, dec_u64_exec, find, find_from,
    find_from_exec, lemma_find_from_some, lines_exec, lines_of, parse_i32, parse_i32_exec,
    push_all, push_str, slice_vec, split_str, split_str_exec, str_chars, string_from_chars, trim,
    trim_vec, vec_eq, views,
};

verus! {

/// An issue as plain values: its code, its message and its 1-based line.
pub type IssueView = (Seq<char>, Seq<char>, Option<int>);

/// One finding of the audit.
#[derive(Debug, Clone)]
pub struct DxfAuditIssue {
    pub code: String,
    pub message: String,
    pub line: Option<usize>,
}

impl View for DxfAuditIssue {
    type V = IssueView;

    open spec fn view(&self) -> IssueView {
        (
            self.code@,
            self.message@,
            match self.line {
                Some(l) => Some(l as int),
                None => None,
            },
        )
    }
}

/// Views of a list of issues.
pub open spec fn issue_views(v: Seq<DxfAuditIssue>) -> Seq<IssueView> {
    v.map_values(|i: DxfAuditIssue| i@)
}

/// All findings of an audit, in the order they were found.
#[derive(Debug, Clone)]
pub struct DxfAuditReport {
    pub issues: Vec<DxfAuditIssue>,
}

/// Text of one finding in a report.
pub open spec fn issue_text(i: IssueView) -> Seq<char> {
    match i.2 {
        Some(l) => "- ["@ + i.0 + "] line "@ + dec_nat(l as nat) + ": "@ + i.1 + "\n"@,
        None => "- ["@ + i.0 + "]: "@ + i.1 + "\n"@,
    }
}

/// Text of a report with the given findings.
pub open spec fn report_text(issues: Seq<IssueView>) -> Seq<char> {
    if issues.len() == 0 {
        "No issues found.\n"@
    } else {
        dec_nat(issues.len()) + " issue(s):\n"@ + concat(issues.map_values(|i: IssueView| issue_text(i)))
    }
}

impl DxfAuditReport {
    /// No finding.
    pub fn is_clean(&self) -> (r: bool)
        ensures
            r == (self.issues@.len() == 0),
    {
        self.issues.len() == 0
    }

    /// A readable listing of the findings.
    pub fn to_text(&self) -> (out: String)
        ensures
            out@ == report_text(issue_views(self.issues@)),
    {
        let ghost iv = issue_views(self.issues@);
        if self.issues.len() == 0 {
            return "No issues found.\n".to_owned();
        }
        let mut out = dec_u64_exec(self.issues.len() as u64);
        push_str(&mut out, " issue(s):\n");
        let ghost head = out@;
        let ghost texts = iv.map_values(|i: IssueView| issue_text(i));
        let mut k: usize = 0;
        assert(texts.take(0) =~= Seq::<Seq<char>>::empty());
        while k < self.issues.len()
            invariant
                k <= self.issues@.len(),
                iv == issue_views(self.issues@),
                texts == iv.map_values(|i: IssueView| issue_text(i)),
                out@ == head + concat(texts.take(k as int)),
            decreases self.issues@.len() - k,
        {
            let issue = &self.issues[k];
            let ghost prev = out@;
            push_str(&mut out, "- [");
            push_str(&mut out, issue.code.as_str());
            match issue.line {
                Some(line) => {
                    push_str(&mut out, "] line ");
                    let d = dec_u64_exec(line as u64);
                    push_all(&mut out, &d);
                    push_str(&mut out, ": ");
                },
                None => {
                    push_str(&mut out, "]: ");
                },
            }
            push_str(&mut out, issue.message.as_str());
            push_str(&mut out, "\n");
            proof {
                assert(iv[k as int] == issue@);
                assert(out@ =~= prev + issue_text(issue@));
                let t = texts.take(k + 1);
                assert(t.drop_last() =~= texts.take(k as int));
                assert(t.last() == issue_text(issue@));
            }
            k += 1;
        }
        assert(texts.take(self.issues@.len() as int) =~= texts);
        string_from_chars(&out)
    }
}

// ---------------------------------------------------------------------------
// The ENTITIES section
// ---------------------------------------------------------------------------

/// The text between the first `ENTITIES` and the following `ENDSEC` (empty
/// when `dxf` holds no `ENTITIES`).
pub open spec fn entities_text(dxf: Seq<char>) -> Seq<char> {
    let parts = split_str(dxf, "ENTITIES"@);
    if parts.len() > 1 {
        before(parts[1], "ENDSEC"@)
    } else {
        Seq::<char>::empty()
    }
}

/// The text of the ENTITIES section of `dxf`.
pub fn entities_in_section(dxf: &str) -> (out: String)
    ensures
        out@ == entities_text(dxf@),
{
    let d = str_chars(dxf);
    let marker = str_chars("ENTITIES");
    proof {
        reveal_strlit("ENTITIES");
    }
    let parts = split_str_exec(&d, &marker);
    if parts.len() > 1 {
        let part = &parts[1];
        let end_marker = str_chars("ENDSEC");
        assert(views(parts@)[1] == part@);
        match find_from_exec(part, &end_marker, 0) {
            Some(e) => {
                proof {
                    lemma_find_from_some(part@, end_marker@, 0);
                }
                let t = slice_vec(part, 0, e);
                assert(part@.subrange(0, e as int) == part@.take(e as int));
                string_from_chars(&t)
            },
            None => string_from_chars(part),
        }
    } else {
        proof {
            reveal_strlit("");
        }
        "".to_owned()
    }
}

/// An entity as plain values: its kind and its `(code, value)` groups.
pub type EntityView = (Seq<char>, Seq<(i32, Seq<char>)>);

/// Views of a list of groups.
pub open spec fn groups_view(g: Seq<(i32, String)>) -> Seq<(i32, Seq<char>)> {
    g.map_values(|p: (i32, String)| (p.0, p.1@))
}

/// Views of a list of parsed entities.
pub open spec fn entities_view(v: Seq<(String, Vec<(i32, String)>)>) -> Seq<EntityView> {
    v.map_values(|e: (String, Vec<(i32, String)>)| (e.0@, groups_view(e.1@)))
}

/// The groups read from line `i` on: a line that is not an `i32` code is
/// skipped; a code takes the next line, trimmed, as its value (empty when
/// there is none).
pub open spec fn groups_from(ls: Seq<Seq<char>>, i: int) -> Seq<(i32, Seq<char>)>
    decreases ls.len() - i,
{
    if i < 0 || i >= ls.len() {
        Seq::empty()
    } else {
        match parse_i32(trim(ls[i])) {
            None => groups_from(ls, i + 1),
            Some(c) => if i + 1 < ls.len() {
                seq![(c, trim(ls[i + 1]))] + groups_from(ls, i + 2)
            } else {
                seq![(c, Seq::<char>::empty())]
            },
        }
    }
}

/// The entity held by one piece of the section: its first line is the kind,
/// the following lines its groups; blank pieces and `SECTION`, `ENDSEC` and
/// `EOF` pieces hold none.
pub open spec fn entity_of_part(part: Seq<char>) -> Option<EntityView> {
    let t = trim(part);
    let ls = lines_of(t);
    if t.len() == 0 || ls.len() == 0 {
        None
    } else {
        let kind = trim(ls[0]);
        if kind == "SECTION"@ || kind == "ENDSEC"@ || kind == "EOF"@ {
            None
        } else {
            Some((kind, groups_from(ls, 1)))
        }
    }
}

/// The entities of a list of pieces, in order.
pub open spec fn parts_entities(parts: Seq<Seq<char>>) -> Seq<EntityView>
    decreases parts.len(),
{
    if parts.len() == 0 {
        Seq::empty()
    } else {
        parts_entities(parts.drop_last()) + match entity_of_part(parts.last()) {
            Some(e) => seq![e],
            None => Seq::<EntityView>::empty(),
        }
    }
}

/// The entities of an ENTITIES section text, cut at each `"\n  0\n"`.
pub open spec fn parsed_entities(section: Seq<char>) -> Seq<EntityView> {
    parts_entities(split_str(section, "\n  0\n"@))
}

/// Whether the characters of `v` are exactly `s`.
pub(crate) fn is_text(v: &Vec<char>, s: &str) -> (r: bool)
    ensures
        r == (v@ == s@),
{
    let w = str_chars(s);
    vec_eq(v, &w)
}

fn groups_of_lines(ls: &Vec<Vec<char>>) -> (out: Vec<(i32, String)>)
    ensures
        groups_view(out@) == groups_from(views(ls@), 1),
{
    let ghost g = views(ls@);
    let n = ls.len();
    let mut out: Vec<(i32, String)> = Vec::new();
    let mut i: usize = 1;
    while i < n
        invariant
            n == ls@.len(),
            g == views(ls@),
            1 <= i,
            groups_from(g, 1) == groups_view(out@) + groups_from(g, i as int),
        decreases n - i,
    {
        let code_line = trim_vec(&ls[i]);
        let ghost prev = out@;
        assert(g[i as int] == ls@[i as int]@);
        match parse_i32_exec(&code_line) {
            None => {
                i += 1;
            },
            Some(c) => {
                if i + 1 < n {
                    let v = trim_vec(&ls[i + 1]);
                    assert(g[i + 1] == ls@[i + 1]@);
                    out.push((c, string_from_chars(&v)));
                    proof {
                        assert(groups_view(out@) =~= groups_view(prev) + seq![(c, trim(g[i + 1]))]);
                    }
                    i += 2;
                } else {
                    let empty = String::new();
                    assert(empty@ == Seq::<char>::empty());
                    out.push((c, empty));
                    proof {
                        assert(groups_view(out@) =~= groups_view(prev) + seq![
                            (c, Seq::<char>::empty()),
                        ]);
                        assert(groups_from(g, (i + 1) as int) == Seq::<(i32, Seq<char>)>::empty());
                    }
                    i += 1;
                }
            },
        }
    }
    assert(groups_from(g, i as int) == Seq::<(i32, Seq<char>)>::empty());
    out
}

fn entity_of_part_exec(part: &Vec<char>) -> (r: Option<(String, Vec<(i32, String)>)>)
    ensures
        match r {
            Some(e) => entity_of_part(part@) == Some((e.0@, groups_view(e.1@))),
            None => entity_of_part(part@) is None,
        },
{
    let t = trim_vec(part);
    if t.len() == 0 {
        return None;
    }
    let ls = lines_exec(&t);
    if ls.len() == 0 {
        return None;
    }
    let kind = trim_vec(&ls[0]);
    assert(views(ls@)[0] == ls@[0]@);
    if is_text(&kind, "SECTION") || is_text(&kind, "ENDSEC") || is_text(&kind, "EOF") {
        return None;
    }
    let groups = groups_of_lines(&ls);
    Some((string_from_chars(&kind), groups))
}

/// Parses the entities of an ENTITIES section text into kinds and groups.
pub fn parse_entities(section: &str) -> (out: Vec<(String, Vec<(i32, String)>)>)
    ensures
        entities_view(out@) == parsed_entities(section@),
{
    let s = str_chars(section);
    let sep = str_chars("\n  0\n");
    proof {
        reveal_strlit("\n  0\n");
    }
    let parts = split_str_exec(&s, &sep);
    let ghost ps = views(parts@);
    let mut out: Vec<(String, Vec<(i32, String)>)> = Vec::new();
    let mut k: usize = 0;
    assert(ps.take(0) =~= Seq::<Seq<char>>::empty());
    while k < parts.len()
        invariant
            k <= parts@.len(),
            ps == views(parts@),
            entities_view(out@) == parts_entities(ps.take(k as int)),
        decreases parts@.len() - k,
    {
        let ghost prev = out@;
        let e = entity_of_part_exec(&parts[k]);
        proof {
            let t = ps.take(k + 1);
            assert(t.drop_last() =~= ps.take(k as int));
            assert(t.last() == parts@[k as int]@);
        }
        match e {
            Some(e) => {
                out.push(e);
                assert(entities_view(out@) =~= entities_view(prev) + seq![
                    (out@.last().0@, groups_view(out@.last().1@)),
                ]);
            },
            None => {
                assert(entities_view(out@) =~= entities_view(prev) + Seq::<EntityView>::empty());
            },
        }
        k += 1;
    }
    assert(ps.take(parts@.len() as int) =~= ps);
    out
}

// ---------------------------------------------------------------------------
// Outside text functions
// ---------------------------------------------------------------------------

/// What `str::to_uppercase` returns for a text.
pub uninterp spec fn upper_case(s: Seq<char>) -> Seq<char>;

/// `str::to_uppercase` (Unicode upper-case mapping). The contract only names
/// its result: `upper_case` of the argument; the mapping itself is not stated.
#[verifier::external_body]
fn to_upper(s: &Vec<char>) -> (r: Vec<char>)
    ensures
        r@ == upper_case(s@),
{
    let text: String = s.iter().collect();
    text.to_uppercase().chars().collect()
}

/// What `format!("{:?}", s)` writes for a text.
pub uninterp spec fn debug_text(s: Seq<char>) -> Seq<char>;

/// The `Debug` form of a `str` (quoted and escaped). The contract only names
/// its result: `debug_text` of the argument; the escaping is not stated.
#[verifier::external_body]
fn debug_quoted(s: &Vec<char>) -> (r: Vec<char>)
    ensures
        r@ == debug_text(s@),
{
    let text: String = s.iter().collect();
    format!("{:?}", text).chars().collect()
}

// ---------------------------------------------------------------------------
// Findings
// ---------------------------------------------------------------------------

/// The findings of the code/value pair at line `i` of the trimmed lines `ts`:
/// a true-color `420` group not preceded by a handle code `5`, and the BYBLOCK
/// color `62`/`0`.
pub open spec fn pair_issues_at(ts: Seq<Seq<char>>, i: int) -> Seq<IssueView> {
    let code = ts[i];
    let value = ts[i + 1];
    (if code == "420"@ && (i == 0 || ts[i - 1] != "5"@) {
        seq![("true-color-420"@, "true-color group 420 = "@ + value, Some(i + 1))]
    } else {
        Seq::<IssueView>::empty()
    }) + (if code == "62"@ && value == "0"@ {
        seq![("byblock-62-0"@, "BYBLOCK color 62/0"@, Some(i + 1))]
    } else {
        Seq::<IssueView>::empty()
    })
}

/// The pair findings at the lines before `n`.
pub open spec fn pair_issues(ts: Seq<Seq<char>>, n: int) -> Seq<IssueView>
    decreases n,
{
    if n <= 0 {
        Seq::empty()
    } else {
        pair_issues(ts, n - 1) + pair_issues_at(ts, n - 1)
    }
}

/// A finding without a line.
pub open spec fn note(code: Seq<char>, message: Seq<char>) -> IssueView {
    (code, message, None)
}

/// The file-wide findings: missing `AC1015`, HEADER without extents, missing
/// sections, HATCH entities.
pub open spec fn file_issues(dxf: Seq<char>) -> Seq<IssueView> {
    (if !contains(dxf, "AC1015"@) {
        seq![note("acadver"@, "missing AC1015 version"@)]
    } else {
        Seq::<IssueView>::empty()
    }) + header_issues(dxf) + section_issues(dxf) + (if contains(entities_text(dxf), "HATCH"@) {
        seq![note("hatch-entity"@, "HATCH entity in ENTITIES"@)]
    } else {
        Seq::<IssueView>::empty()
    })
}

/// A `missing-section` finding when `dxf` does not hold `name`.
pub open spec fn section_issue(dxf: Seq<char>, name: Seq<char>) -> Seq<IssueView> {
    if !contains(dxf, name) {
        seq![note("missing-section"@, "missing "@ + name)]
    } else {
        Seq::<IssueView>::empty()
    }
}

/// Findings for the sections and objects a translator needs.
pub open spec fn section_issues(dxf: Seq<char>) -> Seq<IssueView> {
    section_issue(dxf, "CLASSES"@) + section_issue(dxf, "BLOCKS"@) + section_issue(dxf, "OBJECTS"@)
        + section_issue(dxf, "ACAD_LAYOUT"@) + section_issue(dxf, "AcDbLayout"@)
}

/// `v` is a handle declared in the lines: it follows (upper-cased) a `5` or
/// `105` code.
pub open spec fn declared_handle(cs: Seq<Seq<char>>, us: Seq<Seq<char>>, v: Seq<char>) -> bool {
    exists|i: int|
        0 <= i && i + 1 < cs.len() && (cs[i] == "5"@ || cs[i] == "105"@) && #[trigger] us[i + 1]
            == v
}

/// The dangling-reference finding at line `i`: a `330`/`340`/`350` pointer
/// whose upper-cased value is neither `0` nor a declared handle.
pub open spec fn dangling_at(cs: Seq<Seq<char>>, us: Seq<Seq<char>>, i: int) -> Seq<IssueView> {
    if (cs[i] == "330"@ || cs[i] == "340"@ || cs[i] == "350"@) && us[i + 1] != "0"@
        && !declared_handle(cs, us, us[i + 1]) {
        seq![
            (
                "dangling-handle"@,
                "group "@ + cs[i] + " references missing handle "@ + us[i + 1],
                Some(i + 1),
            ),
        ]
    } else {
        Seq::<IssueView>::empty()
    }
}

/// The dangling-reference findings at the lines before `n`.
pub open spec fn dangling_upto(cs: Seq<Seq<char>>, us: Seq<Seq<char>>, n: int) -> Seq<IssueView>
    decreases n,
{
    if n <= 0 {
        Seq::empty()
    } else {
        dangling_upto(cs, us, n - 1) + dangling_at(cs, us, n - 1)
    }
}

/// The dangling-reference findings of trimmed lines `cs` whose upper-cased
/// forms are `us`.
pub open spec fn dangling_issues(cs: Seq<Seq<char>>, us: Seq<Seq<char>>) -> Seq<IssueView> {
    dangling_upto(cs, us, cs.len() - 1)
}

/// Upper-cased forms of a list of texts.
pub open spec fn upper_all(ts: Seq<Seq<char>>) -> Seq<Seq<char>> {
    ts.map_values(|t: Seq<char>| upper_case(t))
}

/// One of the five layers the writer declares.
pub open spec fn declared_layer(l: Seq<char>) -> bool {
    l == "0"@ || l == "WIRES"@ || l == "FILLS"@ || l == "INKFILL"@ || l == "GUIDES"@
}

/// The undeclared layers named by `8` groups from line `i` on: blank lines are
/// skipped, other lines are read as code/value pairs.
pub open spec fn layers_from(ls: Seq<Seq<char>>, i: int) -> Seq<Seq<char>>
    decreases ls.len() - i,
{
    if i < 0 || i >= ls.len() {
        Seq::empty()
    } else if trim(ls[i]).len() == 0 {
        layers_from(ls, i + 1)
    } else if i + 1 >= ls.len() {
        Seq::empty()
    } else if trim(ls[i]) == "8"@ && !declared_layer(trim(ls[i + 1])) {
        seq![trim(ls[i + 1])] + layers_from(ls, i + 2)
    } else {
        layers_from(ls, i + 2)
    }
}

/// The undeclared layers referenced in the ENTITIES section of `dxf`.
pub open spec fn undeclared_layer_names(dxf: Seq<char>) -> Seq<Seq<char>> {
    layers_from(lines_of(entities_text(dxf)), 0)
}

/// The findings for undeclared layers.
pub open spec fn layer_issues(dxf: Seq<char>) -> Seq<IssueView> {
    undeclared_layer_names(dxf).map_values(
        |l: Seq<char>| note("undeclared-layer"@, "entity references undeclared layer "@ + debug_text(l)),
    )
}

/// All findings of `audit_dxf`, in order.
pub open spec fn audit_issues(dxf: Seq<char>) -> Seq<IssueView> {
    let ts = trimmed(lines_of(dxf));
    pair_issues(ts, ts.len() - 1) + file_issues(dxf) + dangling_issues(ts, upper_all(ts))
        + layer_issues(dxf)
}

fn make_issue(code: &str, message: Vec<char>, line: Option<usize>) -> (i: DxfAuditIssue)
    ensures
        i@ == (code@, message@, match line {
            Some(l) => Some(l as int),
            None => None::<int>,
        }),
{
    DxfAuditIssue { code: code.to_owned(), message: string_from_chars(&message), line }
}

fn append_issues(out: &mut Vec<DxfAuditIssue>, more: Vec<DxfAuditIssue>)
    ensures
        issue_views(final(out)@) == issue_views(old(out)@) + issue_views(more@),
{
    let mut more = more;
    let ghost m = more@;
    out.append(&mut more);
    assert(issue_views(out@) =~= issue_views(old(out)@) + issue_views(m));
}

fn pair_issue_list(ts: &Vec<Vec<char>>) -> (out: Vec<DxfAuditIssue>)
    ensures
        issue_views(out@) == pair_issues(views(ts@), ts@.len() - 1),
{
    let ghost g = views(ts@);
    let mut out: Vec<DxfAuditIssue> = Vec::new();
    let n = ts.len();
    if n == 0 {
        return out;
    }
    let mut i: usize = 0;
    while i < n - 1
        invariant
            n == ts@.len(),
            n >= 1,
            g == views(ts@),
            i <= n - 1,
            issue_views(out@) == pair_issues(g, i as int),
        decreases n - 1 - i,
    {
        let ghost prev = issue_views(out@);
        let code = &ts[i];
        let value = &ts[i + 1];
        assert(g[i as int] == code@ && g[i + 1] == value@);
        let mut step: Vec<DxfAuditIssue> = Vec::new();
        let after_handle = i > 0 && is_text(&ts[i - 1], "5");
        proof {
            if i > 0 {
                assert(g[i - 1] == ts@[i - 1]@);
            }
        }
        if is_text(code, "420") && !after_handle {
            let mut m = str_chars("true-color group 420 = ");
            push_all(&mut m, value);
            step.push(make_issue("true-color-420", m, Some(i + 1)));
        }
        if is_text(code, "62") && is_text(value, "0") {
            let m = str_chars("BYBLOCK color 62/0");
            step.push(make_issue("byblock-62-0", m, Some(i + 1)));
        }
        assert(issue_views(step@) =~= pair_issues_at(g, i as int));
        append_issues(&mut out, step);
        i += 1;
    }
    out
}

fn push_note(out: &mut Vec<DxfAuditIssue>, code: &str, message: &str)
    ensures
        issue_views(final(out)@) == issue_views(old(out)@).push(note(code@, message@)),
{
    let m = str_chars(message);
    out.push(make_issue(code, m, None));
    assert(issue_views(out@) =~= issue_views(old(out)@).push(note(code@, message@)));
}

fn section_issue_list(out: &mut Vec<DxfAuditIssue>, d: &Vec<char>, name: &str)
    ensures
        issue_views(final(out)@) == issue_views(old(out)@) + section_issue(d@, name@),
{
    let nm = str_chars(name);
    if !contains_exec(d, &nm) {
        let mut m = str_chars("missing ");
        push_all(&mut m, &nm);
        out.push(make_issue("missing-section", m, None));
    }
    assert(issue_views(out@) =~= issue_views(old(out)@) + section_issue(d@, name@));
}

/// The HEADER finding of `file_issues`.
pub open spec fn header_issues(dxf: Seq<char>) -> Seq<IssueView> {
    match find(dxf, "  2\nHEADER\n"@) {
        Some(h) => match find_from(dxf, "\n  0\nENDSEC\n"@, h) {
            Some(end) => if !contains(dxf.subrange(h, end), "$EXTMIN"@) || !contains(
                dxf.subrange(h, end),
                "$EXTMAX"@,
            ) {
                seq![note("header-extents"@, "HEADER missing $EXTMIN/$EXTMAX"@)]
            } else {
                Seq::<IssueView>::empty()
            },
            None => Seq::<IssueView>::empty(),
        },
        None => Seq::<IssueView>::empty(),
    }
}

fn header_issue_list(d: &Vec<char>) -> (out: Vec<DxfAuditIssue>)
    ensures
        issue_views(out@) == header_issues(d@),
{
    let mut out: Vec<DxfAuditIssue> = Vec::new();
    let header_marker = str_chars("  2\nHEADER\n");
    match find_from_exec(d, &header_marker, 0) {
        Some(h) => {
            proof {
                lemma_find_from_some(d@, header_marker@, 0);
            }
            let end_marker = str_chars("\n  0\nENDSEC\n");
            match find_from_exec(d, &end_marker, h) {
                Some(end) => {
                    proof {
                        lemma_find_from_some(d@, end_marker@, h as int);
                    }
                    let header = slice_vec(d, h, end);
                    let extmin = str_chars("$EXTMIN");
                    let extmax = str_chars("$EXTMAX");
                    if !contains_exec(&header, &extmin) || !contains_exec(&header, &extmax) {
                        push_note(&mut out, "header-extents", "HEADER missing $EXTMIN/$EXTMAX");
                    }
                },
                None => {},
            }
        },
        None => {},
    }
    assert(issue_views(out@) =~= header_issues(d@));
    out
}

fn file_issue_list(dxf: &str) -> (out: Vec<DxfAuditIssue>)
    ensures
        issue_views(out@) == file_issues(dxf@),
{
    let d = str_chars(dxf);
    let mut out: Vec<DxfAuditIssue> = Vec::new();
    let acad = str_chars("AC1015");
    if !contains_exec(&d, &acad) {
        push_note(&mut out, "acadver", "missing AC1015 version");
    }
    let ghost part1 = issue_views(out@);
    let h = header_issue_list(&d);
    append_issues(&mut out, h);
    let ghost part2 = issue_views(out@);
    section_issue_list(&mut out, &d, "CLASSES");
    section_issue_list(&mut out, &d, "BLOCKS");
    section_issue_list(&mut out, &d, "OBJECTS");
    section_issue_list(&mut out, &d, "ACAD_LAYOUT");
    section_issue_list(&mut out, &d, "AcDbLayout");
    assert(issue_views(out@) =~= part2 + section_issues(d@));
    let ent = entities_in_section(dxf);
    let ev = str_chars(ent.as_str());
    let hatch = str_chars("HATCH");
    let ghost part3 = issue_views(out@);
    if contains_exec(&ev, &hatch) {
        push_note(&mut out, "hatch-entity", "HATCH entity in ENTITIES");
    }
    assert(header_issues(dxf@) == header_issues(d@));
    assert(issue_views(out@) =~= file_issues(dxf@));
    out
}

/// Whether `v` is one of the handles collected so far.
fn collect_handles(cs: &Vec<Vec<char>>, us: &Vec<Vec<char>>) -> (hs: Vec<Vec<char>>)
    requires
        cs@.len() == us@.len(),
    ensures
        forall|v: Seq<char>|
            views(hs@).contains(v) <==> declared_handle(views(cs@), views(us@), v),
{
    let ghost c = views(cs@);
    let ghost u = views(us@);
    let n = cs.len();
    let mut hs: Vec<Vec<char>> = Vec::new();
    let mut i: usize = 0;
    while i < n && i + 1 < n
        invariant
            n == cs@.len(),
            n == us@.len(),
            c == views(cs@),
            u == views(us@),
            i <= n,
            forall|v: Seq<char>|
                views(hs@).contains(v) <==> exists|k: int|
                    0 <= k < i && k + 1 < c.len() && (c[k] == "5"@ || c[k] == "105"@)
                        && #[trigger] u[k + 1] == v,
        decreases n - i,
    {
        let ghost prev = views(hs@);
        let is_handle = is_text(&cs[i], "5") || is_text(&cs[i], "105");
        assert(c[i as int] == cs@[i as int]@);
        if is_handle {
            let v = crate::template::copy_chars(&us[i + 1]);
            hs.push(v);
            assert(u[i + 1] == us@[i + 1]@);
        }
        proof {
            assert forall|v: Seq<char>|
                views(hs@).contains(v) <==> exists|k: int|
                    0 <= k < i + 1 && k + 1 < c.len() && (c[k] == "5"@ || c[k] == "105"@)
                        && #[trigger] u[k + 1] == v by {
                if is_handle {
                    assert(views(hs@) =~= prev.push(u[i + 1]));
                    if views(hs@).contains(v) && !prev.contains(v) {
                        let j = choose|j: int| 0 <= j < views(hs@).len() && views(hs@)[j] == v;
                        assert(j == prev.len());
                    }
                    if exists|k: int|
                        0 <= k < i + 1 && k + 1 < c.len() && (c[k] == "5"@ || c[k] == "105"@)
                            && #[trigger] u[k + 1] == v {
                        let k = choose|k: int|
                            0 <= k < i + 1 && k + 1 < c.len() && (c[k] == "5"@ || c[k] == "105"@)
                                && #[trigger] u[k + 1] == v;
                        if k == i {
                            assert(views(hs@)[prev.len() as int] == v);
                        } else {
                            assert(prev.contains(v));
                            let j = choose|j: int| 0 <= j < prev.len() && prev[j] == v;
                            assert(views(hs@)[j] == v);
                        }
                    }
                } else {
                    assert(views(hs@) =~= prev);
                }
            }
        }
        i += 1;
    }
    proof {
        assert forall|v: Seq<char>|
            views(hs@).contains(v) <==> declared_handle(c, u, v) by {
            if declared_handle(c, u, v) {
                let k = choose|k: int|
                    0 <= k && k + 1 < c.len() && (c[k] == "5"@ || c[k] == "105"@) && #[trigger] u[k
                        + 1] == v;
                assert(k < i);
            }
        }
    }
    hs
}

/// The dangling-reference findings of trimmed lines `codes` whose upper-cased
/// forms are `uppers`.
pub fn dangling_handle_issues(codes: &Vec<Vec<char>>, uppers: &Vec<Vec<char>>) -> (out: Vec<
    DxfAuditIssue,
>)
    requires
        codes@.len() == uppers@.len(),
    ensures
        issue_views(out@) == dangling_issues(views(codes@), views(uppers@)),
{
    let ghost c = views(codes@);
    let ghost u = views(uppers@);
    let hs = collect_handles(codes, uppers);
    let mut out: Vec<DxfAuditIssue> = Vec::new();
    let n = codes.len();
    if n == 0 {
        return out;
    }
    let mut i: usize = 0;
    while i < n - 1
        invariant
            n == codes@.len(),
            n == uppers@.len(),
            n >= 1,
            c == views(codes@),
            u == views(uppers@),
            forall|v: Seq<char>| views(hs@).contains(v) <==> declared_handle(c, u, v),
            i <= n - 1,
            issue_views(out@) == dangling_upto(c, u, i as int),
        decreases n - 1 - i,
    {
        let code = &codes[i];
        let val = &uppers[i + 1];
        assert(c[i as int] == code@ && u[i + 1] == val@);
        let pointer = is_text(code, "330") || is_text(code, "340") || is_text(code, "350");
        let ghost prev = issue_views(out@);
        if pointer && !is_text(val, "0") && !crate::sanitize::seen_contains(&hs, val) {
            let mut m = str_chars("group ");
            push_all(&mut m, code);
            push_str(&mut m, " references missing handle ");
            push_all(&mut m, val);
            out.push(make_issue("dangling-handle", m, Some(i + 1)));
        }
        assert(issue_views(out@) =~= prev + dangling_at(c, u, i as int));
        i += 1;
    }
    out
}

fn upper_lines(ts: &Vec<Vec<char>>) -> (out: Vec<Vec<char>>)
    ensures
        out@.len() == ts@.len(),
        views(out@) == upper_all(views(ts@)),
{
    let mut out: Vec<Vec<char>> = Vec::new();
    let mut k: usize = 0;
    while k < ts.len()
        invariant
            k <= ts@.len(),
            out@.len() == k,
            views(out@) == upper_all(views(ts@)).take(k as int),
        decreases ts@.len() - k,
    {
        let u = to_upper(&ts[k]);
        let ghost prev = out@;
        out.push(u);
        proof {
            let want = upper_all(views(ts@)).take(k + 1);
            assert forall|j: int| 0 <= j < k + 1 implies #[trigger] views(out@)[j] == want[j] by {
                if j < k {
                    assert(out@[j] == prev[j]);
                    assert(views(prev)[j] == want[j]);
                } else {
                    assert(views(ts@)[j] == ts@[j]@);
                }
            }
            assert(views(out@) =~= want);
        }
        k += 1;
    }
    assert(upper_all(views(ts@)).take(ts@.len() as int) =~= upper_all(views(ts@)));
    out
}

/// References (`330`, `340`, `350`) to handles that no `5`/`105` group
/// declares; handles are compared upper-cased.
pub fn audit_dangling_handles(dxf: &str) -> (out: Vec<DxfAuditIssue>)
    ensures
        issue_views(out@) == dangling_issues(
            trimmed(lines_of(dxf@)),
            upper_all(trimmed(lines_of(dxf@))),
        ),
{
    let d = str_chars(dxf);
    let lines = lines_exec(&d);
    let ts = trim_lines(&lines);
    let us = upper_lines(&ts);
    dangling_handle_issues(&ts, &us)
}

/// The undeclared layers that `8` groups of the ENTITIES section of `dxf` name.
pub fn undeclared_layers(dxf: &str) -> (out: Vec<String>)
    ensures
        out@.map_values(|s: String| s@) == undeclared_layer_names(dxf@),
{
    let ent = entities_in_section(dxf);
    let e = str_chars(ent.as_str());
    let lines = lines_exec(&e);
    let ghost ls = views(lines@);
    let n = lines.len();
    let mut out: Vec<String> = Vec::new();
    let mut i: usize = 0;
    while i < n
        invariant
            n == lines@.len(),
            ls == views(lines@),
            ls == lines_of(entities_text(dxf@)),
            layers_from(ls, 0) == out@.map_values(|s: String| s@) + layers_from(ls, i as int),
        decreases n - i,
    {
        let code = trim_vec(&lines[i]);
        assert(ls[i as int] == lines@[i as int]@);
        let ghost prev = out@.map_values(|s: String| s@);
        if code.len() == 0 {
            i += 1;
        } else if i + 1 >= n {
            assert(layers_from(ls, i as int) == Seq::<Seq<char>>::empty());
            assert(layers_from(ls, n as int) == Seq::<Seq<char>>::empty());
            i = n;
        } else {
            let layer = trim_vec(&lines[i + 1]);
            assert(ls[i + 1] == lines@[i + 1]@);
            let declared = is_text(&layer, "0") || is_text(&layer, "WIRES") || is_text(
                &layer,
                "FILLS",
            ) || is_text(&layer, "INKFILL") || is_text(&layer, "GUIDES");
            if is_text(&code, "8") && !declared {
                out.push(string_from_chars(&layer));
                assert(out@.map_values(|s: String| s@) =~= prev.push(layer@));
            }
            i += 2;
        }
    }
    assert(layers_from(ls, i as int) == Seq::<Seq<char>>::empty());
    assert(out@.map_values(|s: String| s@) =~= layers_from(ls, 0));
    out
}

/// Findings for `8` groups in ENTITIES naming a layer the writer does not declare.
pub fn audit_entity_layers(dxf: &str) -> (out: Vec<DxfAuditIssue>)
    ensures
        issue_views(out@) == layer_issues(dxf@),
{
    let names = undeclared_layers(dxf);
    let ghost nv = names@.map_values(|s: String| s@);
    let mut out: Vec<DxfAuditIssue> = Vec::new();
    let mut k: usize = 0;
    while k < names.len()
        invariant
            k <= names@.len(),
            nv == names@.map_values(|s: String| s@),
            nv == undeclared_layer_names(dxf@),
            issue_views(out@) == layer_issues(dxf@).take(k as int),
        decreases names@.len() - k,
    {
        let nm = str_chars(names[k].as_str());
        let q = debug_quoted(&nm);
        let mut m = str_chars("entity references undeclared layer ");
        push_all(&mut m, &q);
        let ghost prev = issue_views(out@);
        out.push(make_issue("undeclared-layer", m, None));
        proof {
            assert(nv[k as int] == names@[k as int]@);
            let li = layer_issues(dxf@);
            assert(li[k as int] == note(
                "undeclared-layer"@,
                "entity references undeclared layer "@ + debug_text(nv[k as int]),
            ));
            assert(issue_views(out@) =~= prev.push(li[k as int]));
            assert(li.take(k + 1) =~= li.take(k as int).push(li[k as int]));
        }
        k += 1;
    }
    assert(layer_issues(dxf@).take(names@.len() as int) =~= layer_issues(dxf@));
    out
}

/// Audits a DXF text for values known to break CAD translation.
pub fn audit_dxf(dxf: &str) -> (report: DxfAuditReport)
    ensures
        issue_views(report.issues@) == audit_issues(dxf@),
{
    let d = str_chars(dxf);
    let lines = lines_exec(&d);
    let ts = trim_lines(&lines);
    let mut issues = pair_issue_list(&ts);
    let f = file_issue_list(dxf);
    append_issues(&mut issues, f);
    let us = upper_lines(&ts);
    let dangling = dangling_handle_issues(&ts, &us);
    append_issues(&mut issues, dangling);
    let layers = audit_entity_layers(dxf);
    append_issues(&mut issues, layers);
    DxfAuditReport { issues }
}

// ---------------------------------------------------------------------------
// Polylines in a region
// ---------------------------------------------------------------------------

/// Counts of the polylines that cross a region, by layer.
#[derive(Debug, Clone, Default, PartialEq, Eq, Structural)]
pub struct RegionPolylineAudit {
    /// Polylines on the WIRES layer intersecting the region (routed wires).
    pub wire_layer_polylines: usize,
    /// Polylines on layer 0 intersecting the region (frames, brackets, symbols).
    pub layer0_polylines: usize,
}

/// The layer of an entity: the value of its first `8` group, `0` without one.
pub open spec fn entity_layer(groups: Seq<(i32, Seq<char>)>) -> Seq<char>
    decreases groups.len(),
{
    if groups.len() == 0 {
        "0"@
    } else if groups[0].0 == 8 {
        groups[0].1
    } else {
        entity_layer(groups.drop_first())
    }
}

/// The WIRES and layer `0` counts of the LWPOLYLINE entities among the first
/// `n` entities that are marked as crossing the region.
pub open spec fn region_counts(es: Seq<EntityView>, inside: Seq<bool>, n: int) -> (nat, nat)
    decreases n,
{
    if n <= 0 {
        (0, 0)
    } else {
        let prev = region_counts(es, inside, n - 1);
        let e = es[n - 1];
        if e.0 == "LWPOLYLINE"@ && inside[n - 1] {
            let layer = entity_layer(e.1);
            if layer == "WIRES"@ {
                ((prev.0 + 1) as nat, prev.1)
            } else if layer == "0"@ {
                (prev.0, (prev.1 + 1) as nat)
            } else {
                prev
            }
        } else {
            prev
        }
    }
}

fn layer_of_groups(groups: &Vec<(i32, String)>) -> (out: Vec<char>)
    ensures
        out@ == entity_layer(groups_view(groups@)),
{
    let ghost g = groups_view(groups@);
    let mut k: usize = 0;
    assert(g.skip(0) =~= g);
    while k < groups.len()
        invariant
            k <= groups@.len(),
            g == groups_view(groups@),
            entity_layer(g) == entity_layer(g.skip(k as int)),
        decreases groups@.len() - k,
    {
        assert(g.skip(k as int).len() > 0);
        assert(g.skip(k as int)[0] == (groups@[k as int].0, groups@[k as int].1@));
        if groups[k].0 == 8 {
            return str_chars(groups[k].1.as_str());
        }
        assert(g.skip(k as int).drop_first() =~= g.skip(k + 1));
        k += 1;
    }
    assert(g.skip(k as int).len() == 0);
    str_chars("0")
}

/// Counts the LWPOLYLINE entities marked in `inside` (one mark per entity:
/// whether a vertex lies in the region), on the WIRES layer and on layer `0`.
pub fn count_region_polylines(
    entities: &Vec<(String, Vec<(i32, String)>)>,
    inside: &Vec<bool>,
) -> (audit: RegionPolylineAudit)
    requires
        entities@.len() == inside@.len(),
    ensures
        audit.wire_layer_polylines == region_counts(
            entities_view(entities@),
            inside@,
            entities@.len() as int,
        ).0,
        audit.layer0_polylines == region_counts(
            entities_view(entities@),
            inside@,
            entities@.len() as int,
        ).1,
{
    let ghost es = entities_view(entities@);
    let mut audit = RegionPolylineAudit { wire_layer_polylines: 0, layer0_polylines: 0 };
    let mut k: usize = 0;
    while k < entities.len()
        invariant
            k <= entities@.len(),
            entities@.len() == inside@.len(),
            es == entities_view(entities@),
            audit.wire_layer_polylines == region_counts(es, inside@, k as int).0,
            audit.layer0_polylines == region_counts(es, inside@, k as int).1,
            audit.wire_layer_polylines <= k,
            audit.layer0_polylines <= k,
        decreases entities@.len() - k,
    {
        let kind = str_chars(entities[k].0.as_str());
        assert(es[k as int] == (entities@[k as int].0@, groups_view(entities@[k as int].1@)));
        if is_text(&kind, "LWPOLYLINE") && inside[k] {
            let layer = layer_of_groups(&entities[k].1);
            if is_text(&layer, "WIRES") {
                audit.wire_layer_polylines = audit.wire_layer_polylines + 1;
            } else if is_text(&layer, "0") {
                audit.layer0_polylines = audit.layer0_polylines + 1;
            }
        }
        k += 1;
    }
    audit
}


// ---------------------------------------------------------------------------
// The line filter clears the colour findings
// ---------------------------------------------------------------------------

/// Lines that read as a stream of code/value pairs whose colour groups the
/// filter can judge: no value line (odd index) is `420` or `62`, the first
/// line is not `420`, and no removed pair is directly followed by a `420`
/// code.
pub open spec fn colour_stream(ls: Seq<Seq<char>>) -> bool {
    &&& forall|i: int|
        0 <= i < ls.len() && i % 2 == 1 ==> trim(#[trigger] ls[i]) != "420"@ && trim(ls[i])
            != "62"@
    &&& (ls.len() == 0 || trim(ls[0]) != "420"@)
    &&& forall|i: int|
        0 <= i && i + 2 < ls.len() && i % 2 == 0 && #[trigger] drops_pair(ls, i) ==> trim(ls[i + 2])
            != "420"@
}

/// Trimmed lines with no colour finding: every `420` comes after a `5`, and
/// no `62` is followed by `0`.
pub open spec fn colour_clean(ts: Seq<Seq<char>>) -> bool {
    &&& forall|k: int| 0 <= k < ts.len() && #[trigger] ts[k] == "420"@ ==> k > 0 && ts[k - 1] == "5"@
    &&& forall|k: int| 0 <= k && k + 1 < ts.len() && #[trigger] ts[k] == "62"@ ==> ts[k + 1] != "0"@
}

proof fn lemma_filter_from(ls: Seq<Seq<char>>, i: int)
    requires
        colour_stream(ls),
        0 <= i,
        i % 2 == 0,
    ensures
        ({
            let g = trimmed(filter_groups(ls, i));
            &&& forall|k: int| 0 < k < g.len() && #[trigger] g[k] == "420"@ ==> g[k - 1] == "5"@
            &&& forall|k: int| 0 <= k && k + 1 < g.len() && #[trigger] g[k] == "62"@ ==> g[k + 1] != "0"@
            &&& (g.len() > 0 && g[0] == "420"@) ==> (i < ls.len() && !drops_pair(ls, i) && trim(ls[i])
                == "420"@)
        }),
    decreases ls.len() + 2 - i,
{
    reveal_strlit("420");
    reveal_strlit("62");
    reveal_strlit("0");
    reveal_strlit("5");
    if i < ls.len() {
        let g = trimmed(filter_groups(ls, i));
        let rest = trimmed(filter_groups(ls, i + 2));
        lemma_filter_from(ls, i + 2);
        if drops_pair(ls, i) {
            assert(filter_groups(ls, i) == filter_groups(ls, i + 2));
            if g.len() > 0 && g[0] == "420"@ {
                assert(i + 2 < ls.len() && trim(ls[i + 2]) == "420"@);
            }
        } else if i + 1 < ls.len() {
            assert(!drops_pair(ls, i + 1)) by {
                assert((i + 1) % 2 == 1);
                assert(trim(ls[i + 1]) != "420"@ && trim(ls[i + 1]) != "62"@);
            }
            assert(filter_groups(ls, i + 1) == seq![ls[i + 1]] + filter_groups(ls, i + 2));
            assert(filter_groups(ls, i) == seq![ls[i]] + (seq![ls[i + 1]] + filter_groups(ls, i + 2)));
            assert(g =~= seq![trim(ls[i]), trim(ls[i + 1])] + rest);
            assert(trim(ls[i + 1]) != "420"@ && trim(ls[i + 1]) != "62"@) by {
                assert((i + 1) % 2 == 1);
            }
            assert forall|k: int| 0 < k < g.len() && #[trigger] g[k] == "420"@ implies g[k - 1] == "5"@ by {
                if k >= 3 {
                    assert(g[k] == rest[k - 2]);
                    assert(g[k - 1] == rest[k - 3]);
                } else if k == 2 {
                    assert(g[2] == rest[0]);
                    assert(trim(ls[i + 2]) == "420"@);
                    assert(!drops_pair(ls, i + 2));
                }
            }
            assert forall|k: int| 0 <= k && k + 1 < g.len() && #[trigger] g[k] == "62"@ implies g[k + 1]
                != "0"@ by {
                if k >= 2 {
                    assert(g[k] == rest[k - 2]);
                    assert(g[k + 1] == rest[k - 1]);
                }
            }
        } else {
            assert(filter_groups(ls, i + 1) == Seq::<Seq<char>>::empty());
            assert(g =~= seq![trim(ls[i])]);
        }
    } else {
        assert(filter_groups(ls, i) == Seq::<Seq<char>>::empty());
    }
}

/// Trimmed lines with no colour finding get none from the audit's pair check.
proof fn lemma_clean_no_pair_issues(ts: Seq<Seq<char>>, n: int)
    requires
        colour_clean(ts),
        n <= ts.len() - 1,
    ensures
        pair_issues(ts, n) == Seq::<IssueView>::empty(),
    decreases n,
{
    reveal_strlit("420");
    reveal_strlit("62");
    reveal_strlit("0");
    reveal_strlit("5");
    if n > 0 {
        lemma_clean_no_pair_issues(ts, n - 1);
        let i = n - 1;
        if ts[i] == "420"@ {
            assert(i > 0 && ts[i - 1] == "5"@);
        }
        if ts[i] == "62"@ {
            assert(ts[i + 1] != "0"@);
        }
        assert(pair_issues_at(ts, i) =~= Seq::<IssueView>::empty());
        assert(pair_issues(ts, n) =~= Seq::<IssueView>::empty());
    }
}

/// The line filter of the sanitizer removes every colour group the audit
/// reports: on a code/value stream (see `colour_stream`), the filtered lines
/// hold no true-colour `420` group outside a handle and no BYBLOCK `62`/`0`
/// group, so the audit's pair check finds nothing in them.
pub proof fn line_filter_clears_colour_findings(ls: Seq<Seq<char>>)
    requires
        colour_stream(ls),
    ensures
        colour_clean(trimmed(filter_groups(ls, 0))),
        pair_issues(trimmed(filter_groups(ls, 0)), trimmed(filter_groups(ls, 0)).len() - 1)
            == Seq::<IssueView>::empty(),
{
    reveal_strlit("420");
    lemma_filter_from(ls, 0);
    let g = trimmed(filter_groups(ls, 0));
    assert forall|k: int| 0 <= k < g.len() && #[trigger] g[k] == "420"@ implies k > 0 && g[k - 1]
        == "5"@ by {
        if k == 0 {
            assert(trim(ls[0]) == "420"@);
        }
    }
    lemma_clean_no_pair_issues(g, g.len() - 1);
}


/// No `$ACADVER` line has, two lines further on, a `5` line followed by a
/// `420` line (the version fix would rewrite that `5` and expose the `420`).
pub open spec fn acadver_safe(ls: Seq<Seq<char>>) -> bool {
    forall|j: int|
        0 <= j && j + 3 < ls.len() && trim(#[trigger] ls[j]) == "$ACADVER"@ ==> !(trim(ls[j + 2])
            == "5"@ && trim(ls[j + 3]) == "420"@)
}

proof fn lemma_fix_acadver_clean(ls: Seq<Seq<char>>, j: int)
    requires
        colour_clean(trimmed(ls)),
        acadver_safe(ls),
    ensures
        colour_clean(trimmed(fix_acadver(ls, j))),
        fix_acadver(ls, j).len() == ls.len(),
        forall|k: int|
            0 <= k < ls.len() ==> #[trigger] fix_acadver(ls, j)[k] == ls[k] || fix_acadver(ls, j)[k]
                == "AC1015"@,
    decreases ls.len() - j,
{
    reveal_strlit("AC1015");
    reveal_strlit("420");
    reveal_strlit("62");
    reveal_strlit("0");
    reveal_strlit("5");
    reveal_strlit("$ACADVER");
    if !(j < 0 || j + 2 >= ls.len()) {
        if trim(ls[j]) == "$ACADVER"@ && trim(ls[j + 2]) != "AC1015"@ {
            let p = j + 2;
            let next = ls.update(p, "AC1015"@);
            crate::chars::lemma_trim_no_ws("AC1015"@);
            let a = trimmed(ls);
            let b = trimmed(next);
            assert(b =~= a.update(p, "AC1015"@));
            assert forall|k: int| 0 <= k < b.len() && #[trigger] b[k] == "420"@ implies k > 0 && b[k
                - 1] == "5"@ by {
                assert(k != p);
                assert(a[k] == "420"@);
                if k - 1 == p {
                    assert(a[k - 1] == "5"@);
                    assert(trim(ls[j + 3]) == "420"@);
                }
            }
            assert forall|k: int| 0 <= k && k + 1 < b.len() && #[trigger] b[k] == "62"@ implies b[k
                + 1] != "0"@ by {
                assert(k != p);
                assert(a[k] == "62"@);
            }
            assert forall|j2: int|
                0 <= j2 && j2 + 3 < next.len() && trim(#[trigger] next[j2]) == "$ACADVER"@ implies !(
            trim(next[j2 + 2]) == "5"@ && trim(next[j2 + 3]) == "420"@) by {
                assert(j2 != p);
                assert(next[j2] == ls[j2]);
            }
            lemma_fix_acadver_clean(next, j + 1);
            assert forall|k: int| 0 <= k < ls.len() implies #[trigger] fix_acadver(ls, j)[k] == ls[k]
                || fix_acadver(ls, j)[k] == "AC1015"@ by {
                assert(fix_acadver(ls, j)[k] == fix_acadver(next, j + 1)[k]);
                if k != p {
                    assert(next[k] == ls[k]);
                }
            }
        } else {
            lemma_fix_acadver_clean(ls, j + 1);
        }
    }
}

/// The version fix and the `EOF` fix that follow the line filter add no
/// colour finding to colour-clean lines, unless a `$ACADVER` line sits two
/// lines before a `5` line followed by `420`, or the last line is `62`
/// (the `EOF` marker's `0` line would follow it).
pub proof fn version_and_eof_fixes_keep_colour_clean(ls: Seq<Seq<char>>)
    requires
        colour_clean(trimmed(ls)),
        acadver_safe(ls),
        ls.len() == 0 || trim(ls.last()) != "62"@,
    ensures
        colour_clean(trimmed(eof_fixed(fix_acadver(ls, 0)))),
{
    reveal_strlit("AC1015");
    reveal_strlit("420");
    reveal_strlit("62");
    reveal_strlit("0");
    reveal_strlit("5");
    reveal_strlit("  0");
    reveal_strlit("EOF");
    lemma_fix_acadver_clean(ls, 0);
    let f = fix_acadver(ls, 0);
    let tail = seq!["  0"@, "EOF"@, Seq::<char>::empty()];
    if eof_fixed(f) != f {
        assert(eof_fixed(f) == f + tail);
        crate::chars::lemma_trim_no_ws("EOF"@);
        assert(trim("  0"@) == "0"@) by {
            reveal_strlit("0");
            let z = "  0"@;
            assert(z.skip(2) =~= "0"@);
            crate::chars::lemma_trim_start_skip(z, 2);
            crate::chars::lemma_trim_no_ws("0"@);
        }
        assert(trim(Seq::<char>::empty()) == Seq::<char>::empty());
        let a = trimmed(f);
        let b = trimmed(f + tail);
        assert(b =~= a + seq!["0"@, "EOF"@, Seq::<char>::empty()]);
        if f.len() > 0 {
            assert(f[f.len() - 1] == ls[ls.len() - 1] || f[f.len() - 1] == "AC1015"@);
            crate::chars::lemma_trim_no_ws("AC1015"@);
        }
        assert forall|k: int| 0 <= k < b.len() && #[trigger] b[k] == "420"@ implies k > 0 && b[k - 1]
            == "5"@ by {
            if k >= a.len() {
                let e = seq!["0"@, "EOF"@, Seq::<char>::empty()];
                assert(b[k] == e[k - a.len()]);
                assert("EOF"@[0] != "420"@[0]);
                assert("0"@.len() != "420"@.len());
            }
            assert(a[k] == "420"@);
        }
        assert forall|k: int| 0 <= k && k + 1 < b.len() && #[trigger] b[k] == "62"@ implies b[k + 1]
            != "0"@ by {
            if k >= a.len() {
                let e = seq!["0"@, "EOF"@, Seq::<char>::empty()];
                assert(b[k] == e[k - a.len()]);
                assert("EOF"@.len() != "62"@.len());
                assert("0"@[0] != "62"@[0]);
            }
            assert(a[k] == "62"@);
            if k + 1 < a.len() {
                assert(b[k + 1] == a[k + 1]);
            }
        }
    }
}


/// The line cleaning of the sanitizer (filter, version fix, `EOF` fix)
/// leaves no colour finding for the audit's pair check, on a code/value
/// stream whose filtered lines put no `$ACADVER` two lines before a `5`
/// line followed by `420` and do not end with `62`.
pub proof fn cleaning_clears_colour_findings(dxf: Seq<char>)
    requires
        colour_stream(crate::chars::split_char(dxf, '\n')),
        acadver_safe(filter_groups(crate::chars::split_char(dxf, '\n'), 0)),
        filter_groups(crate::chars::split_char(dxf, '\n'), 0).len() == 0 || trim(
            filter_groups(crate::chars::split_char(dxf, '\n'), 0).last(),
        ) != "62"@,
    ensures
        colour_clean(trimmed(cleaned_lines(dxf))),
        pair_issues(trimmed(cleaned_lines(dxf)), trimmed(cleaned_lines(dxf)).len() - 1)
            == Seq::<IssueView>::empty(),
{
    let ls = crate::chars::split_char(dxf, '\n');
    line_filter_clears_colour_findings(ls);
    version_and_eof_fixes_keep_colour_clean(filter_groups(ls, 0));
    let g = trimmed(cleaned_lines(dxf));
    lemma_clean_no_pair_issues(g, g.len() - 1);
}


/// No handle `5` (a `5` line right after a `5` line) is followed by a `420`
/// line: renaming such a handle would expose the `420`.
pub open spec fn no_handle_five_before_420(ls: Seq<Seq<char>>) -> bool {
    forall|k: int|
        2 <= k < ls.len() && trim(#[trigger] ls[k]) == "420"@ ==> !(trim(ls[k - 1]) == "5"@ && trim(
            ls[k - 2],
        ) == "5"@)
}

proof fn lemma_renamed_line(orig: Seq<Seq<char>>, fin: Seq<Seq<char>>, k: int)
    requires
        renamed_handles(orig, fin),
        0 <= k < orig.len(),
    ensures
        trim(fin[k]) == trim(orig[k]) || (trim(fin[k]).len() >= 4 && fin[k] != orig[k]
            && crate::sanitize::is_handle_pos(fin.take(k + 1), k)),
{
    assert(kept_or_renamed(orig, fin, k));
    let pre = fin.take(k + 1);
    if crate::sanitize::is_handle_pos(pre, k) && crate::sanitize::handles_before(pre, k).contains(
        trim(orig[k]),
    ) {
        let m = choose|m: nat|
            first_free_handle(crate::sanitize::handles_before(pre, k), m) && fin[k]
                == crate::chars::hex_upper(m);
        crate::chars::lemma_hex_upper_len(m);
        crate::chars::lemma_hex_upper_no_ws(m);
        crate::chars::lemma_trim_no_ws(crate::chars::hex_upper(m));
        if fin[k] == orig[k] {
        }
    }
}

/// Renaming repeated handles adds no colour finding to colour-clean lines,
/// unless a handle `5` is followed by a `420` line.
pub proof fn renaming_keeps_colour_clean(orig: Seq<Seq<char>>, fin: Seq<Seq<char>>)
    requires
        renamed_handles(orig, fin),
        colour_clean(trimmed(orig)),
        no_handle_five_before_420(orig),
    ensures
        colour_clean(trimmed(fin)),
{
    reveal_strlit("420");
    reveal_strlit("62");
    reveal_strlit("0");
    reveal_strlit("5");
    let a = trimmed(orig);
    let b = trimmed(fin);
    assert forall|k: int| 0 <= k < b.len() && #[trigger] b[k] == "420"@ implies k > 0 && b[k - 1]
        == "5"@ by {
        lemma_renamed_line(orig, fin, k);
        assert(a[k] == "420"@);
        lemma_renamed_line(orig, fin, k - 1);
        if trim(fin[k - 1]) != trim(orig[k - 1]) {
            let pre = fin.take(k);
            assert(pre[k - 2] == fin[k - 2]);
            assert(trim(fin[k - 2]) == "5"@);
            lemma_renamed_line(orig, fin, k - 2);
            assert(trim(orig[k - 2]) == "5"@);
            assert(trim(orig[k]) == "420"@);
        }
    }
    assert forall|k: int| 0 <= k && k + 1 < b.len() && #[trigger] b[k] == "62"@ implies b[k + 1]
        != "0"@ by {
        lemma_renamed_line(orig, fin, k);
        assert(a[k] == "62"@);
        lemma_renamed_line(orig, fin, k + 1);
    }
}


/// A dangling-handle finding at the value line `l`: the line before is a
/// `330`/`340`/`350` pointer code, and the value is neither `0` (the null
/// pointer) nor a handle that a `5`/`105` group declares.
pub open spec fn names_missing_handle(cs: Seq<Seq<char>>, us: Seq<Seq<char>>, f: IssueView) -> bool {
    &&& f.0 == "dangling-handle"@
    &&& f.2 is Some
    &&& 1 <= f.2.unwrap() < cs.len()
    &&& (cs[f.2.unwrap() - 1] == "330"@ || cs[f.2.unwrap() - 1] == "340"@ || cs[f.2.unwrap() - 1]
        == "350"@)
    &&& us[f.2.unwrap()] != "0"@
    &&& !declared_handle(cs, us, us[f.2.unwrap()])
}

proof fn lemma_dangling_upto(cs: Seq<Seq<char>>, us: Seq<Seq<char>>, n: int)
    requires
        n <= cs.len() - 1,
    ensures
        forall|j: int|
            0 <= j < dangling_upto(cs, us, n).len() ==> names_missing_handle(
                cs,
                us,
                #[trigger] dangling_upto(cs, us, n)[j],
            ),
    decreases n,
{
    if n > 0 {
        lemma_dangling_upto(cs, us, n - 1);
        let prev = dangling_upto(cs, us, n - 1);
        let at = dangling_at(cs, us, n - 1);
        assert forall|j: int| 0 <= j < dangling_upto(cs, us, n).len() implies names_missing_handle(
            cs,
            us,
            #[trigger] dangling_upto(cs, us, n)[j],
        ) by {
            if j < prev.len() {
                assert(dangling_upto(cs, us, n)[j] == prev[j]);
            } else {
                assert(dangling_upto(cs, us, n)[j] == at[j - prev.len()]);
            }
        }
    }
}

/// Every dangling-handle finding names a pointer value that is neither `0`
/// nor declared by a `5`/`105` group; so a `330`/`340`/`350` pointer to `0`
/// (a null owner, as every table of a written drawing has) never yields one.
pub proof fn dangling_findings_name_missing_handles(cs: Seq<Seq<char>>, us: Seq<Seq<char>>)
    ensures
        forall|j: int|
            0 <= j < dangling_issues(cs, us).len() ==> names_missing_handle(
                cs,
                us,
                #[trigger] dangling_issues(cs, us)[j],
            ),
{
    lemma_dangling_upto(cs, us, cs.len() - 1);
}


proof fn lemma_dangling_upto_complete(cs: Seq<Seq<char>>, us: Seq<Seq<char>>, n: int, i: int)
    requires
        0 <= i < n <= cs.len() - 1,
        cs[i] == "330"@ || cs[i] == "340"@ || cs[i] == "350"@,
        us[i + 1] != "0"@,
        !declared_handle(cs, us, us[i + 1]),
    ensures
        exists|j: int|
            0 <= j < dangling_upto(cs, us, n).len() && (#[trigger] dangling_upto(cs, us, n)[j]).2
                == Some(i + 1),
    decreases n,
{
    let prev = dangling_upto(cs, us, n - 1);
    let at = dangling_at(cs, us, n - 1);
    if i < n - 1 {
        lemma_dangling_upto_complete(cs, us, n - 1, i);
        let j = choose|j: int| 0 <= j < prev.len() && (#[trigger] prev[j]).2 == Some(i + 1);
        assert(dangling_upto(cs, us, n)[j] == prev[j]);
    } else {
        assert(at.len() == 1);
        assert(dangling_upto(cs, us, n)[prev.len() as int] == at[0]);
    }
}

/// Every `330`/`340`/`350` pointer whose value is neither `0` nor a declared
/// handle yields a dangling-handle finding at its value line.
pub proof fn dangling_pointers_are_reported(cs: Seq<Seq<char>>, us: Seq<Seq<char>>, i: int)
    requires
        0 <= i && i + 1 < cs.len(),
        cs[i] == "330"@ || cs[i] == "340"@ || cs[i] == "350"@,
        us[i + 1] != "0"@,
        !declared_handle(cs, us, us[i + 1]),
    ensures
        exists|j: int|
            0 <= j < dangling_issues(cs, us).len() && (#[trigger] dangling_issues(cs, us)[j]).2 == Some(
                i + 1,
            ),
{
    lemma_dangling_upto_complete(cs, us, cs.len() - 1, i);
    let d = dangling_upto(cs, us, cs.len() - 1);
    let j = choose|j: int| 0 <= j < d.len() && (#[trigger] d[j]).2 == Some(i + 1);
    assert(dangling_issues(cs, us)[j] == d[j]);
}

} // verus!
