//! Character-sequence helpers shared by the DXF text processors.
//!
//! Text is handled as sequences of `char`; the spec functions here give the
//! meaning of the standard string operations that the DXF code relies on
//! (`trim`, `find`, `split`, `lines`, `join`, number formatting).

use vstd::prelude::*;

verus! {

// ---------------------------------------------------------------------------
// Specifications
// ---------------------------------------------------------------------------

/// Unicode `White_Space`, as used by `char::is_whitespace` and `str::trim`.
pub open spec fn is_ws(c: char) -> bool {
    let u = c as u32;
    ||| 9 <= u <= 13
    ||| u == 32
    ||| u == 0x85
    ||| u == 0xA0
    ||| u == 0x1680
    ||| 0x2000 <= u <= 0x200A
    ||| u == 0x2028
    ||| u == 0x2029
    ||| u == 0x202F
    ||| u == 0x205F
    ||| u == 0x3000
}

/// `s` without its leading white space.
pub open spec fn trim_start(s: Seq<char>) -> Seq<char>
    decreases s.len(),
{
    if s.len() > 0 && is_ws(s[0]) {
        trim_start(s.drop_first())
    } else {
        s
    }
}

/// `s` without its trailing white space.
pub open spec fn trim_end(s: Seq<char>) -> Seq<char>
    decreases s.len(),
{
    if s.len() > 0 && is_ws(s.last()) {
        trim_end(s.drop_last())
    } else {
        s
    }
}

/// `str::trim`: white space removed at both ends.
pub open spec fn trim(s: Seq<char>) -> Seq<char> {
    trim_end(trim_start(s))
}

/// `p` occurs in `s` starting at index `i`.
pub open spec fn occurs_at(s: Seq<char>, p: Seq<char>, i: int) -> bool {
    0 <= i && i + p.len() <= s.len() && s.subrange(i, i + p.len()) == p
}

/// First index `>= i` at which `p` occurs in `s`.
pub open spec fn find_from(s: Seq<char>, p: Seq<char>, i: int) -> Option<int>
    decreases s.len() + 1 - i,
{
    if i < 0 || i + p.len() > s.len() {
        None
    } else if occurs_at(s, p, i) {
        Some(i)
    } else {
        find_from(s, p, i + 1)
    }
}

/// `str::find`: first index at which `p` occurs in `s`.
pub open spec fn find(s: Seq<char>, p: Seq<char>) -> Option<int> {
    find_from(s, p, 0)
}

/// `str::contains`.
pub open spec fn contains(s: Seq<char>, p: Seq<char>) -> bool {
    find(s, p) is Some
}

/// `str::starts_with`.
pub open spec fn starts_with(s: Seq<char>, p: Seq<char>) -> bool {
    p.len() <= s.len() && s.take(p.len() as int) == p
}

/// `str::split(sep)` for a single character separator: always at least one piece.
pub open spec fn split_char(s: Seq<char>, sep: char) -> Seq<Seq<char>>
    decreases s.len(),
{
    if s.len() == 0 {
        seq![Seq::<char>::empty()]
    } else {
        let r = split_char(s.drop_last(), sep);
        if s.last() == sep {
            r.push(Seq::<char>::empty())
        } else {
            r.update(r.len() - 1, r.last().push(s.last()))
        }
    }
}

/// A piece of text before one `'\n'`, without a trailing `'\r'`.
pub open spec fn strip_cr(l: Seq<char>) -> Seq<char> {
    if l.len() > 0 && l.last() == '\r' {
        l.drop_last()
    } else {
        l
    }
}

/// All pieces but the last one, each without a trailing `'\r'`.
pub open spec fn strip_cr_all(ls: Seq<Seq<char>>) -> Seq<Seq<char>>
    decreases ls.len(),
{
    if ls.len() == 0 {
        ls
    } else {
        strip_cr_all(ls.drop_last()).push(strip_cr(ls.last()))
    }
}

/// `str::lines`: pieces between `'\n'`, a `'\r'` before a `'\n'` removed, and no
/// empty final piece after a final `'\n'`.
pub open spec fn lines_of(s: Seq<char>) -> Seq<Seq<char>> {
    let p = split_char(s, '\n');
    let body = strip_cr_all(p.drop_last());
    if p.last().len() == 0 {
        body
    } else {
        body.push(p.last())
    }
}

/// `join(sep)` of a list of texts.
pub open spec fn join(ls: Seq<Seq<char>>, sep: Seq<char>) -> Seq<char>
    decreases ls.len(),
{
    if ls.len() == 0 {
        Seq::<char>::empty()
    } else if ls.len() == 1 {
        ls[0]
    } else {
        join(ls.drop_last(), sep) + sep + ls.last()
    }
}

/// Concatenation of a list of texts.
pub open spec fn concat(ls: Seq<Seq<char>>) -> Seq<char>
    decreases ls.len(),
{
    if ls.len() == 0 {
        Seq::<char>::empty()
    } else {
        concat(ls.drop_last()) + ls.last()
    }
}

/// `str::split(p)` for a non-empty pattern: the pieces between non-overlapping
/// left-to-right occurrences of `p`.
pub open spec fn split_str(s: Seq<char>, p: Seq<char>) -> Seq<Seq<char>>
    decreases s.len(),
{
    if p.len() == 0 {
        seq![s]
    } else {
        match find(s, p) {
            None => seq![s],
            Some(i) => {
                if 0 <= i && i + p.len() <= s.len() {
                    seq![s.take(i)] + split_str(s.skip(i + p.len()), p)
                } else {
                    seq![s]
                }
            },
        }
    }
}

/// Text before the first occurrence of `p` (all of `s` when `p` does not occur).
pub open spec fn before(s: Seq<char>, p: Seq<char>) -> Seq<char> {
    match find(s, p) {
        Some(i) => s.take(i),
        None => s,
    }
}

/// Upper-case hexadecimal digit of `d < 16`.
pub open spec fn hex_digit(d: nat) -> char {
    seq!['0', '1', '2', '3', '4', '5', '6', '7', '8', '9', 'A', 'B', 'C', 'D', 'E', 'F'][d as int]
}

/// `format!("{:X}", n)`.
pub open spec fn hex_upper(n: nat) -> Seq<char>
    decreases n,
{
    if n < 16 {
        seq![hex_digit(n)]
    } else {
        hex_upper(n / 16).push(hex_digit(n % 16))
    }
}

/// Decimal digit of `d < 10`.
pub open spec fn dec_digit(d: nat) -> char {
    seq!['0', '1', '2', '3', '4', '5', '6', '7', '8', '9'][d as int]
}

/// `format!("{}", n)` of a non-negative integer.
pub open spec fn dec_nat(n: nat) -> Seq<char>
    decreases n,
{
    if n < 10 {
        seq![dec_digit(n)]
    } else {
        dec_nat(n / 10).push(dec_digit(n % 10))
    }
}

/// `format!("{}", i)` of an integer.
pub open spec fn dec_int(i: int) -> Seq<char> {
    if i < 0 {
        seq!['-'] + dec_nat((-i) as nat)
    } else {
        dec_nat(i as nat)
    }
}

/// Value of the hexadecimal digit `c`, either case.
pub open spec fn hex_value(c: char) -> Option<nat> {
    let u = c as u32;
    if 48 <= u <= 57 {
        Some((u - 48) as nat)
    } else if 65 <= u <= 70 {
        Some((u - 55) as nat)
    } else if 97 <= u <= 102 {
        Some((u - 87) as nat)
    } else {
        None
    }
}

/// Value of a sequence of hexadecimal digits (None on a non-digit).
pub open spec fn hex_digits_value(s: Seq<char>) -> Option<nat>
    decreases s.len(),
{
    if s.len() == 0 {
        Some(0)
    } else {
        match (hex_digits_value(s.drop_last()), hex_value(s.last())) {
            (Some(a), Some(d)) => Some(a * 16 + d),
            _ => None,
        }
    }
}

/// `u32::from_str_radix(s, 16)`: an optional `+`, then one or more hexadecimal
/// digits whose value fits in `u32`.
pub open spec fn parse_hex_u32(s: Seq<char>) -> Option<u32> {
    let digits = if s.len() > 0 && s[0] == '+' { s.drop_first() } else { s };
    if digits.len() == 0 {
        None
    } else {
        match hex_digits_value(digits) {
            Some(v) => if v <= u32::MAX { Some(v as u32) } else { None },
            None => None,
        }
    }
}

/// Value of a decimal digit.
pub open spec fn dec_value(c: char) -> Option<nat> {
    let u = c as u32;
    if 48 <= u <= 57 {
        Some((u - 48) as nat)
    } else {
        None
    }
}

/// Value of a sequence of decimal digits (None on a non-digit).
pub open spec fn dec_digits_value(s: Seq<char>) -> Option<nat>
    decreases s.len(),
{
    if s.len() == 0 {
        Some(0)
    } else {
        match (dec_digits_value(s.drop_last()), dec_value(s.last())) {
            (Some(a), Some(d)) => Some(a * 10 + d),
            _ => None,
        }
    }
}

/// `s.parse::<i32>()`: an optional sign, then one or more decimal digits whose
/// value fits in `i32`.
pub open spec fn parse_i32(s: Seq<char>) -> Option<i32> {
    let neg = s.len() > 0 && s[0] == '-';
    let digits = if s.len() > 0 && (s[0] == '+' || s[0] == '-') { s.drop_first() } else { s };
    if digits.len() == 0 {
        None
    } else {
        match dec_digits_value(digits) {
            Some(v) => {
                let x: int = if neg { -(v as int) } else { v as int };
                if i32::MIN <= x <= i32::MAX { Some(x as i32) } else { None }
            },
            None => None,
        }
    }
}

/// `usize` parse of a text: one or more decimal digits (an optional `+`) fitting in `usize`.
pub open spec fn parse_usize(s: Seq<char>) -> Option<usize> {
    let digits = if s.len() > 0 && s[0] == '+' { s.drop_first() } else { s };
    if digits.len() == 0 {
        None
    } else {
        match dec_digits_value(digits) {
            Some(v) => if v <= usize::MAX { Some(v as usize) } else { None },
            None => None,
        }
    }
}

/// Views of a list of character vectors.
pub open spec fn views(v: Seq<Vec<char>>) -> Seq<Seq<char>> {
    Seq::new(v.len(), |i: int| v[i]@)
}

// ---------------------------------------------------------------------------
// Lemmas
// ---------------------------------------------------------------------------

pub proof fn lemma_trim_start_skip(s: Seq<char>, a: int)
    requires
        0 <= a <= s.len(),
        forall|k: int| 0 <= k < a ==> is_ws(#[trigger] s[k]),
    ensures
        trim_start(s) == trim_start(s.skip(a)),
    decreases a,
{
    if a > 0 {
        assert(s.skip(1) == s.drop_first());
        lemma_trim_start_skip(s.drop_first(), a - 1);
        assert(s.drop_first().skip(a - 1) == s.skip(a));
    } else {
        assert(s.skip(0) == s);
    }
}

proof fn lemma_trim_start_nonblank(s: Seq<char>, k: int)
    requires
        0 <= k < s.len(),
        !is_ws(s[k]),
    ensures
        trim_start(s).len() > 0,
        !is_ws(trim_start(s)[0]),
    decreases s.len(),
{
    if is_ws(s[0]) {
        lemma_trim_start_nonblank(s.drop_first(), k - 1);
    }
}

proof fn lemma_trim_end_nonblank(t: Seq<char>)
    requires
        t.len() > 0,
        !is_ws(t[0]),
    ensures
        trim_end(t).len() > 0,
    decreases t.len(),
{
    if is_ws(t.last()) {
        lemma_trim_end_nonblank(t.drop_last());
    }
}

/// A text with a character that is not white space does not trim to nothing.
pub proof fn lemma_trim_nonblank(s: Seq<char>, k: int)
    requires
        0 <= k < s.len(),
        !is_ws(s[k]),
    ensures
        trim(s).len() > 0,
{
    lemma_trim_start_nonblank(s, k);
    lemma_trim_end_nonblank(trim_start(s));
}

pub proof fn lemma_trim_end_take(s: Seq<char>, b: int)
    requires
        0 <= b <= s.len(),
        forall|k: int| b <= k < s.len() ==> is_ws(#[trigger] s[k]),
    ensures
        trim_end(s) == trim_end(s.take(b)),
    decreases s.len() - b,
{
    if b < s.len() {
        lemma_trim_end_take(s.drop_last(), b);
        assert(s.drop_last().take(b) == s.take(b));
    } else {
        assert(s.take(b) == s);
    }
}

pub proof fn lemma_find_from_none(s: Seq<char>, p: Seq<char>, i: int)
    requires
        0 <= i,
        find_from(s, p, i) is None,
    ensures
        forall|j: int| i <= j ==> !occurs_at(s, p, j),
    decreases s.len() + 1 - i,
{
    if i + p.len() <= s.len() {
        lemma_find_from_none(s, p, i + 1);
    }
}

pub proof fn lemma_find_from_some(s: Seq<char>, p: Seq<char>, i: int)
    requires
        0 <= i,
        find_from(s, p, i) is Some,
    ensures
        occurs_at(s, p, find_from(s, p, i)->0),
        i <= find_from(s, p, i)->0,
        forall|j: int| i <= j < find_from(s, p, i)->0 ==> !occurs_at(s, p, j),
    decreases s.len() + 1 - i,
{
    if i + p.len() <= s.len() && !occurs_at(s, p, i) {
        lemma_find_from_some(s, p, i + 1);
    }
}

/// With no occurrence of `p` in `[i, k)`, searching from `i` finds what
/// searching from `k` finds.
pub proof fn lemma_find_from_past(s: Seq<char>, p: Seq<char>, i: int, k: int)
    requires
        0 <= i <= k,
        forall|j: int| i <= j < k ==> !occurs_at(s, p, j),
    ensures
        find_from(s, p, i) == find_from(s, p, k),
    decreases k - i,
{
    if i < k {
        lemma_find_from_past(s, p, i + 1, k);
        assert(find_from(s, p, i) == find_from(s, p, i + 1));
    }
}

/// An occurrence of `p` at `j` is found from anywhere at or before `j`.
pub proof fn lemma_occurrence_found(s: Seq<char>, p: Seq<char>, i: int, j: int)
    requires
        0 <= i <= j,
        occurs_at(s, p, j),
    ensures
        find_from(s, p, i) is Some,
{
    if find_from(s, p, i) is None {
        lemma_find_from_none(s, p, i);
    }
}

proof fn lemma_dec_digit(d: nat)
    requires
        d < 10,
    ensures
        dec_value(dec_digit(d)) == Some(d),
        '0' <= dec_digit(d) <= '9',
{
    if d == 0 {
    } else if d == 1 {
    } else if d == 2 {
    } else if d == 3 {
    } else if d == 4 {
    } else if d == 5 {
    } else if d == 6 {
    } else if d == 7 {
    } else if d == 8 {
    } else {
        assert(d == 9);
    }
}

/// The decimal text of `n` is one or more digits whose value is `n`.
pub proof fn lemma_dec_nat_digits(n: nat)
    ensures
        dec_nat(n).len() >= 1,
        forall|i: int| 0 <= i < dec_nat(n).len() ==> '0' <= #[trigger] dec_nat(n)[i] <= '9',
        dec_digits_value(dec_nat(n)) == Some(n),
    decreases n,
{
    if n < 10 {
        lemma_dec_digit(n);
        let s = dec_nat(n);
        assert(s.drop_last() =~= Seq::<char>::empty());
        assert(dec_digits_value(Seq::<char>::empty()) == Some(0nat));
        assert(dec_digits_value(s) == Some(0nat * 10 + n));
    } else {
        lemma_dec_nat_digits(n / 10);
        lemma_dec_digit(n % 10);
        let s = dec_nat(n);
        assert(s.drop_last() =~= dec_nat(n / 10));
        assert(s.last() == dec_digit(n % 10));
        assert(forall|i: int| 0 <= i < s.len() - 1 ==> s[i] == dec_nat(n / 10)[i]);
        assert(n == (n / 10) * 10 + n % 10);
        assert(dec_digits_value(s) == Some((n / 10) * 10 + n % 10));
    }
}

/// The decimal text of a `usize` parses back to it.
pub proof fn lemma_parse_dec_usize(n: usize)
    ensures
        parse_usize(dec_nat(n as nat)) == Some(n),
{
    lemma_dec_nat_digits(n as nat);
    let s = dec_nat(n as nat);
    assert('0' <= s[0] <= '9');
}

pub proof fn lemma_split_char_len(s: Seq<char>, sep: char)
    ensures
        split_char(s, sep).len() >= 1,
    decreases s.len(),
{
    if s.len() > 0 {
        lemma_split_char_len(s.drop_last(), sep);
    }
}


pub proof fn lemma_find_skip(s: Seq<char>, p: Seq<char>, a: int, j: int)
    requires
        0 <= a <= s.len(),
        0 <= j,
    ensures
        find_from(s.skip(a), p, j) == (match find_from(s, p, a + j) {
            Some(i) => Some(i - a),
            None => None,
        }),
    decreases s.len() + 1 - (a + j),
{
    let t = s.skip(a);
    if j + p.len() <= t.len() {
        assert(t.subrange(j, j + p.len()) == s.subrange(a + j, a + j + p.len()));
        if !occurs_at(t, p, j) {
            lemma_find_skip(s, p, a, j + 1);
        }
    }
}

pub proof fn lemma_strip_cr_all_step(t: Seq<Seq<char>>, k: int)
    requires
        0 <= k < t.len(),
    ensures
        strip_cr_all(t.take(k + 1)) == strip_cr_all(t.take(k)).push(strip_cr(t[k])),
{
    assert(t.take(k + 1).drop_last() == t.take(k));
}

pub proof fn lemma_strip_cr_all_len(t: Seq<Seq<char>>)
    ensures
        strip_cr_all(t).len() == t.len(),
    decreases t.len(),
{
    if t.len() > 0 {
        lemma_strip_cr_all_len(t.drop_last());
    }
}

pub proof fn lemma_join_step(t: Seq<Seq<char>>, sep: Seq<char>, k: int)
    requires
        0 <= k < t.len(),
    ensures
        join(t.take(k + 1), sep) == if k == 0 {
            t[0]
        } else {
            join(t.take(k), sep) + sep + t[k]
        },
{
    assert(t.take(k + 1).drop_last() == t.take(k));
}

pub proof fn lemma_concat_step(t: Seq<Seq<char>>, k: int)
    requires
        0 <= k < t.len(),
    ensures
        concat(t.take(k + 1)) == concat(t.take(k)) + t[k],
{
    assert(t.take(k + 1).drop_last() == t.take(k));
}

pub proof fn lemma_hex_prefix_le(s: Seq<char>, k: int)
    requires
        0 <= k <= s.len(),
        hex_digits_value(s) is Some,
    ensures
        hex_digits_value(s.take(k)) is Some,
        hex_digits_value(s.take(k))->0 <= hex_digits_value(s)->0,
    decreases s.len(),
{
    if k < s.len() {
        lemma_hex_prefix_le(s.drop_last(), k);
        assert(s.drop_last().take(k) == s.take(k));
    } else {
        assert(s.take(k) == s);
    }
}

pub proof fn lemma_dec_prefix_le(s: Seq<char>, k: int)
    requires
        0 <= k <= s.len(),
        dec_digits_value(s) is Some,
    ensures
        dec_digits_value(s.take(k)) is Some,
        dec_digits_value(s.take(k))->0 <= dec_digits_value(s)->0,
    decreases s.len(),
{
    if k < s.len() {
        lemma_dec_prefix_le(s.drop_last(), k);
        assert(s.drop_last().take(k) == s.take(k));
    } else {
        assert(s.take(k) == s);
    }
}

pub proof fn lemma_hex_upper_len(n: nat)
    ensures
        hex_upper(n).len() >= 1,
        n >= 16 ==> hex_upper(n).len() >= 2,
        n >= 256 ==> hex_upper(n).len() >= 3,
        n >= 4096 ==> hex_upper(n).len() >= 4,
    decreases n,
{
    if n >= 16 {
        lemma_hex_upper_len(n / 16);
        assert(hex_upper(n).len() == hex_upper(n / 16).len() + 1);
    }
}

pub proof fn lemma_hex_digit_value(d: nat)
    requires
        d < 16,
    ensures
        hex_value(hex_digit(d)) == Some(d),
{
    if d == 0 {
        assert(hex_digit(d) == '0');
    }
    else if d == 1 {
        assert(hex_digit(d) == '1');
    }
    else if d == 2 {
        assert(hex_digit(d) == '2');
    }
    else if d == 3 {
        assert(hex_digit(d) == '3');
    }
    else if d == 4 {
        assert(hex_digit(d) == '4');
    }
    else if d == 5 {
        assert(hex_digit(d) == '5');
    }
    else if d == 6 {
        assert(hex_digit(d) == '6');
    }
    else if d == 7 {
        assert(hex_digit(d) == '7');
    }
    else if d == 8 {
        assert(hex_digit(d) == '8');
    }
    else if d == 9 {
        assert(hex_digit(d) == '9');
    }
    else if d == 10 {
        assert(hex_digit(d) == 'A');
    }
    else if d == 11 {
        assert(hex_digit(d) == 'B');
    }
    else if d == 12 {
        assert(hex_digit(d) == 'C');
    }
    else if d == 13 {
        assert(hex_digit(d) == 'D');
    }
    else if d == 14 {
        assert(hex_digit(d) == 'E');
    }
    else if d == 15 {
        assert(hex_digit(d) == 'F');
    }
}

pub proof fn lemma_hex_digit_injective(a: nat, b: nat)
    requires
        a < 16,
        b < 16,
        hex_digit(a) == hex_digit(b),
    ensures
        a == b,
{
    lemma_hex_digit_value(a);
    lemma_hex_digit_value(b);
}

/// `format!("{:X}", _)` never gives the same text for two different numbers.
pub proof fn lemma_hex_upper_injective(a: nat, b: nat)
    requires
        hex_upper(a) == hex_upper(b),
    ensures
        a == b,
    decreases a + b,
{
    if a < 16 && b < 16 {
        assert(hex_upper(a) == seq![hex_digit(a)]);
        assert(hex_upper(b) == seq![hex_digit(b)]);
        assert(seq![hex_digit(a)][0] == hex_digit(a));
        assert(seq![hex_digit(b)][0] == hex_digit(b));
        assert(hex_upper(a)[0] == hex_upper(b)[0]);
        lemma_hex_digit_injective(a, b);
    } else if a < 16 {
        lemma_hex_upper_len(b / 16);
        assert(hex_upper(b).len() >= 2);
    } else if b < 16 {
        lemma_hex_upper_len(a / 16);
        assert(hex_upper(a).len() >= 2);
    } else {
        let ha = hex_upper(a);
        let hb = hex_upper(b);
        assert(ha.last() == hex_digit(a % 16));
        assert(hb.last() == hex_digit(b % 16));
        lemma_hex_digit_injective(a % 16, b % 16);
        assert(ha.drop_last() == hex_upper(a / 16));
        assert(hb.drop_last() == hex_upper(b / 16));
        lemma_hex_upper_injective(a / 16, b / 16);
    }
}

/// Hexadecimal digits contain no white space.
pub proof fn lemma_hex_upper_no_ws(n: nat)
    ensures
        forall|k: int| 0 <= k < hex_upper(n).len() ==> !is_ws(#[trigger] hex_upper(n)[k]),
    decreases n,
{
    if n >= 16 {
        lemma_hex_upper_no_ws(n / 16);
        let h = hex_upper(n);
        assert forall|k: int| 0 <= k < h.len() implies !is_ws(#[trigger] h[k]) by {
            if k < h.len() - 1 {
                assert(h[k] == hex_upper(n / 16)[k]);
            }
        }
    }
}

/// A text without white space is its own trim.
pub proof fn lemma_trim_no_ws(s: Seq<char>)
    requires
        forall|k: int| 0 <= k < s.len() ==> !is_ws(#[trigger] s[k]),
    ensures
        trim(s) == s,
{
    if s.len() > 0 {
        assert(!is_ws(s[0]));
        assert(!is_ws(s.last()));
    }
}

// ---------------------------------------------------------------------------
// Executable helpers
// ---------------------------------------------------------------------------

/// Collects the characters of `s` in order.
pub fn str_chars(s: &str) -> (out: Vec<char>)
    ensures
        out@ == s@,
{
    let mut out: Vec<char> = Vec::new();
    for c in it: s.chars()
        invariant
            out@ == it.seq().take(it.index() as int),
            it.seq() == s@,
    {
        out.push(c);
    }
    out
}

/// `String::from_iter` over characters: a `String` holding exactly the
/// characters of `cs`, in order.
#[verifier::external_body]
pub(crate) fn string_from_chars(cs: &Vec<char>) -> (s: String)
    ensures
        s@ == cs@,
{
    String::from_iter(cs.iter())
}

/// `char::is_whitespace`.
pub fn is_whitespace(c: char) -> (b: bool)
    ensures
        b == is_ws(c),
{
    let u = c as u32;
    (9 <= u && u <= 13) || u == 32 || u == 0x85 || u == 0xA0 || u == 0x1680 || (0x2000 <= u && u
        <= 0x200A) || u == 0x2028 || u == 0x2029 || u == 0x202F || u == 0x205F || u == 0x3000
}

/// Bounds of `trim(s[lo..hi])` inside `s`.
pub fn trim_bounds(s: &Vec<char>, lo: usize, hi: usize) -> (r: (usize, usize))
    requires
        lo <= hi <= s@.len(),
    ensures
        lo <= r.0 <= r.1 <= hi,
        s@.subrange(r.0 as int, r.1 as int) == trim(s@.subrange(lo as int, hi as int)),
{
    let mut a = lo;
    while a < hi && is_whitespace(s[a])
        invariant
            lo <= a <= hi <= s@.len(),
            forall|k: int| lo <= k < a ==> is_ws(#[trigger] s@[k]),
        decreases hi - a,
    {
        a += 1;
    }
    let ghost full = s@.subrange(lo as int, hi as int);
    proof {
        assert forall|k: int| 0 <= k < a - lo implies is_ws(#[trigger] full[k]) by {
            assert(full[k] == s@[lo + k]);
        }
        lemma_trim_start_skip(full, a - lo);
        assert(full.skip(a - lo) == s@.subrange(a as int, hi as int));
        let rest = s@.subrange(a as int, hi as int);
        if rest.len() > 0 {
            assert(rest[0] == s@[a as int]);
        }
        assert(trim_start(rest) == rest);
    }
    let mut b = hi;
    while b > a && is_whitespace(s[b - 1])
        invariant
            lo <= a <= b <= hi <= s@.len(),
            forall|k: int| b <= k < hi ==> is_ws(#[trigger] s@[k]),
        decreases b - a,
    {
        b -= 1;
    }
    proof {
        let rest = s@.subrange(a as int, hi as int);
        assert forall|k: int| b - a <= k < rest.len() implies is_ws(#[trigger] rest[k]) by {
            assert(rest[k] == s@[a + k]);
        }
        lemma_trim_end_take(rest, b - a);
        let t = rest.take(b - a);
        assert(t == s@.subrange(a as int, b as int));
        if t.len() > 0 {
            assert(t.last() == s@[b - 1]);
        }
        assert(trim_end(t) == t);
    }
    (a, b)
}

/// `trim` of a whole character vector, as a new vector.
pub fn trim_vec(s: &Vec<char>) -> (out: Vec<char>)
    ensures
        out@ == trim(s@),
{
    let (a, b) = trim_bounds(s, 0, s.len());
    assert(s@.subrange(0, s@.len() as int) == s@);
    slice_vec(s, a, b)
}

/// Copy of `s[a..b]`.
pub fn slice_vec(s: &Vec<char>, a: usize, b: usize) -> (out: Vec<char>)
    requires
        a <= b <= s@.len(),
    ensures
        out@ == s@.subrange(a as int, b as int),
{
    let mut out: Vec<char> = Vec::new();
    let mut k = a;
    while k < b
        invariant
            a <= k <= b <= s@.len(),
            out@ == s@.subrange(a as int, k as int),
        decreases b - k,
    {
        out.push(s[k]);
        k += 1;
        assert(out@ == s@.subrange(a as int, k as int));
    }
    out
}

/// Appends all of `s` to `out`.
pub fn push_all(out: &mut Vec<char>, s: &Vec<char>)
    ensures
        final(out)@ == old(out)@ + s@,
{
    let mut k: usize = 0;
    while k < s.len()
        invariant
            k <= s@.len(),
            out@ == old(out)@ + s@.take(k as int),
        decreases s@.len() - k,
    {
        out.push(s[k]);
        k += 1;
        assert(out@ == old(out)@ + s@.take(k as int));
    }
    assert(s@.take(s@.len() as int) == s@);
}

/// Appends all of the text `s` to `out`.
pub fn push_str(out: &mut Vec<char>, s: &str)
    ensures
        final(out)@ == old(out)@ + s@,
{
    let v = str_chars(s);
    push_all(out, &v);
}

/// Equality of two character vectors.
pub fn vec_eq(a: &Vec<char>, b: &Vec<char>) -> (r: bool)
    ensures
        r == (a@ == b@),
{
    if a.len() != b.len() {
        return false;
    }
    let mut k: usize = 0;
    while k < a.len()
        invariant
            a@.len() == b@.len(),
            k <= a@.len(),
            forall|j: int| 0 <= j < k ==> a@[j] == b@[j],
        decreases a@.len() - k,
    {
        if a[k] != b[k] {
            return false;
        }
        k += 1;
    }
    assert(a@ == b@);
    true
}

/// Whether `s[lo..hi]` equals `p`.
pub fn range_eq(s: &Vec<char>, lo: usize, hi: usize, p: &Vec<char>) -> (r: bool)
    requires
        lo <= hi <= s@.len(),
    ensures
        r == (s@.subrange(lo as int, hi as int) == p@),
{
    if hi - lo != p.len() {
        return false;
    }
    let mut k: usize = 0;
    while k < p.len()
        invariant
            hi - lo == p@.len(),
            lo <= hi <= s@.len(),
            k <= p@.len(),
            forall|j: int| 0 <= j < k ==> s@[lo + j] == p@[j],
        decreases p@.len() - k,
    {
        if s[lo + k] != p[k] {
            return false;
        }
        k += 1;
    }
    assert(s@.subrange(lo as int, hi as int) == p@);
    true
}

/// Whether `p` occurs in `s` at index `i`.
pub fn occurs_at_exec(s: &Vec<char>, p: &Vec<char>, i: usize) -> (r: bool)
    ensures
        r == occurs_at(s@, p@, i as int),
{
    if i > s.len() || p.len() > s.len() - i {
        return false;
    }
    range_eq(s, i, i + p.len(), p)
}

/// First index `>= from` at which `p` occurs in `s`.
pub fn find_from_exec(s: &Vec<char>, p: &Vec<char>, from: usize) -> (r: Option<usize>)
    ensures
        match r {
            Some(i) => find_from(s@, p@, from as int) == Some(i as int),
            None => find_from(s@, p@, from as int) is None,
        },
{
    let mut i = from;
    while i <= s.len() && p.len() <= s.len() - i
        invariant
            from <= i,
            find_from(s@, p@, from as int) == find_from(s@, p@, i as int),
        decreases s@.len() - i,
    {
        if occurs_at_exec(s, p, i) {
            return Some(i);
        }
        if i == s.len() {
            proof {
                assert(s@.subrange(i as int, i as int) =~= p@);
            }
            return None;
        }
        i += 1;
    }
    None
}

/// Whether `p` occurs in `s`.
pub fn contains_exec(s: &Vec<char>, p: &Vec<char>) -> (r: bool)
    ensures
        r == contains(s@, p@),
{
    find_from_exec(s, p, 0).is_some()
}

/// Whether `s` starts with `p`.
pub fn starts_with_exec(s: &Vec<char>, p: &Vec<char>) -> (r: bool)
    ensures
        r == starts_with(s@, p@),
{
    if p.len() > s.len() {
        return false;
    }
    range_eq(s, 0, p.len(), p)
}


/// `str::split` on a single character.
pub fn split_char_exec(s: &Vec<char>, sep: char) -> (out: Vec<Vec<char>>)
    ensures
        views(out@) == split_char(s@, sep),
{
    let mut pieces: Vec<Vec<char>> = Vec::new();
    let mut cur: Vec<char> = Vec::new();
    let mut i: usize = 0;
    assert(s@.take(0) == Seq::<char>::empty());
    assert(views(pieces@).push(cur@) == split_char(s@.take(0), sep));
    while i < s.len()
        invariant
            i <= s@.len(),
            views(pieces@).push(cur@) == split_char(s@.take(i as int), sep),
        decreases s@.len() - i,
    {
        let c = s[i];
        let ghost prev = split_char(s@.take(i as int), sep);
        assert(s@.take(i + 1).drop_last() == s@.take(i as int));
        assert(s@.take(i + 1).last() == c);
        if c == sep {
            let done = cur;
            pieces.push(done);
            cur = Vec::new();
            assert(views(pieces@).push(cur@) == prev.push(Seq::<char>::empty()));
        } else {
            cur.push(c);
            assert(views(pieces@).push(cur@) == prev.update(prev.len() - 1, prev.last().push(c)));
        }
        i += 1;
    }
    assert(s@.take(s@.len() as int) == s@);
    pieces.push(cur);
    proof {
        assert(views(pieces@) == split_char(s@, sep));
    }
    pieces
}

/// `str::lines`.
pub fn lines_exec(s: &Vec<char>) -> (out: Vec<Vec<char>>)
    ensures
        views(out@) == lines_of(s@),
{
    let p = split_char_exec(s, '\n');
    proof {
        lemma_split_char_len(s@, '\n');
    }
    let n = p.len();
    let ghost t = views(p@).drop_last();
    let mut out: Vec<Vec<char>> = Vec::new();
    let mut k: usize = 0;
    assert(t.take(0) == Seq::<Seq<char>>::empty());
    while k + 1 < n
        invariant
            n == p@.len(),
            n >= 1,
            k + 1 <= n,
            t == views(p@).drop_last(),
            views(out@) == strip_cr_all(t.take(k as int)),
        decreases n - k,
    {
        let line = &p[k];
        let len = line.len();
        let piece = if len > 0 && line[len - 1] == '\r' {
            slice_vec(line, 0, len - 1)
        } else {
            slice_vec(line, 0, len)
        };
        proof {
            lemma_strip_cr_all_step(t, k as int);
            assert(t[k as int] == line@);
            assert(line@.subrange(0, len as int) == line@);
            if len > 0 {
                assert(line@.drop_last() == line@.subrange(0, len - 1));
            }
        }
        out.push(piece);
        k += 1;
        assert(views(out@) == strip_cr_all(t.take(k as int)));
    }
    assert(t.take(k as int) == t);
    let last = &p[n - 1];
    assert(last@ == views(p@).last());
    if last.len() > 0 {
        let c = slice_vec(last, 0, last.len());
        assert(last@.subrange(0, last@.len() as int) == last@);
        out.push(c);
    }
    proof {
        assert(views(out@) == lines_of(s@));
    }
    out
}

/// `join(sep)` of a list of character vectors.
pub fn join_exec(ls: &Vec<Vec<char>>, sep: &Vec<char>) -> (out: Vec<char>)
    ensures
        out@ == join(views(ls@), sep@),
{
    let ghost t = views(ls@);
    let mut out: Vec<char> = Vec::new();
    let mut k: usize = 0;
    assert(t.take(0) == Seq::<Seq<char>>::empty());
    while k < ls.len()
        invariant
            k <= ls@.len(),
            t == views(ls@),
            out@ == join(t.take(k as int), sep@),
        decreases ls@.len() - k,
    {
        proof {
            lemma_join_step(t, sep@, k as int);
        }
        if k > 0 {
            push_all(&mut out, sep);
        }
        push_all(&mut out, &ls[k]);
        k += 1;
    }
    assert(t.take(ls@.len() as int) == t);
    out
}

/// Concatenation of a list of character vectors.
pub fn concat_exec(ls: &Vec<Vec<char>>) -> (out: Vec<char>)
    ensures
        out@ == concat(views(ls@)),
{
    let ghost t = views(ls@);
    let mut out: Vec<char> = Vec::new();
    let mut k: usize = 0;
    assert(t.take(0) == Seq::<Seq<char>>::empty());
    while k < ls.len()
        invariant
            k <= ls@.len(),
            t == views(ls@),
            out@ == concat(t.take(k as int)),
        decreases ls@.len() - k,
    {
        proof {
            lemma_concat_step(t, k as int);
        }
        push_all(&mut out, &ls[k]);
        k += 1;
    }
    assert(t.take(ls@.len() as int) == t);
    out
}

/// `str::split` on a non-empty pattern.
pub fn split_str_exec(s: &Vec<char>, p: &Vec<char>) -> (out: Vec<Vec<char>>)
    requires
        p@.len() > 0,
    ensures
        views(out@) == split_str(s@, p@),
{
    let mut out: Vec<Vec<char>> = Vec::new();
    let mut start: usize = 0;
    let slen = s.len();
    assert(s@.skip(0) == s@);
    loop
        invariant
            slen == s@.len(),
            p@.len() > 0,
            start <= s@.len(),
            views(out@) + split_str(s@.skip(start as int), p@) == split_str(s@, p@),
        decreases s@.len() - start,
    {
        let ghost rest = s@.skip(start as int);
        proof {
            lemma_find_skip(s@, p@, start as int, 0);
        }
        match find_from_exec(s, p, start) {
            Some(i) => {
                proof {
                    lemma_find_from_some(s@, p@, start as int);
                    assert(occurs_at(s@, p@, i as int));
                    assert(rest.take(i - start) == s@.subrange(start as int, i as int));
                    assert(rest.skip(i - start + p@.len()) == s@.skip(i + p@.len()));
                }
                let piece = slice_vec(s, start, i);
                out.push(piece);
                start = i + p.len();
            },
            None => {
                assert(rest == s@.subrange(start as int, s@.len() as int));
                let piece = slice_vec(s, start, s.len());
                out.push(piece);
                return out;
            },
        }
    }
}

/// Hexadecimal digit character.
fn hex_digit_exec(d: u128) -> (c: char)
    requires
        d < 16,
    ensures
        c == hex_digit(d as nat),
{
    let t = ['0', '1', '2', '3', '4', '5', '6', '7', '8', '9', 'A', 'B', 'C', 'D', 'E', 'F'];
    t[d as usize]
}

/// `format!("{:X}", n)`.
pub fn hex_upper_exec(n: u128) -> (out: Vec<char>)
    ensures
        out@ == hex_upper(n as nat),
    decreases n,
{
    if n < 16 {
        let mut v: Vec<char> = Vec::new();
        v.push(hex_digit_exec(n));
        v
    } else {
        let mut v = hex_upper_exec(n / 16);
        v.push(hex_digit_exec(n % 16));
        v
    }
}

/// `format!("{}", n)`.
pub fn dec_u64_exec(n: u64) -> (out: Vec<char>)
    ensures
        out@ == dec_nat(n as nat),
    decreases n,
{
    let t = ['0', '1', '2', '3', '4', '5', '6', '7', '8', '9'];
    let d = t[(n % 10) as usize];
    if n < 10 {
        let mut v: Vec<char> = Vec::new();
        v.push(d);
        v
    } else {
        let mut v = dec_u64_exec(n / 10);
        v.push(d);
        v
    }
}

/// `format!("{}", n)` of a signed number.
pub fn dec_i64_exec(n: i64) -> (out: Vec<char>)
    ensures
        out@ == dec_int(n as int),
{
    if n < 0 {
        let m: u64 = (-(n as i128)) as u64;
        let mut v: Vec<char> = Vec::new();
        v.push('-');
        let d = dec_u64_exec(m);
        push_all(&mut v, &d);
        v
    } else {
        dec_u64_exec(n as u64)
    }
}

/// `u32::from_str_radix(s, 16)`.
pub fn parse_hex_u32_exec(s: &Vec<char>) -> (r: Option<u32>)
    ensures
        r == parse_hex_u32(s@),
{
    let start: usize = if s.len() > 0 && s[0] == '+' { 1 } else { 0 };
    let ghost digits = if s@.len() > 0 && s@[0] == '+' { s@.drop_first() } else { s@ };
    assert(digits == s@.skip(start as int));
    if start == s.len() {
        return None;
    }
    let mut acc: u64 = 0;
    let mut k = start;
    assert(digits.take(0) == Seq::<char>::empty());
    while k < s.len()
        invariant
            start <= k <= s@.len(),
            digits == s@.skip(start as int),
            digits == (if s@.len() > 0 && s@[0] == '+' { s@.drop_first() } else { s@ }),
            acc <= u32::MAX,
            hex_digits_value(digits.take(k - start)) == Some(acc as nat),
        decreases s@.len() - k,
    {
        let c = s[k];
        let u = c as u32;
        let d: u64 = if 48 <= u && u <= 57 {
            (u - 48) as u64
        } else if 65 <= u && u <= 70 {
            (u - 55) as u64
        } else if 97 <= u && u <= 102 {
            (u - 87) as u64
        } else {
            proof {
                let t = digits.take(k - start + 1);
                assert(t.drop_last() == digits.take(k - start));
                assert(t.last() == c);
                assert(hex_value(c) is None);
                assert(hex_digits_value(t) is None);
                if hex_digits_value(digits) is Some {
                    lemma_hex_prefix_le(digits, k - start + 1);
                    assert(false);
                }
                assert(hex_digits_value(digits) is None);
                assert(parse_hex_u32(s@) is None);
            }
            return None;
        };
        proof {
            let t = digits.take(k - start + 1);
            assert(t.drop_last() == digits.take(k - start));
            assert(t.last() == c);
        }
        acc = acc * 16 + d;
        if acc > 0xFFFF_FFFF {
            proof {
                if hex_digits_value(digits) is Some {
                    lemma_hex_prefix_le(digits, k - start + 1);
                }
            }
            return None;
        }
        k += 1;
    }
    assert(digits.take(s@.len() - start) == digits);
    Some(acc as u32)
}

/// Parses an unsigned decimal number (an optional `+`, then digits).
pub fn parse_usize_exec(s: &Vec<char>) -> (r: Option<usize>)
    ensures
        r == parse_usize(s@),
{
    let start: usize = if s.len() > 0 && s[0] == '+' { 1 } else { 0 };
    let ghost digits = if s@.len() > 0 && s@[0] == '+' { s@.drop_first() } else { s@ };
    assert(digits == s@.skip(start as int));
    if start == s.len() {
        return None;
    }
    let mut acc: u128 = 0;
    let mut k = start;
    assert(digits.take(0) == Seq::<char>::empty());
    while k < s.len()
        invariant
            start <= k <= s@.len(),
            digits == s@.skip(start as int),
            digits == (if s@.len() > 0 && s@[0] == '+' { s@.drop_first() } else { s@ }),
            acc <= usize::MAX,
            dec_digits_value(digits.take(k - start)) == Some(acc as nat),
        decreases s@.len() - k,
    {
        let c = s[k];
        let u = c as u32;
        proof {
            let t = digits.take(k - start + 1);
            assert(t.drop_last() == digits.take(k - start));
            assert(t.last() == c);
        }
        if !(48 <= u && u <= 57) {
            proof {
                if dec_digits_value(digits) is Some {
                    lemma_dec_prefix_le(digits, k - start + 1);
                }
            }
            return None;
        }
        let d: u128 = (u - 48) as u128;
        acc = acc * 10 + d;
        if acc > usize::MAX as u128 {
            proof {
                if dec_digits_value(digits) is Some {
                    lemma_dec_prefix_le(digits, k - start + 1);
                }
            }
            return None;
        }
        k += 1;
    }
    assert(digits.take(s@.len() - start) == digits);
    Some(acc as usize)
}

/// `s.parse::<i32>()`.
pub fn parse_i32_exec(s: &Vec<char>) -> (r: Option<i32>)
    ensures
        r == parse_i32(s@),
{
    let neg = s.len() > 0 && s[0] == '-';
    let start: usize = if s.len() > 0 && (s[0] == '+' || s[0] == '-') { 1 } else { 0 };
    let ghost digits = if s@.len() > 0 && (s@[0] == '+' || s@[0] == '-') {
        s@.drop_first()
    } else {
        s@
    };
    assert(digits == s@.skip(start as int));
    if start == s.len() {
        return None;
    }
    let mut acc: u64 = 0;
    let mut k = start;
    assert(digits.take(0) == Seq::<char>::empty());
    while k < s.len()
        invariant
            start <= k <= s@.len(),
            digits == s@.skip(start as int),
            digits == (if s@.len() > 0 && (s@[0] == '+' || s@[0] == '-') {
                s@.drop_first()
            } else {
                s@
            }),
            neg == (s@.len() > 0 && s@[0] == '-'),
            acc <= 0x8000_0000,
            dec_digits_value(digits.take(k - start)) == Some(acc as nat),
        decreases s@.len() - k,
    {
        let c = s[k];
        let u = c as u32;
        proof {
            let t = digits.take(k - start + 1);
            assert(t.drop_last() == digits.take(k - start));
            assert(t.last() == c);
        }
        if !(48 <= u && u <= 57) {
            proof {
                if dec_digits_value(digits) is Some {
                    lemma_dec_prefix_le(digits, k - start + 1);
                }
            }
            return None;
        }
        let d: u64 = (u - 48) as u64;
        acc = acc * 10 + d;
        if acc > 0x8000_0000 {
            proof {
                if dec_digits_value(digits) is Some {
                    lemma_dec_prefix_le(digits, k - start + 1);
                }
            }
            return None;
        }
        k += 1;
    }
    assert(digits.take(s@.len() - start) == digits);
    if neg {
        Some((-(acc as i64)) as i32)
    } else if acc <= 0x7FFF_FFFF {
        Some(acc as i32)
    } else {
        None
    }
}

} // verus!
