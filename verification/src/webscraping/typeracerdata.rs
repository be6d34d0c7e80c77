//! Parsing of the ranking page's results table: a fixed ten-column row
//! grammar matched against raw markup, and per-column coercion of the
//! captured text into typed record fields.
//!
//! The grammar commits at each step: a cell opens with a cell tag whose
//! attribute text runs to the first closing angle bracket on the same line,
//! a free-text capture runs to the first closing fragment on the same line,
//! and a numeric capture is the longest run of numeric characters. Captures
//! are index ranges into the original markup; owned text is only
//! materialized once coercion succeeds.

use vstd::prelude::*;

verus! {

// ---------------------------------------------------------------------------
// Byte classes
// ---------------------------------------------------------------------------

/// A decimal digit byte.
pub open spec fn is_digit(b: u8) -> bool {
    48 <= b <= 57
}

/// A whitespace byte: space, tab, newline, vertical tab, form feed or
/// carriage return.
pub open spec fn is_ws(b: u8) -> bool {
    b == 32 || b == 9 || b == 10 || b == 11 || b == 12 || b == 13
}

/// A byte allowed in an integer cell: a digit or a thousands-separator
/// comma.
pub open spec fn is_int_char(b: u8) -> bool {
    is_digit(b) || b == 44
}

/// A byte allowed in a decimal cell: a digit, a comma or a decimal point.
pub open spec fn is_num_char(b: u8) -> bool {
    is_digit(b) || b == 44 || b == 46
}

/// The byte classes the grammar scans runs of.
#[derive(Debug, Clone, Copy, PartialEq, Eq, Structural)]
pub enum ByteClass {
    Digit,
    IntChar,
    NumChar,
    Ws,
}

/// Whether a byte belongs to a class.
pub open spec fn in_class(b: u8, class: ByteClass) -> bool {
    match class {
        ByteClass::Digit => is_digit(b),
        ByteClass::IntChar => is_int_char(b),
        ByteClass::NumChar => is_num_char(b),
        ByteClass::Ws => is_ws(b),
    }
}

/// Executable byte-class test.
fn byte_in_class(b: u8, class: ByteClass) -> (r: bool)
    ensures
        r == in_class(b, class),
{
    match class {
        ByteClass::Digit => 48 <= b && b <= 57,
        ByteClass::IntChar => (48 <= b && b <= 57) || b == 44,
        ByteClass::NumChar => (48 <= b && b <= 57) || b == 44 || b == 46,
        ByteClass::Ws => b == 32 || b == 9 || b == 10 || b == 11 || b == 12 || b == 13,
    }
}

// ---------------------------------------------------------------------------
// Grammar literals
// ---------------------------------------------------------------------------

/// The row-opening tag `<tr>`.
pub open spec fn lit_tr_open() -> Seq<u8> {
    seq![60u8, 116u8, 114u8, 62u8]
}

/// The row-closing tag `</tr>`.
pub open spec fn lit_tr_close() -> Seq<u8> {
    seq![60u8, 47u8, 116u8, 114u8, 62u8]
}

/// The start of a cell tag, `<td`.
pub open spec fn lit_td_open() -> Seq<u8> {
    seq![60u8, 116u8, 100u8]
}

/// The cell-closing tag `</td>`.
pub open spec fn lit_td_close() -> Seq<u8> {
    seq![60u8, 47u8, 116u8, 100u8, 62u8]
}

/// The start of an anchor tag, `<a`.
pub open spec fn lit_a_open() -> Seq<u8> {
    seq![60u8, 97u8]
}

/// The anchor-closing tag `</a>`.
pub open spec fn lit_a_close() -> Seq<u8> {
    seq![60u8, 47u8, 97u8, 62u8]
}

/// An anchor close followed directly by a cell close, `</a></td>`.
pub open spec fn lit_a_td_close() -> Seq<u8> {
    seq![60u8, 47u8, 97u8, 62u8, 60u8, 47u8, 116u8, 100u8, 62u8]
}

/// The rank suffix, a literal dot.
pub open spec fn lit_dot() -> Seq<u8> {
    seq![46u8]
}

/// The id prefix, a literal hash mark.
pub open spec fn lit_hash() -> Seq<u8> {
    seq![35u8]
}

/// The double-quote entity `&quot;`.
pub open spec fn lit_quot() -> Seq<u8> {
    seq![38u8, 113u8, 117u8, 111u8, 116u8, 59u8]
}

fn tr_open_bytes() -> (r: Vec<u8>)
    ensures
        r@ == lit_tr_open(),
{
    let r = vec![60u8, 116u8, 114u8, 62u8];
    proof {
        assert(r@ =~= lit_tr_open());
    }
    r
}

fn tr_close_bytes() -> (r: Vec<u8>)
    ensures
        r@ == lit_tr_close(),
{
    let r = vec![60u8, 47u8, 116u8, 114u8, 62u8];
    proof {
        assert(r@ =~= lit_tr_close());
    }
    r
}

fn td_open_bytes() -> (r: Vec<u8>)
    ensures
        r@ == lit_td_open(),
{
    let r = vec![60u8, 116u8, 100u8];
    proof {
        assert(r@ =~= lit_td_open());
    }
    r
}

fn td_close_bytes() -> (r: Vec<u8>)
    ensures
        r@ == lit_td_close(),
{
    let r = vec![60u8, 47u8, 116u8, 100u8, 62u8];
    proof {
        assert(r@ =~= lit_td_close());
    }
    r
}

fn a_open_bytes() -> (r: Vec<u8>)
    ensures
        r@ == lit_a_open(),
{
    let r = vec![60u8, 97u8];
    proof {
        assert(r@ =~= lit_a_open());
    }
    r
}

fn a_close_bytes() -> (r: Vec<u8>)
    ensures
        r@ == lit_a_close(),
{
    let r = vec![60u8, 47u8, 97u8, 62u8];
    proof {
        assert(r@ =~= lit_a_close());
    }
    r
}

fn a_td_close_bytes() -> (r: Vec<u8>)
    ensures
        r@ == lit_a_td_close(),
{
    let r = vec![60u8, 47u8, 97u8, 62u8, 60u8, 47u8, 116u8, 100u8, 62u8];
    proof {
        assert(r@ =~= lit_a_td_close());
    }
    r
}

fn dot_bytes() -> (r: Vec<u8>)
    ensures
        r@ == lit_dot(),
{
    let r = vec![46u8];
    proof {
        assert(r@ =~= lit_dot());
    }
    r
}

fn hash_bytes() -> (r: Vec<u8>)
    ensures
        r@ == lit_hash(),
{
    let r = vec![35u8];
    proof {
        assert(r@ =~= lit_hash());
    }
    r
}

fn quot_bytes() -> (r: Vec<u8>)
    ensures
        r@ == lit_quot(),
{
    let r = vec![38u8, 113u8, 117u8, 111u8, 116u8, 59u8];
    proof {
        assert(r@ =~= lit_quot());
    }
    r
}

// ---------------------------------------------------------------------------
// Scanning primitives
// ---------------------------------------------------------------------------

/// `pat` occurs in `s` starting exactly at `i`.
pub open spec fn spec_match_at(s: Seq<u8>, pat: Seq<u8>, i: int) -> bool {
    0 <= i && i + pat.len() <= s.len() && s.subrange(i, i + pat.len()) == pat
}

/// Matches `pat` exactly at `i`, giving the position just past it.
pub open spec fn spec_lit(s: Seq<u8>, pat: Seq<u8>, i: int) -> Option<int> {
    if spec_match_at(s, pat, i) {
        Some(i + pat.len())
    } else {
        None
    }
}

/// End of the maximal run of `class` bytes starting at `i`.
pub open spec fn spec_run_end(s: Seq<u8>, class: ByteClass, i: int) -> int
    decreases s.len() - i,
{
    if 0 <= i < s.len() && in_class(s[i], class) {
        spec_run_end(s, class, i + 1)
    } else {
        i
    }
}

/// Position just past the first closing angle bracket at or after `i`,
/// unless a newline comes first: attribute text never crosses a line.
pub open spec fn spec_scan_gt(s: Seq<u8>, i: int) -> Option<int>
    decreases s.len() - i,
{
    if !(0 <= i < s.len()) {
        None
    } else if s[i] == 62 {
        Some(i + 1)
    } else if s[i] == 10 {
        None
    } else {
        spec_scan_gt(s, i + 1)
    }
}

/// Start of the first occurrence of `pat` at or after `i`, unless a newline
/// comes first: a lazy capture never crosses a line.
pub open spec fn spec_scan_until(s: Seq<u8>, pat: Seq<u8>, i: int) -> Option<int>
    decreases s.len() - i,
{
    if spec_match_at(s, pat, i) {
        Some(i)
    } else if !(0 <= i < s.len()) {
        None
    } else if s[i] == 10 {
        None
    } else {
        spec_scan_until(s, pat, i + 1)
    }
}

/// A maximal run stays within the sequence and never moves backwards.
pub proof fn lemma_run_end_bounds(s: Seq<u8>, class: ByteClass, i: int)
    requires
        0 <= i <= s.len(),
    ensures
        i <= spec_run_end(s, class, i) <= s.len(),
    decreases s.len() - i,
{
    if i < s.len() && in_class(s[i], class) {
        lemma_run_end_bounds(s, class, i + 1);
    }
}

/// A successful bracket scan lands strictly past `i` and within the
/// sequence.
pub proof fn lemma_scan_gt_bounds(s: Seq<u8>, i: int)
    requires
        0 <= i,
    ensures
        spec_scan_gt(s, i) matches Some(p) ==> i < p <= s.len(),
    decreases s.len() - i,
{
    if 0 <= i < s.len() && s[i] != 62 && s[i] != 10 {
        lemma_scan_gt_bounds(s, i + 1);
    }
}

/// A successful scan lands at a real occurrence of the pattern, at or after
/// `i` and within the sequence.
pub proof fn lemma_scan_until_bounds(s: Seq<u8>, pat: Seq<u8>, i: int)
    requires
        0 <= i,
    ensures
        spec_scan_until(s, pat, i) matches Some(p)
            ==> i <= p && p + pat.len() <= s.len() && spec_match_at(s, pat, p),
    decreases s.len() - i,
{
    if !spec_match_at(s, pat, i) && 0 <= i < s.len() && s[i] != 10 {
        lemma_scan_until_bounds(s, pat, i + 1);
    }
}

/// View of an optional position as a mathematical position.
pub open spec fn opt_pos(o: Option<usize>) -> Option<int> {
    match o {
        Some(v) => Some(v as int),
        None => None,
    }
}

/// Executable test for `pat` at exactly `i`.
#[verifier::loop_isolation(false)]
fn match_at(s: &[u8], pat: &[u8], i: usize) -> (r: bool)
    requires
        i <= s@.len(),
    ensures
        r == spec_match_at(s@, pat@, i as int),
{
    let slen = s.len();
    if slen - i < pat.len() {
        return false;
    }
    let mut j: usize = 0;
    while j < pat.len()
        invariant
            0 <= j <= pat.len(),
            i + pat.len() <= s@.len(),
            forall|k: int| 0 <= k < j ==> s@[i + k] == pat@[k],
        decreases pat.len() - j,
    {
        if s[i + j] != pat[j] {
            proof {
                assert(s@.subrange(i as int, i + pat.len())[j as int] != pat@[j as int]);
            }
            return false;
        }
        j = j + 1;
    }
    proof {
        assert(s@.subrange(i as int, i + pat.len()) =~= pat@);
    }
    true
}

/// Executable literal match.
fn lit(s: &[u8], pat: &[u8], i: usize) -> (r: Option<usize>)
    requires
        i <= s@.len(),
    ensures
        opt_pos(r) == spec_lit(s@, pat@, i as int),
{
    let _slen = s.len();
    if match_at(s, pat, i) {
        Some(i + pat.len())
    } else {
        None
    }
}

/// Executable maximal-run scan.
#[verifier::loop_isolation(false)]
fn run_end(s: &[u8], class: ByteClass, i: usize) -> (r: usize)
    requires
        i <= s@.len(),
    ensures
        r == spec_run_end(s@, class, i as int),
        i <= r <= s@.len(),
{
    let mut j: usize = i;
    while j < s.len() && byte_in_class(s[j], class)
        invariant
            i <= j <= s@.len(),
            spec_run_end(s@, class, i as int) == spec_run_end(s@, class, j as int),
        decreases s.len() - j,
    {
        j = j + 1;
    }
    j
}

/// Executable bracket scan.
#[verifier::loop_isolation(false)]
fn scan_gt(s: &[u8], i: usize) -> (r: Option<usize>)
    requires
        i <= s@.len(),
    ensures
        opt_pos(r) == spec_scan_gt(s@, i as int),
        r matches Some(p) ==> i < p <= s@.len(),
    decreases s@.len() - i,
{
    proof {
        lemma_scan_gt_bounds(s@, i as int);
    }
    let mut j: usize = i;
    while j < s.len()
        invariant
            i <= j <= s@.len(),
            spec_scan_gt(s@, i as int) == spec_scan_gt(s@, j as int),
        decreases s.len() - j,
    {
        if s[j] == 62 {
            return Some(j + 1);
        }
        if s[j] == 10 {
            return None;
        }
        j = j + 1;
    }
    None
}

/// Executable lazy scan for a pattern occurrence.
#[verifier::loop_isolation(false)]
fn scan_until(s: &[u8], pat: &[u8], i: usize) -> (r: Option<usize>)
    requires
        i <= s@.len(),
    ensures
        opt_pos(r) == spec_scan_until(s@, pat@, i as int),
        r matches Some(p) ==> i <= p && p + pat@.len() <= s@.len(),
{
    proof {
        lemma_scan_until_bounds(s@, pat@, i as int);
    }
    let mut j: usize = i;
    loop
        invariant
            i <= j <= s@.len(),
            spec_scan_until(s@, pat@, i as int) == spec_scan_until(s@, pat@, j as int),
            spec_scan_until(s@, pat@, i as int) matches Some(p)
                ==> i <= p && p + pat@.len() <= s@.len(),
        decreases s@.len() - j,
    {
        if match_at(s, pat, j) {
            return Some(j);
        }
        if j >= s.len() {
            return None;
        }
        if s[j] == 10 {
            return None;
        }
        j = j + 1;
    }
}

// ---------------------------------------------------------------------------
// The ten-column row grammar
// ---------------------------------------------------------------------------

/// Opens a cell: the literal `<td` followed by attribute text running to the
/// first closing angle bracket on the same line. Yields the position just
/// past that bracket.
pub open spec fn spec_cell_open(s: Seq<u8>, i: int) -> Option<int> {
    match spec_lit(s, lit_td_open(), i) {
        None => None,
        Some(p) => spec_scan_gt(s, p),
    }
}

/// The rank cell: a nonempty digit run, a literal dot, then the cell close.
/// The capture is the digit run.
pub open spec fn spec_cell_rank(s: Seq<u8>, i: int) -> Option<(int, int, int)> {
    match spec_cell_open(s, i) {
        None => None,
        Some(p) => {
            let e = spec_run_end(s, ByteClass::Digit, p);
            if e == p {
                None
            } else {
                match spec_lit(s, lit_dot(), e) {
                    None => None,
                    Some(q) => match spec_lit(s, lit_td_close(), q) {
                        None => None,
                        Some(after) => Some((p, e, after)),
                    },
                }
            }
        },
    }
}

/// The id cell: a hash mark, a nonempty digit run, then the cell close. The
/// capture includes the hash mark.
pub open spec fn spec_cell_id(s: Seq<u8>, i: int) -> Option<(int, int, int)> {
    match spec_cell_open(s, i) {
        None => None,
        Some(p) => match spec_lit(s, lit_hash(), p) {
            None => None,
            Some(p1) => {
                let e = spec_run_end(s, ByteClass::Digit, p1);
                if e == p1 {
                    None
                } else {
                    match spec_lit(s, lit_td_close(), e) {
                        None => None,
                        Some(after) => Some((p, e, after)),
                    }
                }
            },
        },
    }
}

/// The text cell: an anchor open, then a lazy capture running to the first
/// `</a></td>` on the same line.
pub open spec fn spec_cell_text(s: Seq<u8>, i: int) -> Option<(int, int, int)> {
    match spec_cell_open(s, i) {
        None => None,
        Some(p) => match spec_lit(s, lit_a_open(), p) {
            None => None,
            Some(p1) => match spec_scan_gt(s, p1) {
                None => None,
                Some(a) => match spec_scan_until(s, lit_a_td_close(), a) {
                    None => None,
                    Some(c) => Some((a, c, c + lit_a_td_close().len())),
                },
            },
        },
    }
}

/// A plain numeric cell: a nonempty run of `class` bytes, then the cell
/// close.
pub open spec fn spec_cell_run(s: Seq<u8>, class: ByteClass, i: int) -> Option<(int, int, int)> {
    match spec_cell_open(s, i) {
        None => None,
        Some(p) => {
            let e = spec_run_end(s, class, p);
            if e == p {
                None
            } else {
                match spec_lit(s, lit_td_close(), e) {
                    None => None,
                    Some(after) => Some((p, e, after)),
                }
            }
        },
    }
}

/// The top-score cell: an anchor-wrapped nonempty numeric run, then
/// anything up to the cell close on the same line.
pub open spec fn spec_cell_top_score(s: Seq<u8>, i: int) -> Option<(int, int, int)> {
    match spec_cell_open(s, i) {
        None => None,
        Some(p) => match spec_lit(s, lit_a_open(), p) {
            None => None,
            Some(p1) => match spec_scan_gt(s, p1) {
                None => None,
                Some(a) => {
                    let e = spec_run_end(s, ByteClass::NumChar, a);
                    if e == a {
                        None
                    } else {
                        match spec_lit(s, lit_a_close(), e) {
                            None => None,
                            Some(q) => match spec_scan_until(s, lit_td_close(), q) {
                                None => None,
                                Some(c) => Some((a, e, c + lit_td_close().len())),
                            },
                        }
                    }
                },
            },
        },
    }
}

/// The date cell: a lazy capture running to the first cell close on the
/// same line.
pub open spec fn spec_cell_date(s: Seq<u8>, i: int) -> Option<(int, int, int)> {
    match spec_cell_open(s, i) {
        None => None,
        Some(p) => match spec_scan_until(s, lit_td_close(), p) {
            None => None,
            Some(c) => Some((p, c, c + lit_td_close().len())),
        },
    }
}

/// A full row: the row-open tag, the ten cells in fixed column order with
/// arbitrary whitespace between them, and the row-close tag. Yields the ten
/// captures and the position just past the row.
pub open spec fn spec_match_row(s: Seq<u8>, i: int) -> Option<(Seq<(int, int)>, int)> {
    match spec_lit(s, lit_tr_open(), i) {
        None => None,
        Some(p0) => match spec_cell_rank(s, spec_run_end(s, ByteClass::Ws, p0)) {
            None => None,
            Some((a0, b0, p1)) => match spec_cell_id(s, spec_run_end(s, ByteClass::Ws, p1)) {
                None => None,
                Some((a1, b1, p2)) => match spec_cell_text(
                    s,
                    spec_run_end(s, ByteClass::Ws, p2),
                ) {
                    None => None,
                    Some((a2, b2, p3)) => match spec_cell_run(
                        s,
                        ByteClass::IntChar,
                        spec_run_end(s, ByteClass::Ws, p3),
                    ) {
                        None => None,
                        Some((a3, b3, p4)) => match spec_cell_run(
                            s,
                            ByteClass::IntChar,
                            spec_run_end(s, ByteClass::Ws, p4),
                        ) {
                            None => None,
                            Some((a4, b4, p5)) => match spec_cell_run(
                                s,
                                ByteClass::NumChar,
                                spec_run_end(s, ByteClass::Ws, p5),
                            ) {
                                None => None,
                                Some((a5, b5, p6)) => match spec_cell_top_score(
                                    s,
                                    spec_run_end(s, ByteClass::Ws, p6),
                                ) {
                                    None => None,
                                    Some((a6, b6, p7)) => match spec_cell_run(
                                        s,
                                        ByteClass::NumChar,
                                        spec_run_end(s, ByteClass::Ws, p7),
                                    ) {
                                        None => None,
                                        Some((a7, b7, p8)) => match spec_cell_run(
                                            s,
                                            ByteClass::NumChar,
                                            spec_run_end(s, ByteClass::Ws, p8),
                                        ) {
                                            None => None,
                                            Some((a8, b8, p9)) => match spec_cell_date(
                                                s,
                                                spec_run_end(s, ByteClass::Ws, p9),
                                            ) {
                                                None => None,
                                                Some((a9, b9, p10)) => match spec_lit(
                                                    s,
                                                    lit_tr_close(),
                                                    spec_run_end(s, ByteClass::Ws, p10),
                                                ) {
                                                    None => None,
                                                    Some(end) => Some(
                                                        (
                                                            seq![
                                                                (a0, b0),
                                                                (a1, b1),
                                                                (a2, b2),
                                                                (a3, b3),
                                                                (a4, b4),
                                                                (a5, b5),
                                                                (a6, b6),
                                                                (a7, b7),
                                                                (a8, b8),
                                                                (a9, b9),
                                                            ],
                                                            end,
                                                        ),
                                                    ),
                                                },
                                            },
                                        },
                                    },
                                },
                            },
                        },
                    },
                },
            },
        },
    }
}

/// The first row match at or after `i`, scanning forward one position at a
/// time.
pub open spec fn spec_find_row(s: Seq<u8>, i: int) -> Option<(Seq<(int, int)>, int)>
    decreases s.len() - i,
{
    if !(0 <= i < s.len()) {
        None
    } else {
        match spec_match_row(s, i) {
            Some(m) => Some(m),
            None => spec_find_row(s, i + 1),
        }
    }
}

/// View of optional executable cell coordinates as mathematical ones.
pub open spec fn opt_cap(o: Option<(usize, usize, usize)>) -> Option<(int, int, int)> {
    match o {
        Some((a, b, c)) => Some((a as int, b as int, c as int)),
        None => None,
    }
}

/// View of executable capture ranges as mathematical ones.
pub open spec fn caps_view(v: Seq<(usize, usize)>) -> Seq<(int, int)> {
    Seq::new(v.len(), |j: int| (v[j].0 as int, v[j].1 as int))
}

/// A capture range lies within a sequence of length `n`.
pub open spec fn cap_ok(c: (usize, usize), n: int) -> bool {
    c.0 <= c.1 <= n
}

/// Executable cell opener.
fn cell_open(s: &[u8], i: usize) -> (r: Option<usize>)
    requires
        i <= s@.len(),
    ensures
        opt_pos(r) == spec_cell_open(s@, i as int),
        r matches Some(p) ==> i < p <= s@.len(),
{
    let td = td_open_bytes();
    match lit(s, td.as_slice(), i) {
        None => None,
        Some(p) => scan_gt(s, p),
    }
}

/// Executable rank cell.
fn cell_rank(s: &[u8], i: usize) -> (r: Option<(usize, usize, usize)>)
    requires
        i <= s@.len(),
    ensures
        opt_cap(r) == spec_cell_rank(s@, i as int),
        r matches Some(c) ==> i < c.2 <= s@.len() && c.0 <= c.1 <= s@.len(),
{
    match cell_open(s, i) {
        None => None,
        Some(p) => {
            let e = run_end(s, ByteClass::Digit, p);
            if e == p {
                return None;
            }
            let dot = dot_bytes();
            match lit(s, dot.as_slice(), e) {
                None => None,
                Some(q) => {
                    let close = td_close_bytes();
                    match lit(s, close.as_slice(), q) {
                        None => None,
                        Some(after) => Some((p, e, after)),
                    }
                },
            }
        },
    }
}

/// Executable id cell.
fn cell_id(s: &[u8], i: usize) -> (r: Option<(usize, usize, usize)>)
    requires
        i <= s@.len(),
    ensures
        opt_cap(r) == spec_cell_id(s@, i as int),
        r matches Some(c) ==> i < c.2 <= s@.len() && c.0 <= c.1 <= s@.len(),
{
    match cell_open(s, i) {
        None => None,
        Some(p) => {
            let hash = hash_bytes();
            match lit(s, hash.as_slice(), p) {
                None => None,
                Some(p1) => {
                    let e = run_end(s, ByteClass::Digit, p1);
                    if e == p1 {
                        return None;
                    }
                    let close = td_close_bytes();
                    match lit(s, close.as_slice(), e) {
                        None => None,
                        Some(after) => Some((p, e, after)),
                    }
                },
            }
        },
    }
}

/// Executable text cell.
fn cell_text(s: &[u8], i: usize) -> (r: Option<(usize, usize, usize)>)
    requires
        i <= s@.len(),
    ensures
        opt_cap(r) == spec_cell_text(s@, i as int),
        r matches Some(c) ==> i < c.2 <= s@.len() && c.0 <= c.1 <= s@.len(),
{
    let _slen = s.len();
    match cell_open(s, i) {
        None => None,
        Some(p) => {
            let a_open = a_open_bytes();
            match lit(s, a_open.as_slice(), p) {
                None => None,
                Some(p1) => match scan_gt(s, p1) {
                    None => None,
                    Some(a) => {
                        let close = a_td_close_bytes();
                        match scan_until(s, close.as_slice(), a) {
                            None => None,
                            Some(c) => Some((a, c, c + close.len())),
                        }
                    },
                },
            }
        },
    }
}

/// Executable plain numeric cell.
fn cell_run(s: &[u8], class: ByteClass, i: usize) -> (r: Option<(usize, usize, usize)>)
    requires
        i <= s@.len(),
    ensures
        opt_cap(r) == spec_cell_run(s@, class, i as int),
        r matches Some(c) ==> i < c.2 <= s@.len() && c.0 <= c.1 <= s@.len(),
{
    match cell_open(s, i) {
        None => None,
        Some(p) => {
            let e = run_end(s, class, p);
            if e == p {
                return None;
            }
            let close = td_close_bytes();
            match lit(s, close.as_slice(), e) {
                None => None,
                Some(after) => Some((p, e, after)),
            }
        },
    }
}

/// Executable top-score cell.
fn cell_top_score(s: &[u8], i: usize) -> (r: Option<(usize, usize, usize)>)
    requires
        i <= s@.len(),
    ensures
        opt_cap(r) == spec_cell_top_score(s@, i as int),
        r matches Some(c) ==> i < c.2 <= s@.len() && c.0 <= c.1 <= s@.len(),
{
    let _slen = s.len();
    match cell_open(s, i) {
        None => None,
        Some(p) => {
            let a_open = a_open_bytes();
            match lit(s, a_open.as_slice(), p) {
                None => None,
                Some(p1) => match scan_gt(s, p1) {
                    None => None,
                    Some(a) => {
                        let e = run_end(s, ByteClass::NumChar, a);
                        if e == a {
                            return None;
                        }
                        let a_close = a_close_bytes();
                        match lit(s, a_close.as_slice(), e) {
                            None => None,
                            Some(q) => {
                                let close = td_close_bytes();
                                match scan_until(s, close.as_slice(), q) {
                                    None => None,
                                    Some(c) => Some((a, e, c + close.len())),
                                }
                            },
                        }
                    },
                },
            }
        },
    }
}

/// Executable date cell.
fn cell_date(s: &[u8], i: usize) -> (r: Option<(usize, usize, usize)>)
    requires
        i <= s@.len(),
    ensures
        opt_cap(r) == spec_cell_date(s@, i as int),
        r matches Some(c) ==> i < c.2 <= s@.len() && c.0 <= c.1 <= s@.len(),
{
    let _slen = s.len();
    match cell_open(s, i) {
        None => None,
        Some(p) => {
            let close = td_close_bytes();
            match scan_until(s, close.as_slice(), p) {
                None => None,
                Some(c) => Some((p, c, c + close.len())),
            }
        },
    }
}

/// One matched row: the ten capture ranges, in column order, and the
/// position just past the row-close tag.
struct RowMatch {
    caps: Vec<(usize, usize)>,
    end: usize,
}

/// Executable row matcher at exactly `i`.
fn match_row(s: &[u8], i: usize) -> (r: Option<RowMatch>)
    requires
        i <= s@.len(),
    ensures
        r is Some <==> spec_match_row(s@, i as int) is Some,
        r matches Some(m) ==> spec_match_row(s@, i as int) == Some(
            (caps_view(m.caps@), m.end as int),
        ) && m.caps@.len() == 10 && i < m.end <= s@.len() && forall|j: int|
            0 <= j < 10 ==> cap_ok(#[trigger] m.caps@[j], s@.len() as int),
{
    let tr_open = tr_open_bytes();
    let p0 = match lit(s, tr_open.as_slice(), i) {
        None => {
            return None;
        },
        Some(p) => p,
    };
    let w0 = run_end(s, ByteClass::Ws, p0);
    let (a0, b0, p1) = match cell_rank(s, w0) {
        None => {
            return None;
        },
        Some(c) => c,
    };
    let w1 = run_end(s, ByteClass::Ws, p1);
    let (a1, b1, p2) = match cell_id(s, w1) {
        None => {
            return None;
        },
        Some(c) => c,
    };
    let w2 = run_end(s, ByteClass::Ws, p2);
    let (a2, b2, p3) = match cell_text(s, w2) {
        None => {
            return None;
        },
        Some(c) => c,
    };
    let w3 = run_end(s, ByteClass::Ws, p3);
    let (a3, b3, p4) = match cell_run(s, ByteClass::IntChar, w3) {
        None => {
            return None;
        },
        Some(c) => c,
    };
    let w4 = run_end(s, ByteClass::Ws, p4);
    let (a4, b4, p5) = match cell_run(s, ByteClass::IntChar, w4) {
        None => {
            return None;
        },
        Some(c) => c,
    };
    let w5 = run_end(s, ByteClass::Ws, p5);
    let (a5, b5, p6) = match cell_run(s, ByteClass::NumChar, w5) {
        None => {
            return None;
        },
        Some(c) => c,
    };
    let w6 = run_end(s, ByteClass::Ws, p6);
    let (a6, b6, p7) = match cell_top_score(s, w6) {
        None => {
            return None;
        },
        Some(c) => c,
    };
    let w7 = run_end(s, ByteClass::Ws, p7);
    let (a7, b7, p8) = match cell_run(s, ByteClass::NumChar, w7) {
        None => {
            return None;
        },
        Some(c) => c,
    };
    let w8 = run_end(s, ByteClass::Ws, p8);
    let (a8, b8, p9) = match cell_run(s, ByteClass::NumChar, w8) {
        None => {
            return None;
        },
        Some(c) => c,
    };
    let w9 = run_end(s, ByteClass::Ws, p9);
    let (a9, b9, p10) = match cell_date(s, w9) {
        None => {
            return None;
        },
        Some(c) => c,
    };
    let w10 = run_end(s, ByteClass::Ws, p10);
    let tr_close = tr_close_bytes();
    let end = match lit(s, tr_close.as_slice(), w10) {
        None => {
            return None;
        },
        Some(e) => e,
    };
    let mut caps: Vec<(usize, usize)> = Vec::new();
    caps.push((a0, b0));
    caps.push((a1, b1));
    caps.push((a2, b2));
    caps.push((a3, b3));
    caps.push((a4, b4));
    caps.push((a5, b5));
    caps.push((a6, b6));
    caps.push((a7, b7));
    caps.push((a8, b8));
    caps.push((a9, b9));
    proof {
        assert(caps_view(caps@) =~= seq![
            (a0 as int, b0 as int),
            (a1 as int, b1 as int),
            (a2 as int, b2 as int),
            (a3 as int, b3 as int),
            (a4 as int, b4 as int),
            (a5 as int, b5 as int),
            (a6 as int, b6 as int),
            (a7 as int, b7 as int),
            (a8 as int, b8 as int),
            (a9 as int, b9 as int),
        ]);
    }
    Some(RowMatch { caps, end })
}

/// Executable forward search for the first row match at or after `i`.
#[verifier::loop_isolation(false)]
fn find_row(s: &[u8], i: usize) -> (r: Option<RowMatch>)
    requires
        i <= s@.len(),
    ensures
        r is Some <==> spec_find_row(s@, i as int) is Some,
        r matches Some(m) ==> spec_find_row(s@, i as int) == Some(
            (caps_view(m.caps@), m.end as int),
        ) && m.caps@.len() == 10 && i < m.end <= s@.len() && forall|j: int|
            0 <= j < 10 ==> cap_ok(#[trigger] m.caps@[j], s@.len() as int),
{
    let mut j: usize = i;
    while j < s.len()
        invariant
            i <= j <= s@.len(),
            spec_find_row(s@, i as int) == spec_find_row(s@, j as int),
        decreases s.len() - j,
    {
        let m = match_row(s, j);
        if m.is_some() {
            return m;
        }
        j = j + 1;
    }
    None
}

} // verus!

verus! {

// ---------------------------------------------------------------------------
// Field coercion
// ---------------------------------------------------------------------------

/// The captured text with every thousands-separator comma removed.
pub open spec fn strip_commas(s: Seq<u8>) -> Seq<u8>
    decreases s.len(),
{
    if s.len() == 0 {
        Seq::empty()
    } else if s.last() == 44 {
        strip_commas(s.drop_last())
    } else {
        strip_commas(s.drop_last()).push(s.last())
    }
}

/// Every byte is a decimal digit.
pub open spec fn all_digits(s: Seq<u8>) -> bool {
    forall|j: int| 0 <= j < s.len() ==> is_digit(s[j])
}

/// The number a digit string denotes, most significant digit first.
pub open spec fn digits_value(s: Seq<u8>) -> int
    decreases s.len(),
{
    if s.len() == 0 {
        0
    } else {
        10 * digits_value(s.drop_last()) + (s.last() - 48)
    }
}

/// How many decimal points the text holds.
pub open spec fn count_dots(s: Seq<u8>) -> int
    decreases s.len(),
{
    if s.len() == 0 {
        0
    } else if s.last() == 46 {
        count_dots(s.drop_last()) + 1
    } else {
        count_dots(s.drop_last())
    }
}

/// The text with every decimal point removed.
pub open spec fn remove_dots(s: Seq<u8>) -> Seq<u8>
    decreases s.len(),
{
    if s.len() == 0 {
        Seq::empty()
    } else if s.last() == 46 {
        remove_dots(s.drop_last())
    } else {
        remove_dots(s.drop_last()).push(s.last())
    }
}

/// How many bytes follow the last decimal point: the number of fractional
/// digits once the text is known to be well formed. Zero when no point
/// occurs.
pub open spec fn scale_of(s: Seq<u8>) -> int
    decreases s.len(),
{
    if s.len() == 0 {
        0
    } else if s.last() == 46 {
        0
    } else if count_dots(s) > 0 {
        scale_of(s.drop_last()) + 1
    } else {
        0
    }
}

/// An integer column's capture coerces: after comma stripping it is a
/// nonempty digit string whose value fits the field.
pub open spec fn int_field_ok(raw: Seq<u8>) -> bool {
    let t = strip_commas(raw);
    t.len() > 0 && all_digits(t) && digits_value(t) <= usize::MAX
}

/// A decimal column's capture coerces: after comma stripping it holds at
/// most one decimal point and at least one digit, nothing but digits
/// otherwise, and its digit string fits the mantissa field.
pub open spec fn dec_field_ok(raw: Seq<u8>) -> bool {
    let t = strip_commas(raw);
    let d = remove_dots(t);
    count_dots(t) <= 1 && d.len() > 0 && all_digits(d) && digits_value(d) <= u64::MAX
}

/// A digit string denotes a non-negative number.
pub proof fn lemma_digits_value_nonneg(s: Seq<u8>)
    requires
        all_digits(s),
    ensures
        digits_value(s) >= 0,
    decreases s.len(),
{
    if s.len() > 0 {
        assert(all_digits(s.drop_last()));
        lemma_digits_value_nonneg(s.drop_last());
    }
}

/// Extending a digit string never shrinks its value.
pub proof fn lemma_digits_value_prefix_le(s: Seq<u8>, n: int)
    requires
        all_digits(s),
        0 <= n <= s.len(),
    ensures
        0 <= digits_value(s.subrange(0, n)) <= digits_value(s),
    decreases s.len(),
{
    if n == s.len() {
        assert(s.subrange(0, n) =~= s);
        lemma_digits_value_nonneg(s);
    } else {
        assert(s.subrange(0, n) =~= s.drop_last().subrange(0, n));
        assert(all_digits(s.drop_last()));
        lemma_digits_value_prefix_le(s.drop_last(), n);
        lemma_digits_value_nonneg(s.drop_last());
    }
}

/// A prefix of the text holds no more decimal points than the whole.
pub proof fn lemma_count_dots_prefix(s: Seq<u8>, n: int)
    requires
        0 <= n <= s.len(),
    ensures
        count_dots(s.subrange(0, n)) <= count_dots(s),
        count_dots(s.subrange(0, n)) >= 0,
        count_dots(s) >= 0,
    decreases s.len(),
{
    if n == s.len() {
        assert(s.subrange(0, n) =~= s);
        if s.len() > 0 {
            lemma_count_dots_prefix(s.drop_last(), n - 1);
        }
    } else {
        assert(s.subrange(0, n) =~= s.drop_last().subrange(0, n));
        lemma_count_dots_prefix(s.drop_last(), n);
    }
}

/// Removing the decimal points of a prefix gives a prefix of the result of
/// removing them from the whole.
pub proof fn lemma_remove_dots_prefix(s: Seq<u8>, n: int)
    requires
        0 <= n <= s.len(),
    ensures
        remove_dots(s.subrange(0, n)).is_prefix_of(remove_dots(s)),
    decreases s.len(),
{
    if n == s.len() {
        assert(s.subrange(0, n) =~= s);
        assert(remove_dots(s).is_prefix_of(remove_dots(s)));
    } else {
        assert(s.subrange(0, n) =~= s.drop_last().subrange(0, n));
        lemma_remove_dots_prefix(s.drop_last(), n);
    }
}

/// Executable comma stripping.
#[verifier::loop_isolation(false)]
fn strip_commas_exec(raw: &[u8]) -> (t: Vec<u8>)
    ensures
        t@ == strip_commas(raw@),
{
    let mut t: Vec<u8> = Vec::new();
    let mut i: usize = 0;
    while i < raw.len()
        invariant
            0 <= i <= raw@.len(),
            t@ == strip_commas(raw@.subrange(0, i as int)),
        decreases raw@.len() - i,
    {
        proof {
            assert(raw@.subrange(0, i + 1).drop_last() =~= raw@.subrange(0, i as int));
        }
        let b = raw[i];
        if b != 44 {
            t.push(b);
        }
        i = i + 1;
    }
    proof {
        assert(raw@.subrange(0, raw@.len() as int) =~= raw@);
    }
    t
}

/// Accumulates a digit string into a machine word, refusing a value that
/// does not fit.
#[verifier::loop_isolation(false)]
fn parse_digits_u64(d: &[u8]) -> (r: Option<u64>)
    ensures
        r is Some <==> (d@.len() > 0 && all_digits(d@) && digits_value(d@) <= u64::MAX),
        r matches Some(v) ==> v as int == digits_value(d@),
{
    if d.len() == 0 {
        return None;
    }
    let mut acc: u64 = 0;
    let mut i: usize = 0;
    while i < d.len()
        invariant
            0 <= i <= d@.len(),
            all_digits(d@.subrange(0, i as int)),
            acc as int == digits_value(d@.subrange(0, i as int)),
        decreases d@.len() - i,
    {
        let b = d[i];
        proof {
            assert(d@.subrange(0, i + 1).drop_last() =~= d@.subrange(0, i as int));
        }
        if !(48 <= b && b <= 57) {
            assert(!is_digit(d@[i as int]));
            return None;
        }
        let v = (b - 48) as u64;
        if acc > (u64::MAX - v) / 10 {
            proof {
                assert(10 * (acc as int) + (v as int) > u64::MAX) by (nonlinear_arith)
                    requires
                        acc as int > ((u64::MAX - v) as int) / 10,
                        0 <= v as int <= 9,
                        0 <= acc as int,
                ;
                if all_digits(d@) {
                    lemma_digits_value_prefix_le(d@, i + 1);
                }
            }
            return None;
        }
        proof {
            assert(10 * (acc as int) + (v as int) <= u64::MAX) by (nonlinear_arith)
                requires
                    acc as int <= ((u64::MAX - v) as int) / 10,
                    0 <= v as int <= 9,
                    0 <= acc as int,
            ;
        }
        acc = acc * 10 + v;
        i = i + 1;
    }
    proof {
        assert(d@.subrange(0, d@.len() as int) =~= d@);
    }
    Some(acc)
}

/// Accumulates a digit string into a `usize`, refusing a value that does
/// not fit.
#[verifier::loop_isolation(false)]
fn parse_digits_usize(d: &[u8]) -> (r: Option<usize>)
    ensures
        r is Some <==> (d@.len() > 0 && all_digits(d@) && digits_value(d@) <= usize::MAX),
        r matches Some(v) ==> v as int == digits_value(d@),
{
    if d.len() == 0 {
        return None;
    }
    let mut acc: usize = 0;
    let mut i: usize = 0;
    while i < d.len()
        invariant
            0 <= i <= d@.len(),
            all_digits(d@.subrange(0, i as int)),
            acc as int == digits_value(d@.subrange(0, i as int)),
        decreases d@.len() - i,
    {
        let b = d[i];
        proof {
            assert(d@.subrange(0, i + 1).drop_last() =~= d@.subrange(0, i as int));
        }
        if !(48 <= b && b <= 57) {
            assert(!is_digit(d@[i as int]));
            return None;
        }
        let v = (b - 48) as usize;
        if acc > (usize::MAX - v) / 10 {
            proof {
                assert(10 * (acc as int) + (v as int) > usize::MAX) by (nonlinear_arith)
                    requires
                        acc as int > ((usize::MAX - v) as int) / 10,
                        0 <= v as int <= 9,
                        0 <= acc as int,
                ;
                if all_digits(d@) {
                    lemma_digits_value_prefix_le(d@, i + 1);
                }
            }
            return None;
        }
        proof {
            assert(10 * (acc as int) + (v as int) <= usize::MAX) by (nonlinear_arith)
                requires
                    acc as int <= ((usize::MAX - v) as int) / 10,
                    0 <= v as int <= 9,
                    0 <= acc as int,
            ;
        }
        acc = acc * 10 + v;
        i = i + 1;
    }
    proof {
        assert(d@.subrange(0, d@.len() as int) =~= d@);
    }
    Some(acc)
}

/// Coerces an integer column's capture: strips thousands-separator commas,
/// then reads the digits. Fails on empty or non-numeric text and on a value
/// that does not fit.
pub fn usize_from_html_str(raw: &[u8]) -> (r: Option<usize>)
    ensures
        r is Some <==> int_field_ok(raw@),
        r matches Some(v) ==> v as int == digits_value(strip_commas(raw@)),
{
    let t = strip_commas_exec(raw);
    parse_digits_usize(t.as_slice())
}

/// A decimal number modeled exactly: the digit string's value, scaled down
/// by the number of fractional digits. `1234.5` has mantissa 12345 and
/// scale 1.
#[derive(Debug, Clone, Copy, PartialEq, Eq, Structural)]
pub struct Decimal {
    pub mantissa: u64,
    pub scale: usize,
}

/// Coerces a decimal column's capture: strips commas, allows at most one
/// decimal point, and reads mantissa and scale. Fails on empty or
/// non-numeric text, on a second point, and on a mantissa that does not
/// fit.
#[verifier::loop_isolation(false)]
pub fn decimal_from_html_str(raw: &[u8]) -> (r: Option<Decimal>)
    ensures
        r is Some <==> dec_field_ok(raw@),
        r matches Some(d) ==> d.mantissa as int == digits_value(remove_dots(strip_commas(raw@)))
            && d.scale as int == scale_of(strip_commas(raw@)),
{
    let t = strip_commas_exec(raw);
    let mut digits: Vec<u8> = Vec::new();
    let mut seen_dot = false;
    let mut scale: usize = 0;
    let mut i: usize = 0;
    while i < t.len()
        invariant
            0 <= i <= t@.len(),
            digits@ == remove_dots(t@.subrange(0, i as int)),
            all_digits(digits@),
            seen_dot == (count_dots(t@.subrange(0, i as int)) > 0),
            count_dots(t@.subrange(0, i as int)) <= 1,
            scale as int == scale_of(t@.subrange(0, i as int)),
            scale <= i,
        decreases t@.len() - i,
    {
        let b = t[i];
        proof {
            assert(t@.subrange(0, i + 1).drop_last() =~= t@.subrange(0, i as int));
            lemma_count_dots_prefix(t@, i as int);
        }
        if b == 46 {
            if seen_dot {
                proof {
                    lemma_count_dots_prefix(t@, i + 1);
                }
                return None;
            }
            seen_dot = true;
            scale = 0;
        } else if 48 <= b && b <= 57 {
            digits.push(b);
            if seen_dot {
                scale = scale + 1;
            }
        } else {
            proof {
                lemma_remove_dots_prefix(t@, i + 1);
                let bad = remove_dots(t@.subrange(0, i + 1));
                assert(bad == remove_dots(t@.subrange(0, i as int)).push(b));
                assert(bad[bad.len() - 1] == b);
                assert(remove_dots(t@).subrange(0, bad.len() as int) =~= bad);
                assert(remove_dots(t@)[bad.len() - 1] == b);
                assert(!all_digits(remove_dots(t@)));
            }
            return None;
        }
        i = i + 1;
    }
    proof {
        assert(t@.subrange(0, t@.len() as int) =~= t@);
    }
    match parse_digits_u64(digits.as_slice()) {
        None => None,
        Some(v) => Some(Decimal { mantissa: v, scale }),
    }
}

/// The captured text with every `&quot;` entity resolved to a literal
/// double quote, scanning left to right past position `i`.
pub open spec fn unescape_from(s: Seq<u8>, i: int) -> Seq<u8>
    decreases s.len() - i,
{
    if !(0 <= i < s.len()) {
        Seq::empty()
    } else if spec_match_at(s, lit_quot(), i) {
        seq![34u8] + unescape_from(s, i + lit_quot().len())
    } else {
        seq![s[i]] + unescape_from(s, i + 1)
    }
}

/// The captured text with every `&quot;` entity resolved.
pub open spec fn unescape_quot(s: Seq<u8>) -> Seq<u8> {
    unescape_from(s, 0)
}

/// Coerces a text column's capture: resolves each double-quote entity to a
/// literal double quote. Total: any capture coerces.
#[verifier::loop_isolation(false)]
pub fn text_from_html_str(raw: &[u8]) -> (r: Vec<u8>)
    ensures
        r@ == unescape_quot(raw@),
{
    let n = raw.len();
    let quot = quot_bytes();
    let mut out: Vec<u8> = Vec::new();
    let mut i: usize = 0;
    while i < n
        invariant
            0 <= i <= raw@.len(),
            unescape_quot(raw@) == out@ + unescape_from(raw@, i as int),
        decreases raw@.len() - i,
    {
        if match_at(raw, quot.as_slice(), i) {
            let ghost out0 = out@;
            out.push(34u8);
            proof {
                assert(out@ + unescape_from(raw@, i + lit_quot().len())
                    =~= out0 + unescape_from(raw@, i as int));
            }
            i = i + 6;
        } else {
            let b = raw[i];
            let ghost out0 = out@;
            out.push(b);
            proof {
                assert(out@ + unescape_from(raw@, i + 1) =~= out0 + unescape_from(raw@, i as int));
            }
            i = i + 1;
        }
    }
    proof {
        assert(unescape_quot(raw@) =~= out@);
    }
    out
}

} // verus!

verus! {

// ---------------------------------------------------------------------------
// Records and parse entry points
// ---------------------------------------------------------------------------

/// The ten columns of a row, in document order.
#[derive(Debug, Clone, Copy, PartialEq, Eq, Structural)]
pub enum Column {
    Rank,
    Id,
    Text,
    Length,
    Races,
    Difficulty,
    TopScore,
    Top100,
    Average,
    DateActive,
}

/// Why a parse failed: the markup holds no well-shaped row at all, or a
/// captured field's text cannot be coerced to its column's type. The two
/// are distinct so a caller can tell a wrong shape from a bad value.
#[derive(Debug, Clone, Copy, PartialEq, Eq, Structural)]
pub enum ParseError {
    Structure,
    Coercion(Column),
}

/// One fully typed row of the results table. A parse either fills every
/// field or fails; no partial record exists.
#[derive(Debug, Clone)]
pub struct TextRow {
    pub rank: usize,
    pub id: Vec<u8>,
    pub text: Vec<u8>,
    pub length: usize,
    pub races: usize,
    pub difficulty: Decimal,
    pub top_score: Decimal,
    pub top_100: Decimal,
    pub average: Decimal,
    pub date_active: Vec<u8>,
}

/// The text a capture range denotes.
pub open spec fn cap_text(s: Seq<u8>, c: (int, int)) -> Seq<u8> {
    s.subrange(c.0, c.1)
}

/// The first column, in coercion order, whose captured text does not
/// coerce; the text columns are total and never fail.
pub open spec fn first_bad_column(s: Seq<u8>, caps: Seq<(int, int)>) -> Option<Column> {
    if !int_field_ok(cap_text(s, caps[0])) {
        Some(Column::Rank)
    } else if !int_field_ok(cap_text(s, caps[3])) {
        Some(Column::Length)
    } else if !int_field_ok(cap_text(s, caps[4])) {
        Some(Column::Races)
    } else if !dec_field_ok(cap_text(s, caps[5])) {
        Some(Column::Difficulty)
    } else if !dec_field_ok(cap_text(s, caps[6])) {
        Some(Column::TopScore)
    } else if !dec_field_ok(cap_text(s, caps[7])) {
        Some(Column::Top100)
    } else if !dec_field_ok(cap_text(s, caps[8])) {
        Some(Column::Average)
    } else {
        None
    }
}

/// A decimal field holds exactly what its capture coerces to.
pub open spec fn dec_matches(s: Seq<u8>, c: (int, int), d: Decimal) -> bool {
    d.mantissa as int == digits_value(remove_dots(strip_commas(cap_text(s, c))))
        && d.scale as int == scale_of(strip_commas(cap_text(s, c)))
}

/// A record holds exactly the coerced text of each of the ten captures.
pub open spec fn row_matches_caps(s: Seq<u8>, caps: Seq<(int, int)>, row: TextRow) -> bool {
    &&& row.rank as int == digits_value(strip_commas(cap_text(s, caps[0])))
    &&& row.id@ == unescape_quot(cap_text(s, caps[1]))
    &&& row.text@ == unescape_quot(cap_text(s, caps[2]))
    &&& row.length as int == digits_value(strip_commas(cap_text(s, caps[3])))
    &&& row.races as int == digits_value(strip_commas(cap_text(s, caps[4])))
    &&& dec_matches(s, caps[5], row.difficulty)
    &&& dec_matches(s, caps[6], row.top_score)
    &&& dec_matches(s, caps[7], row.top_100)
    &&& dec_matches(s, caps[8], row.average)
    &&& row.date_active@ == unescape_quot(cap_text(s, caps[9]))
}

/// Coerces the ten captures of one matched row into a record, naming the
/// first column that fails.
fn from_match(s: &[u8], m: &RowMatch) -> (r: Result<TextRow, ParseError>)
    requires
        m.caps@.len() == 10,
        forall|j: int| 0 <= j < 10 ==> cap_ok(#[trigger] m.caps@[j], s@.len() as int),
    ensures
        r is Ok <==> first_bad_column(s@, caps_view(m.caps@)) is None,
        r matches Ok(row) ==> row_matches_caps(s@, caps_view(m.caps@), row),
        r matches Err(e) ==> (match first_bad_column(s@, caps_view(m.caps@)) {
            Some(c) => e == ParseError::Coercion(c),
            None => false,
        }),
{
    let (a0, b0) = m.caps[0];
    let rank = match usize_from_html_str(vstd::slice::slice_subrange(s, a0, b0)) {
        Some(v) => v,
        None => {
            return Err(ParseError::Coercion(Column::Rank));
        },
    };
    let (a1, b1) = m.caps[1];
    let id = text_from_html_str(vstd::slice::slice_subrange(s, a1, b1));
    let (a2, b2) = m.caps[2];
    let text = text_from_html_str(vstd::slice::slice_subrange(s, a2, b2));
    let (a3, b3) = m.caps[3];
    let length = match usize_from_html_str(vstd::slice::slice_subrange(s, a3, b3)) {
        Some(v) => v,
        None => {
            return Err(ParseError::Coercion(Column::Length));
        },
    };
    let (a4, b4) = m.caps[4];
    let races = match usize_from_html_str(vstd::slice::slice_subrange(s, a4, b4)) {
        Some(v) => v,
        None => {
            return Err(ParseError::Coercion(Column::Races));
        },
    };
    let (a5, b5) = m.caps[5];
    let difficulty = match decimal_from_html_str(vstd::slice::slice_subrange(s, a5, b5)) {
        Some(v) => v,
        None => {
            return Err(ParseError::Coercion(Column::Difficulty));
        },
    };
    let (a6, b6) = m.caps[6];
    let top_score = match decimal_from_html_str(vstd::slice::slice_subrange(s, a6, b6)) {
        Some(v) => v,
        None => {
            return Err(ParseError::Coercion(Column::TopScore));
        },
    };
    let (a7, b7) = m.caps[7];
    let top_100 = match decimal_from_html_str(vstd::slice::slice_subrange(s, a7, b7)) {
        Some(v) => v,
        None => {
            return Err(ParseError::Coercion(Column::Top100));
        },
    };
    let (a8, b8) = m.caps[8];
    let average = match decimal_from_html_str(vstd::slice::slice_subrange(s, a8, b8)) {
        Some(v) => v,
        None => {
            return Err(ParseError::Coercion(Column::Average));
        },
    };
    let (a9, b9) = m.caps[9];
    let date_active = text_from_html_str(vstd::slice::slice_subrange(s, a9, b9));
    Ok(TextRow {
        rank,
        id,
        text,
        length,
        races,
        difficulty,
        top_score,
        top_100,
        average,
        date_active,
    })
}

/// Opening a cell moves strictly forward and stays within the markup.
pub proof fn lemma_cell_open_progress(s: Seq<u8>, i: int)
    requires
        0 <= i,
    ensures
        spec_cell_open(s, i) matches Some(p) ==> i < p <= s.len(),
{
    if spec_match_at(s, lit_td_open(), i) {
        lemma_scan_gt_bounds(s, i + lit_td_open().len());
    }
}

/// Matching any cell moves strictly forward and stays within the markup.
pub proof fn lemma_cell_progress(s: Seq<u8>, i: int)
    requires
        0 <= i,
    ensures
        spec_cell_rank(s, i) matches Some((a, b, after)) ==> i < after <= s.len(),
        spec_cell_id(s, i) matches Some((a, b, after)) ==> i < after <= s.len(),
        spec_cell_text(s, i) matches Some((a, b, after)) ==> i < after <= s.len(),
        spec_cell_run(s, ByteClass::IntChar, i) matches Some((a, b, after)) ==> i < after
            <= s.len(),
        spec_cell_run(s, ByteClass::NumChar, i) matches Some((a, b, after)) ==> i < after
            <= s.len(),
        spec_cell_top_score(s, i) matches Some((a, b, after)) ==> i < after <= s.len(),
        spec_cell_date(s, i) matches Some((a, b, after)) ==> i < after <= s.len(),
{
    lemma_cell_open_progress(s, i);
    match spec_cell_open(s, i) {
        None => {},
        Some(p) => {
            lemma_run_end_bounds(s, ByteClass::Digit, p);
            lemma_run_end_bounds(s, ByteClass::IntChar, p);
            lemma_run_end_bounds(s, ByteClass::NumChar, p);
            if spec_match_at(s, lit_hash(), p) {
                lemma_run_end_bounds(s, ByteClass::Digit, p + lit_hash().len());
            }
            lemma_scan_until_bounds(s, lit_td_close(), p);
            if spec_match_at(s, lit_a_open(), p) {
                lemma_scan_gt_bounds(s, p + lit_a_open().len());
                match spec_scan_gt(s, p + lit_a_open().len()) {
                    None => {},
                    Some(a) => {
                        lemma_scan_until_bounds(s, lit_a_td_close(), a);
                        lemma_run_end_bounds(s, ByteClass::NumChar, a);
                        let e = spec_run_end(s, ByteClass::NumChar, a);
                        if spec_match_at(s, lit_a_close(), e) {
                            lemma_scan_until_bounds(s, lit_td_close(), e + lit_a_close().len());
                        }
                    },
                }
            }
        },
    }
}

/// Matching a whole row moves strictly forward and stays within the markup.
pub proof fn lemma_match_row_progress(s: Seq<u8>, i: int)
    requires
        0 <= i,
    ensures
        spec_match_row(s, i) matches Some((caps, end)) ==> i < end <= s.len(),
{
    if spec_match_at(s, lit_tr_open(), i) {
        let p0 = i + lit_tr_open().len();
        lemma_run_end_bounds(s, ByteClass::Ws, p0);
        let mut at = spec_run_end(s, ByteClass::Ws, p0);
        lemma_cell_progress(s, at);
        match spec_cell_rank(s, at) {
            None => {},
            Some((a0, b0, p1)) => {
                lemma_run_end_bounds(s, ByteClass::Ws, p1);
                at = spec_run_end(s, ByteClass::Ws, p1);
                lemma_cell_progress(s, at);
                match spec_cell_id(s, at) {
                    None => {},
                    Some((a1, b1, p2)) => {
                        lemma_run_end_bounds(s, ByteClass::Ws, p2);
                        at = spec_run_end(s, ByteClass::Ws, p2);
                        lemma_cell_progress(s, at);
                        match spec_cell_text(s, at) {
                            None => {},
                            Some((a2, b2, p3)) => {
                                lemma_run_end_bounds(s, ByteClass::Ws, p3);
                                at = spec_run_end(s, ByteClass::Ws, p3);
                                lemma_cell_progress(s, at);
                                match spec_cell_run(s, ByteClass::IntChar, at) {
                                    None => {},
                                    Some((a3, b3, p4)) => {
                                        lemma_run_end_bounds(s, ByteClass::Ws, p4);
                                        at = spec_run_end(s, ByteClass::Ws, p4);
                                        lemma_cell_progress(s, at);
                                        match spec_cell_run(s, ByteClass::IntChar, at) {
                                            None => {},
                                            Some((a4, b4, p5)) => {
                                                lemma_row_tail_progress(s, i, p5);
                                            },
                                        }
                                    },
                                }
                            },
                        }
                    },
                }
            },
        }
    }
}

/// Progress for the back half of a row: the four decimal cells, the date
/// cell and the row-close tag.
proof fn lemma_row_tail_progress(s: Seq<u8>, i: int, p5: int)
    requires
        0 <= i < p5 <= s.len(),
    ensures
        (match spec_cell_run(s, ByteClass::NumChar, spec_run_end(s, ByteClass::Ws, p5)) {
            None => true,
            Some((a5, b5, p6)) => match spec_cell_top_score(
                s,
                spec_run_end(s, ByteClass::Ws, p6),
            ) {
                None => true,
                Some((a6, b6, p7)) => match spec_cell_run(
                    s,
                    ByteClass::NumChar,
                    spec_run_end(s, ByteClass::Ws, p7),
                ) {
                    None => true,
                    Some((a7, b7, p8)) => match spec_cell_run(
                        s,
                        ByteClass::NumChar,
                        spec_run_end(s, ByteClass::Ws, p8),
                    ) {
                        None => true,
                        Some((a8, b8, p9)) => match spec_cell_date(
                            s,
                            spec_run_end(s, ByteClass::Ws, p9),
                        ) {
                            None => true,
                            Some((a9, b9, p10)) => match spec_lit(
                                s,
                                lit_tr_close(),
                                spec_run_end(s, ByteClass::Ws, p10),
                            ) {
                                None => true,
                                Some(end) => i < end <= s.len(),
                            },
                        },
                    },
                },
            },
        }),
{
    lemma_run_end_bounds(s, ByteClass::Ws, p5);
    let at5 = spec_run_end(s, ByteClass::Ws, p5);
    lemma_cell_progress(s, at5);
    match spec_cell_run(s, ByteClass::NumChar, at5) {
        None => {},
        Some((a5, b5, p6)) => {
            lemma_run_end_bounds(s, ByteClass::Ws, p6);
            let at6 = spec_run_end(s, ByteClass::Ws, p6);
            lemma_cell_progress(s, at6);
            match spec_cell_top_score(s, at6) {
                None => {},
                Some((a6, b6, p7)) => {
                    lemma_run_end_bounds(s, ByteClass::Ws, p7);
                    let at7 = spec_run_end(s, ByteClass::Ws, p7);
                    lemma_cell_progress(s, at7);
                    match spec_cell_run(s, ByteClass::NumChar, at7) {
                        None => {},
                        Some((a7, b7, p8)) => {
                            lemma_run_end_bounds(s, ByteClass::Ws, p8);
                            let at8 = spec_run_end(s, ByteClass::Ws, p8);
                            lemma_cell_progress(s, at8);
                            match spec_cell_run(s, ByteClass::NumChar, at8) {
                                None => {},
                                Some((a8, b8, p9)) => {
                                    lemma_run_end_bounds(s, ByteClass::Ws, p9);
                                    let at9 = spec_run_end(s, ByteClass::Ws, p9);
                                    lemma_cell_progress(s, at9);
                                    match spec_cell_date(s, at9) {
                                        None => {},
                                        Some((a9, b9, p10)) => {
                                            lemma_run_end_bounds(s, ByteClass::Ws, p10);
                                        },
                                    }
                                },
                            }
                        },
                    }
                },
            }
        },
    }
}

/// Finding a row anywhere at or after `i` still ends strictly past `i`.
pub proof fn lemma_find_row_progress(s: Seq<u8>, i: int)
    ensures
        spec_find_row(s, i) matches Some((caps, end)) ==> i < end <= s.len(),
    decreases s.len() - i,
{
    if 0 <= i < s.len() {
        match spec_match_row(s, i) {
            Some(m) => {
                lemma_match_row_progress(s, i);
            },
            None => {
                lemma_find_row_progress(s, i + 1);
            },
        }
    }
}

/// The capture sets of every row match in the markup, in document order:
/// each scan resumes where the previous match ended, which always lies
/// strictly forward.
pub open spec fn spec_table_caps(s: Seq<u8>, i: int) -> Seq<Seq<(int, int)>>
    decreases s.len() - i,
    via spec_table_caps_dec
{
    match spec_find_row(s, i) {
        None => Seq::empty(),
        Some((caps, end)) => seq![caps] + spec_table_caps(s, end),
    }
}

#[via_fn]
proof fn spec_table_caps_dec(s: Seq<u8>, i: int) {
    lemma_find_row_progress(s, i);
}

impl TextRow {
    /// Parses the first well-shaped row found anywhere in the markup.
    /// Fails with a structure error when no row matches, and with a
    /// coercion error naming the column when a captured value is malformed.
    pub fn parse_row(raw: &[u8]) -> (r: Result<TextRow, ParseError>)
        ensures
            spec_find_row(raw@, 0) is None ==> r == Err::<TextRow, ParseError>(
                ParseError::Structure,
            ),
            spec_find_row(raw@, 0) matches Some((caps, end)) ==> (match first_bad_column(
                raw@,
                caps,
            ) {
                Some(c) => r == Err::<TextRow, ParseError>(ParseError::Coercion(c)),
                None => r matches Ok(row) && row_matches_caps(raw@, caps, row),
            }),
    {
        match find_row(raw, 0) {
            None => Err(ParseError::Structure),
            Some(m) => from_match(raw, &m),
        }
    }

    /// Parses every row match in the markup, in document order: one record
    /// per match. The first malformed captured value fails the whole parse
    /// with a coercion error naming its column; markup with no match at all
    /// yields the empty list.
    #[verifier::loop_isolation(false)]
    pub fn parse_table(raw: &[u8]) -> (r: Result<Vec<TextRow>, ParseError>)
        ensures
            r matches Ok(rows) ==> rows@.len() == spec_table_caps(raw@, 0).len() && (forall|
                j: int,
            |
                0 <= j < rows@.len() ==> row_matches_caps(
                    raw@,
                    #[trigger] spec_table_caps(raw@, 0)[j],
                    rows@[j],
                )) && (forall|j: int|
                0 <= j < rows@.len() ==> first_bad_column(
                    raw@,
                    #[trigger] spec_table_caps(raw@, 0)[j],
                ) is None),
            r matches Err(e) ==> exists|j: int|
                0 <= j < spec_table_caps(raw@, 0).len() && (first_bad_column(
                    raw@,
                    #[trigger] spec_table_caps(raw@, 0)[j],
                ) matches Some(c) && e == ParseError::Coercion(c)) && (forall|l: int|
                    0 <= l < j ==> first_bad_column(raw@, spec_table_caps(raw@, 0)[l]) is None),
    {
        let mut out: Vec<TextRow> = Vec::new();
        let ghost mut done: Seq<Seq<(int, int)>> = Seq::empty();
        let mut i: usize = 0;
        loop
            invariant
                0 <= i <= raw@.len(),
                spec_table_caps(raw@, 0) == done + spec_table_caps(raw@, i as int),
                out@.len() == done.len(),
                forall|j: int|
                    0 <= j < done.len() ==> first_bad_column(raw@, #[trigger] done[j]) is None,
                forall|j: int|
                    0 <= j < done.len() ==> row_matches_caps(raw@, #[trigger] done[j], out@[j]),
            decreases raw@.len() - i,
        {
            match find_row(raw, i) {
                None => {
                    proof {
                        assert(spec_table_caps(raw@, 0) =~= done);
                    }
                    return Ok(out);
                },
                Some(m) => {
                    let ghost caps = caps_view(m.caps@);
                    proof {
                        assert(spec_table_caps(raw@, i as int) == seq![caps] + spec_table_caps(
                            raw@,
                            m.end as int,
                        ));
                        assert(spec_table_caps(raw@, 0)[done.len() as int] == caps);
                    }
                    match from_match(raw, &m) {
                        Err(e) => {
                            proof {
                                assert(spec_table_caps(raw@, 0).len() >= done.len() + 1);
                                assert(forall|l: int|
                                    0 <= l < done.len() ==> spec_table_caps(raw@, 0)[l]
                                        == done[l]);
                            }
                            return Err(e);
                        },
                        Ok(row) => {
                            out.push(row);
                            proof {
                                done = done.push(caps);
                                assert(done + spec_table_caps(raw@, m.end as int)
                                    =~= spec_table_caps(raw@, 0));
                            }
                            i = m.end;
                        },
                    }
                },
            }
        }
    }
}

} // verus!
