//! The text rope: `ropey::Rope` as the buffer uses it.
//!
//! The rope's contents are named [`rope_text`]; every rope operation the
//! buffer calls is a wrapper here whose contract speaks of that name, as
//! ropey's documentation describes the operation. Lines follow ropey's
//! documented model (with its default `unicode_lines` feature): a line ends
//! after LF, VT, FF, NEL, U+2028, U+2029, a CR that is not followed by LF, or
//! a CRLF pair; the text after the last break is a final (possibly empty)
//! line.

use vstd::prelude::*;

verus! {

#[verifier::external_type_specification]
#[verifier::external_body]
pub struct ExRope(ropey::Rope);

/// The chars a rope holds, in order.
pub uninterp spec fn rope_text(r: ropey::Rope) -> Seq<char>;

/// A char that ends a line on its own (or, for CR, when no LF follows).
pub open spec fn is_break_char(c: char) -> bool {
    c == '\n' || c == '\u{b}' || c == '\u{c}' || c == '\r' || c == '\u{85}' || c == '\u{2028}'
        || c == '\u{2029}'
}

/// Whether a line break ends at index `i` of `s` (a CR followed by LF does
/// not end one: the pair ends at the LF).
pub open spec fn is_break_end(s: Seq<char>, i: int) -> bool {
    &&& 0 <= i < s.len()
    &&& is_break_char(s[i])
    &&& (s[i] == '\r' ==> (i + 1 == s.len() || s[i + 1] != '\n'))
}

/// The number of line breaks that end before index `n`: the line index of the
/// char at `n`.
pub open spec fn breaks_before(s: Seq<char>, n: int) -> nat
    decreases n,
{
    if n <= 0 {
        0
    } else {
        breaks_before(s, n - 1) + if is_break_end(s, n - 1) { 1nat } else { 0nat }
    }
}

/// The number of lines of `s`.
pub open spec fn line_count(s: Seq<char>) -> nat {
    breaks_before(s, s.len() as int) + 1
}

/// Scanning from `p`, the index just after the `l`-th line break (or the end).
pub open spec fn scan_breaks(s: Seq<char>, l: nat, p: int) -> int
    decreases s.len() - p,
{
    if l == 0 {
        p
    } else if p >= s.len() {
        s.len() as int
    } else if is_break_end(s, p) {
        scan_breaks(s, (l - 1) as nat, p + 1)
    } else {
        scan_breaks(s, l, p + 1)
    }
}

/// The index of the first char of line `l` (`s.len()` for `l == line_count`).
pub open spec fn line_start(s: Seq<char>, l: int) -> int {
    scan_breaks(s, l as nat, 0)
}

/// Scanning stays between its start and the end of the text, and moves no
/// earlier when asked for more breaks.
pub proof fn lemma_scan_bounds(s: Seq<char>, l: nat, p: int)
    requires
        0 <= p <= s.len(),
    ensures
        p <= scan_breaks(s, l, p) <= s.len(),
        scan_breaks(s, l, p) <= scan_breaks(s, l + 1, p),
    decreases s.len() - p,
{
    if p < s.len() {
        lemma_scan_bounds(s, l, p + 1);
        if l > 0 {
            lemma_scan_bounds(s, (l - 1) as nat, p + 1);
        }
        if is_break_end(s, p) {
            lemma_scan_bounds(s, l, p + 1);
        }
    }
}

/// Line starts are ordered and inside the text.
pub proof fn lemma_line_start_bounds(s: Seq<char>, l: int)
    requires
        0 <= l,
    ensures
        0 <= line_start(s, l) <= line_start(s, l + 1) <= s.len(),
{
    lemma_scan_bounds(s, l as nat, 0);
    lemma_scan_bounds(s, (l + 1) as nat, 0);
}

/// At most one line break ends at each index.
pub proof fn lemma_breaks_before_le(s: Seq<char>, b: int)
    ensures
        breaks_before(s, b) <= (if b > 0 { b } else { 0 }),
    decreases b,
{
    if b > 0 {
        lemma_breaks_before_le(s, b - 1);
    }
}

/// Counting breaks is monotone and bounded by the length.
pub proof fn lemma_breaks_before_mono(s: Seq<char>, a: int, b: int)
    requires
        a <= b,
    ensures
        breaks_before(s, a) <= breaks_before(s, b),
        breaks_before(s, b) <= (if b > 0 { b } else { 0 }),
    decreases b - a,
{
    lemma_breaks_before_le(s, b);
    if a < b {
        lemma_breaks_before_mono(s, a, b - 1);
    }
}

/// The line holding index `c` starts at or before `c`.
pub proof fn lemma_line_of_starts_before(s: Seq<char>, c: int)
    requires
        0 <= c <= s.len(),
    ensures
        line_start(s, breaks_before(s, c) as int) <= c,
{
    lemma_scan_upto(s, 0, c);
}

/// Scanning from `p` for the breaks that end in `[p, c)` stops at or before `c`.
pub proof fn lemma_scan_upto(s: Seq<char>, p: int, c: int)
    requires
        0 <= p <= c <= s.len(),
    ensures
        breaks_before(s, p) <= breaks_before(s, c),
        scan_breaks(s, (breaks_before(s, c) - breaks_before(s, p)) as nat, p) <= c,
    decreases c - p,
{
    lemma_breaks_before_mono(s, p, c);
    if p < c {
        lemma_scan_upto(s, p + 1, c);
        assert(breaks_before(s, p + 1) == breaks_before(s, p) + if is_break_end(s, p) { 1nat } else { 0nat });
    }
}

/// `Rope::from_str`: a rope holding the chars of `text`.
#[verifier::external_body]
pub(crate) fn rope_from_str(text: &str) -> (r: ropey::Rope)
    ensures
        rope_text(r) == text@,
{
    ropey::Rope::from_str(text)
}

/// `Rope::len_chars`: the number of chars.
#[verifier::external_body]
pub(crate) fn rope_len_chars(r: &ropey::Rope) -> (n: usize)
    ensures
        n == rope_text(*r).len(),
{
    r.len_chars()
}

/// `Rope::len_lines`: the number of lines (line breaks plus one).
#[verifier::external_body]
pub(crate) fn rope_len_lines(r: &ropey::Rope) -> (n: usize)
    ensures
        n == line_count(rope_text(*r)),
{
    r.len_lines()
}

/// `Rope::char`: the char at `idx` (ropey panics past the end).
#[verifier::external_body]
pub(crate) fn rope_char(r: &ropey::Rope, idx: usize) -> (c: char)
    requires
        idx < rope_text(*r).len(),
    ensures
        c == rope_text(*r)[idx as int],
{
    r.char(idx)
}

/// `Rope::char_to_line`: the line holding char `idx`, i.e. the number of line
/// breaks before it (`idx` may be one past the end; ropey panics beyond).
#[verifier::external_body]
pub(crate) fn rope_char_to_line(r: &ropey::Rope, idx: usize) -> (l: usize)
    requires
        idx <= rope_text(*r).len(),
    ensures
        l == breaks_before(rope_text(*r), idx as int),
{
    r.char_to_line(idx)
}

/// `Rope::line_to_char`: the char index where line `line` starts (`line`
/// may be one past the last line, giving the end; ropey panics beyond).
#[verifier::external_body]
pub(crate) fn rope_line_to_char(r: &ropey::Rope, line: usize) -> (c: usize)
    requires
        line <= line_count(rope_text(*r)),
    ensures
        c == line_start(rope_text(*r), line as int),
{
    r.line_to_char(line)
}

/// `Rope::insert_char`: inserts `c` at char index `idx` (ropey panics past
/// the end).
#[verifier::external_body]
pub(crate) fn rope_insert_char(r: &mut ropey::Rope, idx: usize, c: char)
    requires
        idx <= rope_text(*old(r)).len(),
    ensures
        rope_text(*final(r)) == rope_text(*old(r)).insert(idx as int, c),
{
    r.insert_char(idx, c)
}

/// `Rope::insert`: inserts `text` at char index `idx` (ropey panics past the
/// end).
#[verifier::external_body]
pub(crate) fn rope_insert(r: &mut ropey::Rope, idx: usize, text: &str)
    requires
        idx <= rope_text(*old(r)).len(),
    ensures
        rope_text(*final(r)) == rope_text(*old(r)).take(idx as int) + text@ + rope_text(*old(r)).skip(
            idx as int,
        ),
{
    r.insert(idx, text)
}

/// `Rope::remove`: removes the chars in `start..end` (ropey panics if
/// `start > end` or `end` is past the end).
#[verifier::external_body]
pub(crate) fn rope_remove(r: &mut ropey::Rope, start: usize, end: usize)
    requires
        start <= end <= rope_text(*old(r)).len(),
    ensures
        rope_text(*final(r)) == rope_text(*old(r)).take(start as int) + rope_text(*old(r)).skip(
            end as int,
        ),
{
    r.remove(start..end)
}

/// `Rope::slice` collected into a `String`: the chars in `start..end`.
#[verifier::external_body]
pub(crate) fn rope_slice_string(r: &ropey::Rope, start: usize, end: usize) -> (s: String)
    requires
        start <= end <= rope_text(*r).len(),
    ensures
        s@ == rope_text(*r).subrange(start as int, end as int),
{
    r.slice(start..end).chars().collect()
}

/// `Rope::chars` collected into a `Vec`: all the chars, in order.
#[verifier::external_body]
pub(crate) fn rope_chars(r: &ropey::Rope) -> (v: Vec<char>)
    ensures
        v@ == rope_text(*r),
{
    r.chars().collect()
}


/// Scanning from `p` for `k` of the breaks after it lands where exactly `k`
/// more breaks have ended.
pub proof fn lemma_scan_counts(s: Seq<char>, k: nat, p: int)
    requires
        0 <= p <= s.len(),
        breaks_before(s, p) + k <= breaks_before(s, s.len() as int),
    ensures
        breaks_before(s, scan_breaks(s, k, p)) == breaks_before(s, p) + k,
    decreases s.len() - p,
{
    lemma_breaks_before_mono(s, p, s.len() as int);
    if k > 0 {
        if p >= s.len() {
            assert(false);
        }
        assert(breaks_before(s, p + 1) == breaks_before(s, p) + if is_break_end(s, p) { 1nat } else { 0nat });
        if is_break_end(s, p) {
            lemma_scan_counts(s, (k - 1) as nat, p + 1);
        } else {
            lemma_scan_counts(s, k, p + 1);
        }
    }
}

/// The start of line `l` lies on line `l`.
pub proof fn lemma_line_of_line_start(s: Seq<char>, l: int)
    requires
        0 <= l < line_count(s),
    ensures
        breaks_before(s, line_start(s, l)) == l,
{
    lemma_scan_counts(s, l as nat, 0);
}

} // verus!
