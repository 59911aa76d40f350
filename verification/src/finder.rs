//! The fzf-style file finder: a visible, escapable transient overlay that
//! replaces the modal minibuffer for opening and naming files.
//!
//! It's "LEAP applied to filenames": type to narrow a fuzzy-matched list,
//! move the selection, accept or escape. This module is the finder's state
//! and its decisions: query line editing, ranking, selection, what a key
//! asks for and what an acceptance resolves to, and the layout of each
//! frame. The front-end runs the loop, draws, and opens the file.

use vstd::prelude::*;

use nucleo_matcher::pattern::{CaseMatching, Normalization, Pattern};
use nucleo_matcher::{Config, Matcher, Utf32Str};

use crate::buffer::{is_word_char, word_end_after, word_start_before};
use crate::input::{KeyChord, LogicalKey};
use crate::text::{chars_of, clip, decimal, push_char, push_decimal, push_repeat, repeat, take_chars, trim, trimmed};
use crate::walk::Candidate;

verus! {

/// Why the finder was invoked.
#[derive(Clone, Copy, PartialEq, Eq, Debug, Structural)]
pub enum Mode {
    /// Pick an existing file to open.
    Open,
    /// Name a file to save to (the typed query becomes the path).
    Save,
}

/// What the user chose.
#[derive(Clone, PartialEq, Eq, Debug)]
pub enum Outcome {
    Open(String),
    Save(String),
    Cancel,
    /// `C-q`: quit the editor directly from the finder (so it isn't a trap).
    Quit,
}

/// What a key asks of the finder's loop.
#[derive(Clone, Copy, PartialEq, Eq, Debug, Structural)]
pub enum Action {
    Continue,
    Accept,
    Cancel,
    Quit,
}

#[verifier::external_type_specification]
#[verifier::external_body]
pub struct ExMatcher(Matcher);

/// The score nucleo's matcher gives `hay` for the pattern `query` (parsed
/// with smart case and smart normalisation), `None` when it does not match.
pub uninterp spec fn fuzzy_score(query: Seq<char>, hay: Seq<char>) -> Option<u32>;

/// The positions of `hay` nucleo's matcher reports as matching `query`.
pub uninterp spec fn fuzzy_positions(query: Seq<char>, hay: Seq<char>) -> Seq<u32>;

/// `Matcher::new(Config::DEFAULT)`: a matcher with nucleo's default scoring.
#[verifier::external_body]
fn new_matcher() -> (m: Matcher) {
    Matcher::new(Config::DEFAULT)
}

/// `Pattern::parse(query, Smart, Smart).score(hay, matcher)`. The pattern
/// sets the matcher's case and normalisation flags itself, and every matcher
/// here starts from `Config::DEFAULT`, so the score is a function of `query`
/// and `hay` alone. nucleo panics on a haystack of more than `u32::MAX`
/// codepoints.
#[verifier::external_body]
fn score_with(matcher: &mut Matcher, query: &str, hay: &str) -> (r: Option<u32>)
    requires
        hay@.len() <= u32::MAX,
    ensures
        r == fuzzy_score(query@, hay@),
{
    let pattern = Pattern::parse(query, CaseMatching::Smart, Normalization::Smart);
    let mut buf = Vec::new();
    pattern.score(Utf32Str::new(hay, &mut buf), matcher)
}

/// `Pattern::parse(query, Smart, Smart).indices(hay, matcher, out)` into an
/// empty `out`: the matched positions of `hay`, for highlighting. Like the
/// score, a function of `query` and `hay` alone.
#[verifier::external_body]
fn positions_with(matcher: &mut Matcher, query: &str, hay: &str) -> (r: Vec<u32>)
    requires
        hay@.len() <= u32::MAX,
    ensures
        r@ == fuzzy_positions(query@, hay@),
{
    let pattern = Pattern::parse(query, CaseMatching::Smart, Normalization::Smart);
    let mut buf = Vec::new();
    let mut out = Vec::new();
    pattern.indices(Utf32Str::new(hay, &mut buf), matcher, &mut out);
    out
}

} // verus!

verus! {

/// The finder's state as plain values.
pub struct FinderState {
    pub query: Seq<char>,
    /// Cursor position in `query`, as a char index.
    pub qcursor: int,
    pub pool: Seq<Candidate>,
    /// Indices into `pool`, ranked best-first for the query.
    pub results: Seq<usize>,
    /// Index into `results` of the highlighted row.
    pub selected: int,
    /// First visible row of `results` (scroll offset).
    pub offset: int,
}

/// The finder's state: the query line, the candidate pool, and the ranked
/// results with the highlighted row.
pub struct State {
    query: String,
    /// Cursor position in `query`, as a char index.
    qcursor: usize,
    pool: Vec<Candidate>,
    /// Indices into `pool`, ranked best-first for the current query.
    results: Vec<usize>,
    /// Index into `results` of the highlighted row.
    selected: usize,
    /// First visible row of `results` (scroll offset).
    offset: usize,
    matcher: Matcher,
}

impl View for State {
    type V = FinderState;

    closed spec fn view(&self) -> FinderState {
        FinderState {
            query: self.query@,
            qcursor: self.qcursor as int,
            pool: self.pool@,
            results: self.results@,
            selected: self.selected as int,
            offset: self.offset as int,
        }
    }
}

/// The finder's invariant: the query cursor inside the query, every
/// candidate's name within what the matcher takes, the results pointing into
/// the pool, and the highlighted row a result (row 0 when there are none).
pub open spec fn finder_wf(s: FinderState) -> bool {
    &&& 0 <= s.qcursor <= s.query.len()
    &&& forall|i: int| 0 <= i < s.pool.len() ==> (#[trigger] s.pool[i]).display@.len() <= u32::MAX
    &&& forall|k: int| 0 <= k < s.results.len() ==> #[trigger] s.results[k] < s.pool.len()
    &&& s.results.len() == 0 ==> s.selected == 0
    &&& s.results.len() > 0 ==> 0 <= s.selected < s.results.len()
}

/// The ranking order on `(score, mtime, index)` keys: a higher score first,
/// then the more recently modified file, then walk order.
pub open spec fn key_before(s1: int, m1: int, i1: int, s2: int, m2: int, i2: int) -> bool {
    ||| s1 > s2
    ||| s1 == s2 && m1 > m2
    ||| s1 == s2 && m1 == m2 && i1 < i2
}

/// Candidate `a` ranks before candidate `b` for the pattern `q`.
pub open spec fn ranks_before(pool: Seq<Candidate>, q: Seq<char>, a: int, b: int) -> bool {
    key_before(
        fuzzy_score(q, pool[a].display@)->0 as int,
        pool[a].mtime as int,
        a,
        fuzzy_score(q, pool[b].display@)->0 as int,
        pool[b].mtime as int,
        b,
    )
}

/// `r` lists exactly the candidates that match the pattern `q`, each once,
/// best first.
pub open spec fn ranked(r: Seq<usize>, q: Seq<char>, pool: Seq<Candidate>) -> bool {
    &&& forall|k: int|
        0 <= k < r.len() ==> #[trigger] r[k] < pool.len() && fuzzy_score(q, pool[r[k] as int].display@) is Some
    &&& forall|i: int|
        0 <= i < pool.len() && (#[trigger] fuzzy_score(q, pool[i].display@)) is Some ==> exists|k: int|
            0 <= k < r.len() && r[k] == i
    &&& forall|j: int, k: int| 0 <= j < k < r.len() ==> ranks_before(pool, q, r[j] as int, r[k] as int)
}

/// The results for `query`: with a blank query (only white space) every
/// candidate in walk order, else the candidates that match the trimmed
/// query, best first.
pub open spec fn results_for(r: Seq<usize>, query: Seq<char>, pool: Seq<Candidate>) -> bool {
    let q = trimmed(query);
    if q.len() == 0 {
        r == Seq::new(pool.len(), |i: int| i as usize)
    } else {
        ranked(r, q, pool)
    }
}

/// The query with `c` inserted at char index `i`.
pub open spec fn query_inserted(q: Seq<char>, i: int, c: char) -> Seq<char> {
    q.take(i).push(c) + q.skip(i)
}

/// The query without its chars `a..b`.
pub open spec fn query_cut(q: Seq<char>, a: int, b: int) -> Seq<char> {
    q.take(a) + q.skip(b)
}

impl State {
    /// The finder's invariant holds.
    pub open spec fn wf(&self) -> bool {
        finder_wf(self@)
    }

    /// A finder over `pool`, seeded with `query` and its cursor at the end.
    /// The results stay empty until [`State::refilter`] first ranks them.
    pub fn new(pool: Vec<Candidate>, query: String) -> (s: Self)
        requires
            forall|i: int| 0 <= i < pool@.len() ==> (#[trigger] pool@[i]).display@.len() <= u32::MAX,
        ensures
            s.wf(),
            s@ == (FinderState {
                query: query@,
                qcursor: query@.len() as int,
                pool: pool@,
                results: Seq::empty(),
                selected: 0,
                offset: 0,
            }),
    {
        let qcursor = query.as_str().unicode_len();
        State { query, qcursor, pool, results: Vec::new(), selected: 0, offset: 0, matcher: new_matcher() }
    }

    /// The query line.
    pub fn query(&self) -> (q: &str)
        ensures
            q@ == self@.query,
    {
        self.query.as_str()
    }

    /// The query cursor, as a char index.
    pub fn qcursor(&self) -> (c: usize)
        ensures
            c == self@.qcursor,
    {
        self.qcursor
    }

    /// The ranked results, as indices into the pool.
    pub fn results(&self) -> (r: &Vec<usize>)
        ensures
            r@ == self@.results,
    {
        &self.results
    }

    /// The candidate pool.
    pub fn pool(&self) -> (p: &Vec<Candidate>)
        ensures
            p@ == self@.pool,
    {
        &self.pool
    }

    /// Index into the results of the highlighted row.
    pub fn selected(&self) -> (i: usize)
        ensures
            i == self@.selected,
    {
        self.selected
    }

    /// Replace the query line, with the cursor at its end (results unchanged
    /// until the next [`State::refilter`]).
    pub fn set_query(&mut self, query: String)
        requires
            old(self).wf(),
        ensures
            final(self).wf(),
            final(self)@ == (FinderState { query: query@, qcursor: query@.len() as int, ..old(self)@ }),
    {
        self.qcursor = query.as_str().unicode_len();
        self.query = query;
    }
}

} // verus!

verus! {

/// The chars `v[..a]`, then `mid`, then `v[b..]`.
fn spliced(v: &Vec<char>, a: usize, b: usize, mid: &str) -> (s: String)
    requires
        a <= b <= v@.len(),
    ensures
        s@ == v@.take(a as int) + mid@ + v@.skip(b as int),
{
    let mut s = String::new();
    let mut i: usize = 0;
    while i < a
        invariant
            a <= b <= v@.len(),
            i <= a,
            s@ == v@.take(i as int),
        decreases a - i,
    {
        push_char(&mut s, v[i]);
        i += 1;
        assert(s@ == v@.take(i as int));
    }
    s.append(mid);
    let ghost head = s@;
    let mut j = b;
    while j < v.len()
        invariant
            b <= j <= v@.len(),
            s@ == head + v@.subrange(b as int, j as int),
        decreases v.len() - j,
    {
        push_char(&mut s, v[j]);
        j += 1;
        assert(s@ == head + v@.subrange(b as int, j as int));
    }
    assert(v@.subrange(b as int, v@.len() as int) == v@.skip(b as int));
    s
}

/// The chars of `v` without `v[a..b]`.
fn cut(v: &Vec<char>, a: usize, b: usize) -> (s: String)
    requires
        a <= b <= v@.len(),
    ensures
        s@ == v@.take(a as int) + v@.skip(b as int),
{
    proof {
        reveal_strlit("");
    }
    let s = spliced(v, a, b, "");
    assert(v@.take(a as int) + ""@ == v@.take(a as int));
    s
}

impl State {
    /// Char index of the start of the word before the query cursor (skip
    /// non-word, then word chars): the editor's notion of a word.
    fn q_word_back(&self) -> (i: usize)
        requires
            self.wf(),
        ensures
            i == word_start_before(self@.query, self@.qcursor),
            i <= self@.qcursor,
    {
        let chars = chars_of(self.query.as_str());
        let ghost q = self@.query;
        let mut i = self.qcursor;
        while i > 0 && !is_word_char(chars[i - 1])
            invariant
                chars@ == q,
                i <= self@.qcursor <= q.len(),
                crate::buffer::skip_back(q, self@.qcursor, true) == crate::buffer::skip_back(q, i as int, true),
            decreases i,
        {
            i -= 1;
        }
        let ghost mid = i as int;
        while i > 0 && is_word_char(chars[i - 1])
            invariant
                chars@ == q,
                i <= mid <= self@.qcursor <= q.len(),
                mid == crate::buffer::skip_back(q, self@.qcursor, true),
                crate::buffer::skip_back(q, mid, false) == crate::buffer::skip_back(q, i as int, false),
            decreases i,
        {
            i -= 1;
        }
        i
    }

    /// Char index of the end of the word after the query cursor.
    fn q_word_forward(&self) -> (i: usize)
        requires
            self.wf(),
        ensures
            i == word_end_after(self@.query, self@.qcursor),
            self@.qcursor <= i <= self@.query.len(),
    {
        let chars = chars_of(self.query.as_str());
        let ghost q = self@.query;
        let n = chars.len();
        let mut i = self.qcursor;
        while i < n && !is_word_char(chars[i])
            invariant
                chars@ == q,
                n == q.len(),
                self@.qcursor <= i <= n,
                crate::buffer::skip_fwd(q, self@.qcursor, true) == crate::buffer::skip_fwd(q, i as int, true),
            decreases n - i,
        {
            i += 1;
        }
        let ghost mid = i as int;
        while i < n && is_word_char(chars[i])
            invariant
                chars@ == q,
                n == q.len(),
                self@.qcursor <= mid <= i <= n,
                mid == crate::buffer::skip_fwd(q, self@.qcursor, true),
                crate::buffer::skip_fwd(q, mid, false) == crate::buffer::skip_fwd(q, i as int, false),
            decreases n - i,
        {
            i += 1;
        }
        i
    }

    /// Insert `c` at the query cursor and move past it.
    pub fn q_insert(&mut self, c: char)
        requires
            old(self).wf(),
        ensures
            final(self).wf(),
            final(self)@ == (FinderState {
                query: query_inserted(old(self)@.query, old(self)@.qcursor, c),
                qcursor: old(self)@.qcursor + 1,
                ..old(self)@
            }),
    {
        let v = chars_of(self.query.as_str());
        let mut mid = String::new();
        push_char(&mut mid, c);
        let q = spliced(&v, self.qcursor, self.qcursor, mid.as_str());
        let n = q.as_str().unicode_len();
        assert(q@ == query_inserted(v@, self.qcursor as int, c));
        self.query = q;
        self.qcursor = self.qcursor + 1;
    }

    /// Delete the char before the query cursor.
    pub fn q_backspace(&mut self)
        requires
            old(self).wf(),
        ensures
            final(self).wf(),
            old(self)@.qcursor == 0 ==> final(self)@ == old(self)@,
            old(self)@.qcursor > 0 ==> final(self)@ == (FinderState {
                query: query_cut(old(self)@.query, old(self)@.qcursor - 1, old(self)@.qcursor),
                qcursor: old(self)@.qcursor - 1,
                ..old(self)@
            }),
    {
        if self.qcursor == 0 {
            return;
        }
        let v = chars_of(self.query.as_str());
        self.query = cut(&v, self.qcursor - 1, self.qcursor);
        self.qcursor = self.qcursor - 1;
    }

    /// Delete the char at the query cursor.
    pub fn q_delete(&mut self)
        requires
            old(self).wf(),
        ensures
            final(self).wf(),
            old(self)@.qcursor >= old(self)@.query.len() ==> final(self)@ == old(self)@,
            old(self)@.qcursor < old(self)@.query.len() ==> final(self)@ == (FinderState {
                query: query_cut(old(self)@.query, old(self)@.qcursor, old(self)@.qcursor + 1),
                ..old(self)@
            }),
    {
        let v = chars_of(self.query.as_str());
        if self.qcursor >= v.len() {
            return;
        }
        self.query = cut(&v, self.qcursor, self.qcursor + 1);
    }

    /// `C-k`: delete from the query cursor to the end.
    pub fn q_kill_to_end(&mut self)
        requires
            old(self).wf(),
        ensures
            final(self).wf(),
            final(self)@ == (FinderState { query: old(self)@.query.take(old(self)@.qcursor), ..old(self)@ }),
    {
        let v = chars_of(self.query.as_str());
        self.query = cut(&v, self.qcursor, v.len());
        assert(v@.skip(v@.len() as int) == Seq::<char>::empty());
        assert(v@.take(self.qcursor as int) + Seq::<char>::empty() == v@.take(self.qcursor as int));
    }

    /// `C-u`: delete from the start of the query to the cursor.
    pub fn q_kill_to_start(&mut self)
        requires
            old(self).wf(),
        ensures
            final(self).wf(),
            final(self)@ == (FinderState { query: old(self)@.query.skip(old(self)@.qcursor), qcursor: 0, ..old(self)@ }),
    {
        let v = chars_of(self.query.as_str());
        self.query = cut(&v, 0, self.qcursor);
        assert(Seq::<char>::empty() + v@.skip(self.qcursor as int) == v@.skip(self.qcursor as int));
        self.qcursor = 0;
    }

    /// `C-w`: delete the word before the query cursor.
    pub fn q_kill_word_back(&mut self)
        requires
            old(self).wf(),
        ensures
            final(self).wf(),
            final(self)@ == (FinderState {
                query: query_cut(
                    old(self)@.query,
                    word_start_before(old(self)@.query, old(self)@.qcursor),
                    old(self)@.qcursor,
                ),
                qcursor: word_start_before(old(self)@.query, old(self)@.qcursor),
                ..old(self)@
            }),
    {
        let start = self.q_word_back();
        let v = chars_of(self.query.as_str());
        self.query = cut(&v, start, self.qcursor);
        self.qcursor = start;
    }
}

} // verus!

verus! {

/// Whether the scored entry `a` (pool index, score) ranks before `b`.
fn entry_before(pool: &Vec<Candidate>, a: (usize, u32), b: (usize, u32)) -> (r: bool)
    requires
        a.0 < pool@.len(),
        b.0 < pool@.len(),
    ensures
        r == key_before(a.1 as int, pool@[a.0 as int].mtime as int, a.0 as int, b.1 as int, pool@[b.0 as int].mtime as int, b.0 as int),
{
    let ma = pool[a.0].mtime;
    let mb = pool[b.0].mtime;
    a.1 > b.1 || (a.1 == b.1 && (ma > mb || (ma == mb && a.0 < b.0)))
}

/// The scored entries of `pool` seen so far, best first: each a matching
/// candidate with its score, every matching candidate before `upto` among
/// them, all in ranking order.
pub open spec fn scored_ok(e: Seq<(usize, u32)>, q: Seq<char>, pool: Seq<Candidate>, upto: int) -> bool {
    &&& forall|k: int|
        0 <= k < e.len() ==> (#[trigger] e[k]).0 < upto && upto <= pool.len() && fuzzy_score(q, pool[e[k].0 as int].display@)
            == Some(e[k].1)
    &&& forall|j: int|
        0 <= j < upto && (#[trigger] fuzzy_score(q, pool[j].display@)) is Some ==> exists|k: int|
            0 <= k < e.len() && e[k].0 == j
    &&& forall|j: int, k: int|
        0 <= j < k < e.len() ==> key_before(
            e[j].1 as int,
            pool[e[j].0 as int].mtime as int,
            e[j].0 as int,
            e[k].1 as int,
            pool[e[k].0 as int].mtime as int,
            e[k].0 as int,
        )
}

/// Rank the candidates of `pool` that match the pattern `q`, best first.
fn rank(matcher: &mut Matcher, pool: &Vec<Candidate>, q: &str) -> (r: Vec<usize>)
    requires
        forall|i: int| 0 <= i < pool@.len() ==> (#[trigger] pool@[i]).display@.len() <= u32::MAX,
    ensures
        ranked(r@, q@, pool@),
{
    let mut scored: Vec<(usize, u32)> = Vec::new();
    let n = pool.len();
    let mut i: usize = 0;
    while i < n
        invariant
            n == pool@.len(),
            i <= n,
            forall|j: int| 0 <= j < pool@.len() ==> (#[trigger] pool@[j]).display@.len() <= u32::MAX,
            scored_ok(scored@, q@, pool@, i as int),
        decreases n - i,
    {
        let ghost e = scored@;
        match score_with(matcher, q, pool[i].display.as_str()) {
            Some(s) => {
                let x = (i, s);
                let mut p: usize = 0;
                while p < scored.len() && entry_before(pool, scored[p], x)
                    invariant
                        scored@ == e,
                        x == (i, s),
                        n == pool@.len(),
                        i < n,
                        scored_ok(e, q@, pool@, i as int),
                        p <= e.len(),
                        forall|m: int|
                            0 <= m < p ==> key_before(
                                (#[trigger] e[m]).1 as int,
                                pool@[e[m].0 as int].mtime as int,
                                e[m].0 as int,
                                s as int,
                                pool@[i as int].mtime as int,
                                i as int,
                            ),
                    decreases e.len() - p,
                {
                    p += 1;
                }
                proof {
                    assert forall|m: int| p <= m < e.len() implies key_before(
                        s as int,
                        pool@[i as int].mtime as int,
                        i as int,
                        (#[trigger] e[m]).1 as int,
                        pool@[e[m].0 as int].mtime as int,
                        e[m].0 as int,
                    ) by {
                        assert(e[p as int].0 < i);
                        if m > p {
                            assert(key_before(
                                e[p as int].1 as int,
                                pool@[e[p as int].0 as int].mtime as int,
                                e[p as int].0 as int,
                                e[m].1 as int,
                                pool@[e[m].0 as int].mtime as int,
                                e[m].0 as int,
                            ));
                        }
                    }
                }
                scored.insert(p, x);
                proof {
                    let f = scored@;
                    assert(f == e.insert(p as int, x));
                    assert forall|k: int| 0 <= k < f.len() implies (#[trigger] f[k]).0 < i + 1 && i + 1 <= pool@.len()
                        && fuzzy_score(q@, pool@[f[k].0 as int].display@) == Some(f[k].1) by {
                        if k < p {
                            assert(f[k] == e[k]);
                        } else if k > p {
                            assert(f[k] == e[k - 1]);
                        }
                    }
                    assert forall|j: int|
                        0 <= j < i + 1 && (#[trigger] fuzzy_score(q@, pool@[j].display@)) is Some implies exists|k: int|
                            0 <= k < f.len() && f[k].0 == j by {
                        if j < i {
                            let k0 = choose|k: int| 0 <= k < e.len() && e[k].0 == j;
                            if k0 < p {
                                assert(f[k0] == e[k0]);
                            } else {
                                assert(f[k0 + 1] == e[k0]);
                            }
                        } else {
                            assert(f[p as int] == x);
                        }
                    }
                    assert forall|j: int, k: int| 0 <= j < k < f.len() implies key_before(
                        f[j].1 as int,
                        pool@[f[j].0 as int].mtime as int,
                        f[j].0 as int,
                        f[k].1 as int,
                        pool@[f[k].0 as int].mtime as int,
                        f[k].0 as int,
                    ) by {
                        if k < p {
                            assert(f[j] == e[j] && f[k] == e[k]);
                        } else if k == p {
                            assert(f[j] == e[j]);
                        } else if j < p {
                            assert(f[j] == e[j] && f[k] == e[k - 1]);
                        } else if j == p {
                            assert(f[k] == e[k - 1]);
                        } else {
                            assert(f[j] == e[j - 1] && f[k] == e[k - 1]);
                        }
                    }
                }
            },
            None => {
                proof {
                    assert forall|j: int|
                        0 <= j < i + 1 && (#[trigger] fuzzy_score(q@, pool@[j].display@)) is Some implies exists|k: int|
                            0 <= k < e.len() && e[k].0 == j by {
                        if j < i {
                            let k0 = choose|k: int| 0 <= k < e.len() && e[k].0 == j;
                        }
                    }
                }
            },
        }
        i += 1;
    }
    let ghost e = scored@;
    let mut r: Vec<usize> = Vec::new();
    let mut k: usize = 0;
    while k < scored.len()
        invariant
            e == scored@,
            n == pool@.len(),
            scored_ok(e, q@, pool@, n as int),
            k <= e.len(),
            r@.len() == k,
            forall|m: int| 0 <= m < k ==> #[trigger] r@[m] == e[m].0,
        decreases e.len() - k,
    {
        r.push(scored[k].0);
        k += 1;
    }
    proof {
        let rs = r@;
        assert forall|k: int| 0 <= k < rs.len() implies #[trigger] rs[k] < pool@.len() && fuzzy_score(
            q@,
            pool@[rs[k] as int].display@,
        ) is Some by {
            assert(rs[k] == e[k].0);
        }
        assert forall|i: int| 0 <= i < pool@.len() && (#[trigger] fuzzy_score(q@, pool@[i].display@)) is Some implies exists|k: int|
            0 <= k < rs.len() && rs[k] == i by {
            let k0 = choose|k: int| 0 <= k < e.len() && e[k].0 == i;
            assert(rs[k0] == e[k0].0);
        }
        assert forall|j: int, k: int| 0 <= j < k < rs.len() implies ranks_before(pool@, q@, rs[j] as int, rs[k] as int) by {
            assert(rs[j] == e[j].0 && rs[k] == e[k].0);
            assert(e[j].0 < n && e[k].0 < n);
        }
    }
    r
}

} // verus!

verus! {

/// `s` with the selection moved by `delta` rows, clamped to the results.
pub open spec fn selection_moved(s: FinderState, delta: int) -> FinderState {
    if s.results.len() == 0 {
        s
    } else {
        let t = s.selected + delta;
        let last = s.results.len() - 1;
        FinderState { selected: if t < 0 { 0 } else if t > last { last } else { t }, ..s }
    }
}

/// `root` joined with `p` as `Path::join` does on Unix: an absolute `p`
/// replaces the root; otherwise a `/` separates the two unless the root is
/// empty or already ends with one.
pub open spec fn path_joined(root: Seq<char>, p: Seq<char>) -> Seq<char> {
    if p.len() > 0 && p[0] == '/' {
        p
    } else if root.len() == 0 || root.last() == '/' {
        root + p
    } else {
        root + seq!['/'] + p
    }
}

/// The highlighted candidate's path, if there is one.
pub open spec fn selected_path(s: FinderState) -> Option<Seq<char>> {
    if 0 <= s.selected < s.results.len() {
        Some(s.pool[s.results[s.selected] as int].path@)
    } else {
        None
    }
}

/// What accepting resolves to, as plain values: `Open(path)` or
/// `Save(path)`; `None` to stay open.
pub enum Chosen {
    Open(Seq<char>),
    Save(Seq<char>),
}

/// What accepting in `mode` resolves to under `root`: the highlighted file
/// to open; to save, the trimmed query as a path (absolute, or relative to
/// `root`), or the highlighted file when the query is blank.
pub open spec fn acceptance(s: FinderState, mode: Mode, root: Seq<char>) -> Option<Chosen> {
    match mode {
        Mode::Open => match selected_path(s) {
            Some(p) => Some(Chosen::Open(p)),
            None => None,
        },
        Mode::Save => if trimmed(s.query).len() > 0 {
            Some(Chosen::Save(path_joined(root, trimmed(s.query))))
        } else {
            match selected_path(s) {
                Some(p) => Some(Chosen::Save(p)),
                None => None,
            }
        },
    }
}

/// Whether the outcome `o` is the plain choice `c`.
pub open spec fn outcome_is(o: Option<Outcome>, c: Option<Chosen>) -> bool {
    match c {
        None => o is None,
        Some(Chosen::Open(p)) => o matches Some(Outcome::Open(x)) && x@ == p,
        Some(Chosen::Save(p)) => o matches Some(Outcome::Save(x)) && x@ == p,
    }
}

/// `root` joined with the relative or absolute path `p` (Unix paths).
fn join_path(root: &str, p: &str) -> (r: String)
    ensures
        r@ == path_joined(root@, p@),
{
    let pv = chars_of(p);
    if pv.len() > 0 && pv[0] == '/' {
        return p.to_owned();
    }
    let rv = chars_of(root);
    let mut r = root.to_owned();
    if rv.len() > 0 && rv[rv.len() - 1] != '/' {
        push_char(&mut r, '/');
    }
    r.append(p);
    r
}

impl State {
    /// Re-rank the pool against the current query and highlight the first
    /// row: a blank query keeps the walk's order, anything else keeps the
    /// candidates matching the trimmed query, best first.
    pub fn refilter(&mut self)
        requires
            old(self).wf(),
        ensures
            final(self).wf(),
            results_for(final(self)@.results, old(self)@.query, old(self)@.pool),
            final(self)@ == (FinderState { results: final(self)@.results, selected: 0, offset: 0, ..old(self)@ }),
    {
        let v = chars_of(self.query.as_str());
        let q = trim(&v);
        if q.as_str().is_empty() {
            // A blank query keeps the walk's mtime-recency order.
            let n = self.pool.len();
            let mut r: Vec<usize> = Vec::new();
            let mut i: usize = 0;
            while i < n
                invariant
                    i <= n,
                    r@ == Seq::new(i as nat, |j: int| j as usize),
                decreases n - i,
            {
                r.push(i);
                i += 1;
                assert(r@ == Seq::new(i as nat, |j: int| j as usize));
            }
            self.results = r;
        } else {
            self.results = rank(&mut self.matcher, &self.pool, q.as_str());
            proof {
                assert forall|k: int| 0 <= k < self@.results.len() implies #[trigger] self@.results[k]
                    < self@.pool.len() by {
                    assert(self@.results[k] < self@.pool.len() && fuzzy_score(
                        q@,
                        self@.pool[self@.results[k] as int].display@,
                    ) is Some);
                }
            }
        }
        self.selected = 0;
        self.offset = 0;
    }

    /// Move the highlighted row by `delta`, clamped to the results.
    pub fn move_selection(&mut self, delta: isize)
        requires
            old(self).wf(),
        ensures
            final(self).wf(),
            final(self)@ == selection_moved(old(self)@, delta as int),
    {
        if self.results.len() == 0 {
            return;
        }
        let ghost s0 = self@;
        let last = self.results.len() - 1;
        let t = self.selected as i128 + delta as i128;
        self.selected = if t < 0 {
            0
        } else if t > last as i128 {
            last
        } else {
            t as usize
        };
        assert(self@.pool == s0.pool);
    }

    /// Resolve the user's acceptance in `mode` into an outcome, or `None` to
    /// stay open. A typed path to save to is taken relative to `root` unless
    /// it is absolute.
    pub fn accept(&self, mode: Mode, root: &str) -> (o: Option<Outcome>)
        requires
            self.wf(),
        ensures
            outcome_is(o, acceptance(self@, mode, root@)),
    {
        match mode {
            Mode::Open => {
                if self.selected < self.results.len() {
                    let idx = self.results[self.selected];
                    Some(Outcome::Open(self.pool[idx].path.clone()))
                } else {
                    None
                }
            },
            Mode::Save => {
                let v = chars_of(self.query.as_str());
                let q = trim(&v);
                if !q.as_str().is_empty() {
                    // The typed query is the path (absolute, or relative to root).
                    Some(Outcome::Save(join_path(root, q.as_str())))
                } else if self.selected < self.results.len() {
                    // No query: save over the highlighted file, if any.
                    let idx = self.results[self.selected];
                    Some(Outcome::Save(self.pool[idx].path.clone()))
                } else {
                    None
                }
            },
        }
    }
}

} // verus!

verus! {

/// What a key asks of the finder's loop: `Esc`/`C-g` cancel, `C-q` quits,
/// `Enter` accepts; every other key is handled in place.
pub open spec fn finder_action(k: KeyChord) -> Action {
    match k.key {
        LogicalKey::Esc => Action::Cancel,
        LogicalKey::Enter => Action::Accept,
        LogicalKey::Char(c) => if c == 'g' && k.ctrl {
            Action::Cancel
        } else if c == 'q' && k.ctrl {
            Action::Quit
        } else {
            Action::Continue
        },
        _ => Action::Continue,
    }
}

/// The query cursor moved to `c`.
pub open spec fn qcursor_at(s: FinderState, c: int) -> FinderState {
    FinderState { qcursor: c, ..s }
}

/// How a key edits the query line, before the results are re-ranked; `None`
/// for a key that does not edit it. `Tab` completes the query to the
/// highlighted result.
pub open spec fn query_edit(s: FinderState, k: KeyChord) -> Option<FinderState> {
    let q = s.query;
    let c = s.qcursor;
    let backspace = if c == 0 {
        s
    } else {
        FinderState { query: query_cut(q, c - 1, c), qcursor: c - 1, ..s }
    };
    let delete = if c >= q.len() {
        s
    } else {
        FinderState { query: query_cut(q, c, c + 1), ..s }
    };
    match k.key {
        LogicalKey::Tab => if 0 <= s.selected < s.results.len() {
            let d = s.pool[s.results[s.selected] as int].display@;
            Some(FinderState { query: d, qcursor: d.len() as int, ..s })
        } else {
            None
        },
        LogicalKey::Backspace => Some(backspace),
        LogicalKey::Delete => Some(delete),
        LogicalKey::Char(ch) => if (ch == 'g' || ch == 'q' || ch == 'n' || ch == 'p' || ch == 'b' || ch == 'f'
            || ch == 'a' || ch == 'e') && k.ctrl {
            None
        } else if (ch == 'b' || ch == 'f') && k.alt {
            None
        } else if ch == 'h' && k.ctrl {
            Some(backspace)
        } else if ch == 'd' && k.ctrl {
            Some(delete)
        } else if ch == 'k' && k.ctrl {
            Some(FinderState { query: q.take(c), ..s })
        } else if ch == 'w' && k.ctrl {
            let w = word_start_before(q, c);
            Some(FinderState { query: query_cut(q, w, c), qcursor: w, ..s })
        } else if ch == 'u' && k.ctrl {
            Some(FinderState { query: q.skip(c), qcursor: 0, ..s })
        } else if !k.ctrl && !k.alt {
            Some(FinderState { query: query_inserted(q, c, ch), qcursor: c + 1, ..s })
        } else {
            None
        },
        _ => None,
    }
}

/// What a key that does not edit the query does: move the selection
/// (`Down`/`C-n`, `Up`/`C-p`) or the query cursor (readline keys), or
/// nothing.
pub open spec fn navigated(s: FinderState, k: KeyChord) -> FinderState {
    let c = s.qcursor;
    let len = s.query.len() as int;
    let left = if c > 0 { c - 1 } else { 0 };
    let right = if c + 1 <= len { c + 1 } else { len };
    match k.key {
        LogicalKey::Down => selection_moved(s, 1),
        LogicalKey::Up => selection_moved(s, -1),
        LogicalKey::Left => qcursor_at(s, left),
        LogicalKey::Right => qcursor_at(s, right),
        LogicalKey::Home => qcursor_at(s, 0),
        LogicalKey::End => qcursor_at(s, len),
        LogicalKey::Char(ch) => if k.ctrl && ch == 'n' {
            selection_moved(s, 1)
        } else if k.ctrl && ch == 'p' {
            selection_moved(s, -1)
        } else if k.ctrl && ch == 'b' {
            qcursor_at(s, left)
        } else if k.ctrl && ch == 'f' {
            qcursor_at(s, right)
        } else if k.ctrl && ch == 'a' {
            qcursor_at(s, 0)
        } else if k.ctrl && ch == 'e' {
            qcursor_at(s, len)
        } else if k.alt && !k.ctrl && ch == 'b' {
            qcursor_at(s, word_start_before(s.query, c))
        } else if k.alt && !k.ctrl && ch == 'f' {
            qcursor_at(s, word_end_after(s.query, c))
        } else {
            s
        },
        _ => s,
    }
}

impl State {
    /// Handle one key: leave (cancel, quit, accept), or act in place: move
    /// the selection or the query cursor, or edit the query and re-rank.
    #[verifier::rlimit(40)]
    pub fn handle_key(&mut self, key: KeyChord) -> (a: Action)
        requires
            old(self).wf(),
        ensures
            final(self).wf(),
            a == finder_action(key),
            a != Action::Continue ==> final(self)@ == old(self)@,
            a == Action::Continue && query_edit(old(self)@, key) is None ==> final(self)@ == navigated(old(self)@, key),
            a == Action::Continue ==> (query_edit(old(self)@, key) matches Some(e) ==> {
                &&& final(self)@ == (FinderState { results: final(self)@.results, selected: 0, offset: 0, ..e })
                &&& results_for(final(self)@.results, e.query, e.pool)
            }),
    {
        let ctrl = key.ctrl;
        let alt = key.alt;
        match key.key {
            // Leaving the finder: cancel back to the buffer, or quit the
            // editor outright (so the finder is never a trap).
            LogicalKey::Esc => return Action::Cancel,
            LogicalKey::Enter => return Action::Accept,
            LogicalKey::Down => self.move_selection(1),
            LogicalKey::Up => self.move_selection(-1),
            // Complete the query to the highlighted result.
            LogicalKey::Tab => {
                if self.selected < self.results.len() {
                    let idx = self.results[self.selected];
                    let d = self.pool[idx].display.clone();
                    self.set_query(d);
                    self.refilter();
                }
            },
            // Query cursor movement (no re-rank: the query is unchanged).
            LogicalKey::Left => self.qcursor = self.qcursor.saturating_sub(1),
            LogicalKey::Right => self.q_right(),
            LogicalKey::Home => self.qcursor = 0,
            LogicalKey::End => self.qcursor = self.query.as_str().unicode_len(),
            // Query editing (re-rank afterwards).
            LogicalKey::Backspace => {
                self.q_backspace();
                self.refilter();
            },
            LogicalKey::Delete => {
                self.q_delete();
                self.refilter();
            },
            LogicalKey::Char(c) => {
                if c == 'g' && ctrl {
                    return Action::Cancel;
                } else if c == 'q' && ctrl {
                    return Action::Quit;
                } else if c == 'n' && ctrl {
                    self.move_selection(1);
                } else if c == 'p' && ctrl {
                    self.move_selection(-1);
                } else if c == 'b' && ctrl {
                    self.qcursor = self.qcursor.saturating_sub(1);
                } else if c == 'f' && ctrl {
                    self.q_right();
                } else if c == 'a' && ctrl {
                    self.qcursor = 0;
                } else if c == 'e' && ctrl {
                    self.qcursor = self.query.as_str().unicode_len();
                } else if c == 'b' && alt {
                    self.qcursor = self.q_word_back();
                } else if c == 'f' && alt {
                    self.qcursor = self.q_word_forward();
                } else if c == 'h' && ctrl {
                    self.q_backspace();
                    self.refilter();
                } else if c == 'd' && ctrl {
                    self.q_delete();
                    self.refilter();
                } else if c == 'k' && ctrl {
                    self.q_kill_to_end();
                    self.refilter();
                } else if c == 'w' && ctrl {
                    self.q_kill_word_back();
                    self.refilter();
                } else if c == 'u' && ctrl {
                    self.q_kill_to_start();
                    self.refilter();
                } else if !ctrl && !alt {
                    self.q_insert(c);
                    self.refilter();
                }
            },
            _ => {},
        }
        Action::Continue
    }

    /// Move the query cursor one char right, stopping at the end.
    fn q_right(&mut self)
        requires
            old(self).wf(),
        ensures
            final(self).wf(),
            final(self)@ == qcursor_at(
                old(self)@,
                if old(self)@.qcursor + 1 <= old(self)@.query.len() { old(self)@.qcursor + 1 } else {
                    old(self)@.query.len() as int
                },
            ),
    {
        let ghost s0 = self@;
        let n = self.query.as_str().unicode_len();
        if self.qcursor < n {
            self.qcursor = self.qcursor + 1;
        }
        assert(self@.pool == s0.pool);
    }
}

} // verus!

verus! {

/// One result row of a finder frame.
pub struct ResultRow {
    /// The candidate's name relative to the walk root.
    pub display: String,
    /// Whether this is the highlighted row.
    pub selected: bool,
    /// The positions of `display` that match the query (none for a blank
    /// query), for highlighting.
    pub matched: Vec<u32>,
}

/// A render-ready frame of the finder, in cells.
pub struct FinderFrame {
    /// Row 0: the mode, the query, and the result count, clipped to the width.
    pub prompt: String,
    /// The rows below the prompt, one per screen row: a result, or `None`
    /// past the end of the list.
    pub rows: Vec<Option<ResultRow>>,
    /// The column of the query cursor on the prompt row.
    pub cursor_col: usize,
}

/// The prompt's label for `mode`.
pub open spec fn mode_label(mode: Mode) -> Seq<char> {
    match mode {
        Mode::Open => "find"@,
        Mode::Save => "save"@,
    }
}

/// The prompt row: `label › query`, padded so that the `matched/total`
/// count ends one column before the right edge, clipped to `width`.
pub open spec fn prompt_text(s: FinderState, mode: Mode, width: int) -> Seq<char> {
    let prompt = mode_label(mode) + " › "@ + s.query;
    let count = decimal(s.results.len()) + "/"@ + decimal(s.pool.len());
    let used = prompt.len() + count.len() + 1;
    let pad: nat = if width > used { (width - used) as nat } else { 0 };
    clip(prompt + repeat(' ', pad) + count + " "@, width)
}

/// The scroll offset after keeping the highlighted row inside a window of
/// `h` rows.
pub open spec fn offset_for(s: FinderState, h: int) -> int {
    if h > 0 {
        if s.selected < s.offset {
            s.selected
        } else if s.selected >= s.offset + h {
            s.selected + 1 - h
        } else {
            s.offset
        }
    } else {
        s.offset
    }
}

/// What screen row `row` (below the prompt) shows: the result at
/// `offset + row`, with its name, whether it is highlighted, and the
/// positions matching the trimmed query.
pub open spec fn row_shows_result(r: Option<ResultRow>, s: FinderState, row: int) -> bool {
    let k = s.offset + row;
    if k < s.results.len() {
        let d = s.pool[s.results[k] as int].display@;
        let q = trimmed(s.query);
        &&& r matches Some(x)
        &&& x.display@ == d
        &&& x.selected == (k == s.selected)
        &&& x.matched@ == (if q.len() > 0 { fuzzy_positions(q, d) } else { Seq::empty() })
    } else {
        r is None
    }
}

impl State {
    /// Lay out the next `cols` × `rows` frame: keep the highlighted row
    /// inside the list window (row 0 is the prompt), then return the prompt,
    /// the visible results, and the query cursor's column.
    #[verifier::rlimit(40)]
    pub fn layout(&mut self, mode: Mode, cols: u16, rows: u16) -> (f: FinderFrame)
        requires
            old(self).wf(),
        ensures
            final(self).wf(),
            final(self)@ == (FinderState {
                offset: offset_for(old(self)@, if rows > 1 { rows - 1 } else { 0 }),
                ..old(self)@
            }),
            f.prompt@ == prompt_text(old(self)@, mode, cols as int),
            f.rows@.len() == (if rows > 1 { rows - 1 } else { 0 }),
            forall|r: int| 0 <= r < f.rows@.len() ==> row_shows_result(#[trigger] f.rows@[r], final(self)@, r),
            f.cursor_col == (if 7 + old(self)@.qcursor <= cols - 1 { 7 + old(self)@.qcursor } else if cols > 0 {
                cols - 1
            } else {
                0
            }),
    {
        let ghost s0 = self@;
        let width = cols as usize;
        let list_rows = rows.saturating_sub(1) as usize;
        // Keep the selection within the visible window.
        if list_rows > 0 {
            if self.selected < self.offset {
                self.offset = self.selected;
            } else if self.selected - self.offset >= list_rows {
                self.offset = self.selected - list_rows + 1;
            }
        }
        assert(self@.pool == s0.pool);
        let ghost s1 = self@;
        proof {
            reveal_strlit("find");
            reveal_strlit("save");
            reveal_strlit(" › ");
            reveal_strlit("/");
            reveal_strlit(" ");
        }

        // Prompt row.
        let mut prompt = match mode {
            Mode::Open => String::from_str("find"),
            Mode::Save => String::from_str("save"),
        };
        prompt.append(" › ");
        prompt.append(self.query.as_str());
        let mut count = String::new();
        push_decimal(&mut count, self.results.len());
        push_char(&mut count, '/');
        push_decimal(&mut count, self.pool.len());
        let used = prompt.as_str().unicode_len() as u128 + count.as_str().unicode_len() as u128 + 1;
        let pad: usize = if (width as u128) > used {
            (width as u128 - used) as usize
        } else {
            0
        };
        let mut line = prompt;
        push_repeat(&mut line, ' ', pad);
        line.append(count.as_str());
        line.append(" ");
        let prompt_line = take_chars(line.as_str(), width);

        // Result rows.
        let v = chars_of(self.query.as_str());
        let q = trim(&v);
        let blank = q.as_str().is_empty();
        let mut out: Vec<Option<ResultRow>> = Vec::new();
        let mut r: usize = 0;
        while r < list_rows
            invariant
                self.wf(),
                self@ == s1,
                s1.pool == s0.pool,
                s1.query == s0.query,
                q@ == trimmed(s0.query),
                blank == (q@.len() == 0),
                list_rows <= u16::MAX,
                r <= list_rows,
                out@.len() == r,
                forall|j: int| 0 <= j < r ==> row_shows_result(#[trigger] out@[j], self@, j),
            decreases list_rows - r,
        {
            let k = self.offset as u128 + r as u128;
            if k < self.results.len() as u128 {
                let k = k as usize;
                let idx = self.results[k];
                let display = self.pool[idx].display.clone();
                let matched = if blank {
                    Vec::new()
                } else {
                    positions_with(&mut self.matcher, q.as_str(), display.as_str())
                };
                out.push(Some(ResultRow { display, selected: k == self.selected, matched }));
            } else {
                out.push(None);
            }
            r += 1;
        }

        // The query cursor: "label › " is seven cells wide.
        let want = 7 + self.qcursor as u128;
        let last = if width > 0 { width - 1 } else { 0 };
        let cursor_col = if want <= last as u128 { want as usize } else { last };
        FinderFrame { prompt: prompt_line, rows: out, cursor_col }
    }
}

} // verus!

verus! {

/// Two lists, each without repeats in ranking order, that hold the same
/// candidates are the same list.
proof fn lemma_same_members_same_order(r1: Seq<usize>, r2: Seq<usize>, q: Seq<char>, pool: Seq<Candidate>)
    requires
        forall|j: int, k: int| 0 <= j < k < r1.len() ==> ranks_before(pool, q, r1[j] as int, r1[k] as int),
        forall|j: int, k: int| 0 <= j < k < r2.len() ==> ranks_before(pool, q, r2[j] as int, r2[k] as int),
        forall|x: usize| r1.contains(x) <==> r2.contains(x),
    ensures
        r1 == r2,
    decreases r1.len() + r2.len(),
{
    if r1.len() == 0 {
        if r2.len() > 0 {
            assert(r2.contains(r2[0]));
        }
        assert(r1 =~= r2);
    } else if r2.len() == 0 {
        assert(r1.contains(r1[0]));
    } else {
        let x = r1[0];
        let y = r2[0];
        assert(r1.contains(x));
        assert(r2.contains(y));
        if x != y {
            let j = choose|j: int| 0 <= j < r2.len() && r2[j] == x;
            let i = choose|i: int| 0 <= i < r1.len() && r1[i] == y;
            assert(ranks_before(pool, q, y as int, x as int));
            assert(ranks_before(pool, q, x as int, y as int));
        }
        let t1 = r1.drop_first();
        let t2 = r2.drop_first();
        assert forall|e: usize| t1.contains(e) <==> t2.contains(e) by {
            if t1.contains(e) {
                let i = choose|i: int| 0 <= i < t1.len() && t1[i] == e;
                assert(r1[i + 1] == e);
                assert(ranks_before(pool, q, x as int, e as int));
                assert(r1.contains(e));
                let k = choose|k: int| 0 <= k < r2.len() && r2[k] == e;
                assert(k != 0);
                assert(t2[k - 1] == e);
            }
            if t2.contains(e) {
                let i = choose|i: int| 0 <= i < t2.len() && t2[i] == e;
                assert(r2[i + 1] == e);
                assert(ranks_before(pool, q, y as int, e as int));
                assert(r2.contains(e));
                let k = choose|k: int| 0 <= k < r1.len() && r1[k] == e;
                assert(k != 0);
                assert(t1[k - 1] == e);
            }
        }
        lemma_same_members_same_order(t1, t2, q, pool);
        assert(r1 =~= seq![x] + t1);
        assert(r2 =~= seq![y] + t2);
    }
}

/// The ranking is determined by the pattern and the pool: there is exactly
/// one list of the matching candidates, best first.
pub proof fn lemma_ranking_is_unique(r1: Seq<usize>, r2: Seq<usize>, q: Seq<char>, pool: Seq<Candidate>)
    requires
        ranked(r1, q, pool),
        ranked(r2, q, pool),
    ensures
        r1 == r2,
{
    assert forall|x: usize| r1.contains(x) <==> r2.contains(x) by {
        if r1.contains(x) {
            let k = choose|k: int| 0 <= k < r1.len() && r1[k] == x;
            assert(fuzzy_score(q, pool[r1[k] as int].display@) is Some);
            let j = choose|j: int| 0 <= j < r2.len() && r2[j] == x as int;
            assert(r2[j] == x);
        }
        if r2.contains(x) {
            let k = choose|k: int| 0 <= k < r2.len() && r2[k] == x;
            assert(fuzzy_score(q, pool[r2[k] as int].display@) is Some);
            let j = choose|j: int| 0 <= j < r1.len() && r1[j] == x as int;
            assert(r1[j] == x);
        }
    }
    lemma_same_members_same_order(r1, r2, q, pool);
}

/// Moving the selection or the query cursor never edits the query and never
/// re-ranks: the results stay as they were.
pub proof fn lemma_navigation_keeps_query(s: FinderState, k: KeyChord)
    requires
        query_edit(s, k) is None,
    ensures
        navigated(s, k).query == s.query,
        navigated(s, k).results == s.results,
        navigated(s, k).pool == s.pool,
{
}

/// Typing a char and then Backspace gives the query and its cursor back.
pub proof fn lemma_insert_then_backspace(s: FinderState, c: char)
    requires
        finder_wf(s),
    ensures
        query_cut(query_inserted(s.query, s.qcursor, c), s.qcursor, s.qcursor + 1) == s.query,
{
    let q = s.query;
    let i = s.qcursor;
    let t = query_inserted(q, i, c);
    assert(t.take(i) == q.take(i));
    assert(t.skip(i + 1) == q.skip(i));
    assert(q.take(i) + q.skip(i) == q);
}

} // verus!
