//! Workspace persistence: the single continuous text stream kept as an
//! **append-only edit log**.
//!
//! Every insert and delete is a row; the text is reconstructed by replaying
//! the live history chain (following `parent` pointers from the head) on top
//! of the latest snapshot. Undo moves the head back past an edit group and
//! hands back the inverse edits; redo follows the newest child branch; a new
//! edit after an undo forks, leaving the undone branch in the log. Nothing is
//! ever overwritten.
//!
//! [`Store`] is the log itself, with the live head, the snapshot and the
//! resume state. The front-end program mirrors every change into the SQLite
//! workspace file and rebuilds a [`Store`] from it on launch.

use vstd::prelude::*;

use crate::text::{chars_of, push_char};

verus! {

/// One edit applied to the text stream, as recorded in the log.
///
/// Positions are **char indices** into the stream. A delete carries the text
/// it removed so undo can restore it without consulting any other state.
#[derive(Clone, Debug, PartialEq, Eq)]
pub enum EditOp {
    /// `text` was inserted, its first char landing at char index `pos`.
    Insert { pos: usize, text: String },
    /// `text` was removed; it had started at char index `pos`.
    Delete { pos: usize, text: String },
}

/// An edit as a plain value: whether it inserts, where, and which text.
pub struct Op {
    pub insert: bool,
    pub pos: int,
    pub text: Seq<char>,
}

impl View for EditOp {
    type V = Op;

    open spec fn view(&self) -> Op {
        match self {
            EditOp::Insert { pos, text } => Op { insert: true, pos: *pos as int, text: text@ },
            EditOp::Delete { pos, text } => Op { insert: false, pos: *pos as int, text: text@ },
        }
    }
}

/// `a`, capped at `b`.
pub open spec fn cap(a: int, b: int) -> int {
    if a <= b { a } else { b }
}

/// The text after applying `op` to `s`. Positions past the end are clamped
/// to the end; a delete removes as many chars as its text holds.
pub open spec fn apply_op(op: Op, s: Seq<char>) -> Seq<char> {
    if op.insert {
        let a = cap(op.pos, s.len() as int);
        s.take(a) + op.text + s.skip(a)
    } else {
        let a = cap(op.pos, s.len() as int);
        let b = cap(op.pos + op.text.len(), s.len() as int);
        s.take(a) + s.skip(b)
    }
}

/// The text after applying `ops` to `s`, first to last.
pub open spec fn replay(s: Seq<char>, ops: Seq<Op>) -> Seq<char>
    decreases ops.len(),
{
    if ops.len() == 0 {
        s
    } else {
        apply_op(ops.last(), replay(s, ops.drop_last()))
    }
}

/// The edit that reverses `op`.
pub open spec fn inverse(op: Op) -> Op {
    Op { insert: !op.insert, ..op }
}

/// Whether `op` fits `s` exactly: an insert lands inside (or at the end of)
/// the text, and a delete names exactly the chars that stand at its position.
pub open spec fn exact(op: Op, s: Seq<char>) -> bool {
    &&& 0 <= op.pos <= s.len()
    &&& !op.insert ==> op.pos + op.text.len() <= s.len()
        && s.subrange(op.pos, op.pos + op.text.len()) == op.text
}

/// Whether every op of `ops` fits exactly the text it is applied to.
pub open spec fn replay_exact(s: Seq<char>, ops: Seq<Op>) -> bool
    decreases ops.len(),
{
    if ops.len() == 0 {
        true
    } else {
        replay_exact(s, ops.drop_last()) && exact(ops.last(), replay(s, ops.drop_last()))
    }
}

/// Appends `v[from..to]` to `out`.
fn push_range(out: &mut String, v: &Vec<char>, from: usize, to: usize)
    requires
        from <= to <= v.len(),
    ensures
        final(out)@ == old(out)@ + v@.subrange(from as int, to as int),
{
    let mut i = from;
    while i < to
        invariant
            from <= i <= to <= v.len(),
            out@ == old(out)@ + v@.subrange(from as int, i as int),
        decreases to - i,
    {
        push_char(out, v[i]);
        i += 1;
        assert(out@ == old(out)@ + v@.subrange(from as int, i as int));
    }
}

impl EditOp {
    /// Apply this edit to a plain `String` (used when replaying the log).
    pub fn apply(&self, s: &mut String)
        ensures
            final(s)@ == apply_op(self@, old(s)@),
    {
        let v = chars_of(s.as_str());
        let n = v.len();
        let mut out = String::new();
        match self {
            EditOp::Insert { pos, text } => {
                let a = if *pos <= n { *pos } else { n };
                push_range(&mut out, &v, 0, a);
                out.append(text.as_str());
                push_range(&mut out, &v, a, n);
                assert(v@.subrange(0, a as int) == v@.take(a as int));
                assert(v@.subrange(a as int, n as int) == v@.skip(a as int));
            },
            EditOp::Delete { pos, text } => {
                let len = text.as_str().unicode_len();
                let a = if *pos <= n { *pos } else { n };
                let b = if *pos >= n { n } else if len <= n - *pos { *pos + len } else { n };
                push_range(&mut out, &v, 0, a);
                push_range(&mut out, &v, b, n);
                assert(v@.subrange(0, a as int) == v@.take(a as int));
                assert(v@.subrange(b as int, n as int) == v@.skip(b as int));
            },
        }
        *s = out;
    }

    /// The log's op code: `0` for an insert, `1` for a delete.
    pub fn op_code(&self) -> (c: i64)
        ensures
            c == (if self@.insert { 0i64 } else { 1i64 }),
    {
        match self {
            EditOp::Insert { .. } => 0,
            EditOp::Delete { .. } => 1,
        }
    }

    /// The char index the edit starts at.
    pub fn pos(&self) -> (p: usize)
        ensures
            p == self@.pos,
    {
        match self {
            EditOp::Insert { pos, .. } => *pos,
            EditOp::Delete { pos, .. } => *pos,
        }
    }

    /// The inserted text, or the removed text of a delete.
    pub fn body(&self) -> (b: &str)
        ensures
            b@ == self@.text,
    {
        match self {
            EditOp::Insert { text, .. } => text.as_str(),
            EditOp::Delete { text, .. } => text.as_str(),
        }
    }

    /// An equal edit (`clone`, with its contents known).
    pub fn duplicate(&self) -> (r: EditOp)
        ensures
            r@ == self@,
    {
        match self {
            EditOp::Insert { pos, text } => EditOp::Insert { pos: *pos, text: text.clone() },
            EditOp::Delete { pos, text } => EditOp::Delete { pos: *pos, text: text.clone() },
        }
    }
}

/// Decode an `(op_code, pos, body)` row into an [`EditOp`].
pub fn decode_op(op: i64, pos: usize, text: String) -> (r: EditOp)
    ensures
        r@ == (Op { insert: op == 0, pos: pos as int, text: text@ }),
{
    if op == 0 {
        EditOp::Insert { pos, text }
    } else {
        EditOp::Delete { pos, text }
    }
}

/// The inverse of an edit (what reverses it when applied to the buffer).
pub fn invert(op: &EditOp) -> (r: EditOp)
    ensures
        r@ == inverse(op@),
{
    match op {
        EditOp::Insert { pos, text } => EditOp::Delete { pos: *pos, text: text.clone() },
        EditOp::Delete { pos, text } => EditOp::Insert { pos: *pos, text: text.clone() },
    }
}

/// Applying an exact edit and then its inverse gives back the text.
pub proof fn lemma_inverse_restores(op: Op, s: Seq<char>)
    requires
        exact(op, s),
    ensures
        apply_op(inverse(op), apply_op(op, s)) == s,
        exact(inverse(op), apply_op(op, s)),
{
    let t = apply_op(op, s);
    if op.insert {
        assert(t.subrange(op.pos, op.pos + op.text.len()) == op.text);
        assert(t.take(op.pos) + t.skip(op.pos + op.text.len()) == s);
    } else {
        assert(t.take(op.pos) + op.text + t.skip(op.pos) == s);
    }
}


/// A row of the edit log.
pub struct Edit {
    /// Position in the log (1, 2, ...): never reused.
    pub seq: i64,
    /// The `seq` this edit was applied after (`0` = the root).
    pub parent: i64,
    /// Coalescing group for undo: a run of typing shares one.
    pub group: i64,
    pub op: EditOp,
}

/// A log row as plain values.
pub struct Row {
    pub seq: int,
    pub parent: int,
    pub group: int,
    pub op: Op,
}

impl View for Edit {
    type V = Row;

    open spec fn view(&self) -> Row {
        Row { seq: self.seq as int, parent: self.parent as int, group: self.group as int, op: self.op@ }
    }
}

/// The row of `rows` whose `seq` is `seq`, if any.
pub open spec fn find(rows: Seq<Row>, seq: int) -> Option<Row>
    decreases rows.len(),
{
    if rows.len() == 0 {
        None
    } else if rows.last().seq == seq {
        Some(rows.last())
    } else {
        find(rows.drop_last(), seq)
    }
}

/// The edits on the live history chain from `upto` (exclusive) to `cur`, in
/// application order, following `parent` pointers; the walk stops at the
/// root, at `upto`, or at a row that is no longer stored.
pub open spec fn chain(rows: Seq<Row>, upto: int, cur: int) -> Seq<Op>
    decreases cur,
{
    if cur <= upto || cur <= 0 {
        Seq::empty()
    } else {
        match find(rows, cur) {
            None => Seq::empty(),
            Some(e) => if 0 <= e.parent < cur {
                chain(rows, upto, e.parent).push(e.op)
            } else {
                seq![e.op]
            },
        }
    }
}

/// Walk back from `cur` over the rows of group `group`: the inverses of the
/// edits passed (newest first) and the parent of the last one passed (`None`
/// when none was).
pub open spec fn undo_walk(rows: Seq<Row>, group: int, cur: int) -> (Seq<Op>, Option<int>)
    decreases cur,
{
    match find(rows, cur) {
        Some(e) => if e.group == group {
            if 0 <= e.parent < cur {
                let rest = undo_walk(rows, group, e.parent);
                (
                    seq![inverse(e.op)] + rest.0,
                    match rest.1 {
                        Some(h) => Some(h),
                        None => Some(e.parent),
                    },
                )
            } else {
                (seq![inverse(e.op)], Some(e.parent))
            }
        } else {
            (Seq::empty(), None)
        },
        None => (Seq::empty(), None),
    }
}

/// The newest row whose parent is `parent` (and whose group is `group`, when
/// given), as its `seq`.
pub open spec fn max_child(rows: Seq<Row>, parent: int, group: Option<int>) -> Option<int>
    decreases rows.len(),
{
    if rows.len() == 0 {
        None
    } else if rows.last().parent == parent && (group is None || rows.last().group == group->0) {
        Some(rows.last().seq)
    } else {
        max_child(rows.drop_last(), parent, group)
    }
}

/// Redo forward from the row `cur` along the newest children of group
/// `group`: the edits passed (in application order) and the last row reached.
pub open spec fn redo_walk(rows: Seq<Row>, group: int, cur: int, bound: int) -> (Seq<Op>, int)
    decreases bound - cur,
{
    match find(rows, cur) {
        None => (Seq::empty(), cur),
        Some(e) => match max_child(rows, cur, Some(group)) {
            Some(n) => if cur < n < bound {
                let rest = redo_walk(rows, group, n, bound);
                (seq![e.op] + rest.0, rest.1)
            } else {
                (seq![e.op], cur)
            },
            None => (seq![e.op], cur),
        },
    }
}

/// The rows of `rows` newer than `upto`, in order.
pub open spec fn keep_after(rows: Seq<Row>, upto: int) -> Seq<Row>
    decreases rows.len(),
{
    if rows.len() == 0 {
        rows
    } else if rows.last().seq > upto {
        keep_after(rows.drop_last(), upto).push(rows.last())
    } else {
        keep_after(rows.drop_last(), upto)
    }
}

/// The rows `append` adds for `ops`: consecutive `seq`s from `next`, each the
/// child of the one before, the first the child of `head`.
pub open spec fn appended(ops: Seq<Op>, head: int, next: int, group: int) -> Seq<Row>
    decreases ops.len(),
{
    if ops.len() == 0 {
        Seq::empty()
    } else {
        let n = ops.len() - 1;
        appended(ops.drop_last(), head, next, group).push(Row {
            seq: next + n,
            parent: if n == 0 { head } else { next + n - 1 },
            group,
            op: ops.last(),
        })
    }
}

/// Everything needed to put the editor back exactly where it was.
#[derive(Clone, Debug, Default, PartialEq, Eq)]
pub struct Resume {
    /// The reconstructed text stream.
    pub text: String,
    /// Cursor as a char index into `text`.
    pub cursor: usize,
    /// First visible line (vertical scroll).
    pub top: usize,
    /// First visible display column (horizontal scroll).
    pub left: usize,
}

/// Why the log refused an operation.
#[derive(Clone, Copy, Debug, PartialEq, Eq, Structural)]
pub enum StoreError {
    /// Every `seq` up to `i64::MAX` has been used.
    Full,
}

/// The workspace's edit log with its live head, snapshot and resume state.
pub struct Store {
    rows: Vec<Edit>,
    /// The live history tip (last applied edit's `seq`); `0` means empty.
    head: i64,
    /// The latest full-text checkpoint: the `seq` it was taken at and the text.
    snapshot: Option<(i64, String)>,
    cursor: usize,
    top: usize,
    left: usize,
    /// The `seq` the next appended row gets.
    next_seq: i64,
}

/// The log as plain values.
pub struct Log {
    pub rows: Seq<Row>,
    pub head: int,
    /// The `seq` the snapshot was taken at (`0` without one).
    pub upto: int,
    /// The snapshot's text (empty without one).
    pub base: Seq<char>,
    /// Whether a snapshot has been taken (and rows dropped with it).
    pub taken: bool,
    pub cursor: int,
    pub top: int,
    pub left: int,
    pub next_seq: int,
}

impl View for Store {
    type V = Log;

    closed spec fn view(&self) -> Log {
        Log {
            rows: self.rows@.map_values(|e: Edit| e@),
            head: self.head as int,
            upto: match self.snapshot {
                Some(p) => p.0 as int,
                None => 0,
            },
            base: match self.snapshot {
                Some(p) => p.1@,
                None => Seq::empty(),
            },
            taken: self.snapshot is Some,
            cursor: self.cursor as int,
            top: self.top as int,
            left: self.left as int,
            next_seq: self.next_seq as int,
        }
    }
}

/// The log that [`Store::from_parts`] rebuilds from its parts.
pub open spec fn parts_log(
    rows: Seq<Edit>,
    head: i64,
    snapshot: Option<(i64, String)>,
    cursor: usize,
    top: usize,
    left: usize,
    next_seq: i64,
) -> Log {
    Log {
        rows: rows.map_values(|e: Edit| e@),
        head: head as int,
        upto: match snapshot {
            Some(p) => p.0 as int,
            None => 0,
        },
        base: match snapshot {
            Some(p) => p.1@,
            None => Seq::empty(),
        },
        taken: snapshot is Some,
        cursor: cursor as int,
        top: top as int,
        left: left as int,
        next_seq: next_seq as int,
    }
}

/// The log's invariant: rows in increasing `seq` order, every row newer than
/// its parent and than the snapshot, the head and snapshot inside the `seq`s
/// handed out so far, and, until a snapshot drops rows, the chain's links
/// intact.
pub open spec fn log_wf(l: Log) -> bool {
    &&& 1 <= l.next_seq <= i64::MAX
    &&& l.rows.len() < l.next_seq
    &&& 0 <= l.head < l.next_seq
    &&& 0 <= l.upto < l.next_seq
    &&& forall|i: int| 0 <= i < l.rows.len() ==> {
        &&& l.upto < #[trigger] l.rows[i].seq < l.next_seq
        &&& 0 <= l.rows[i].parent < l.rows[i].seq
    }
    &&& forall|i: int, j: int| 0 <= i < j < l.rows.len() ==> l.rows[i].seq < l.rows[j].seq
    &&& !l.taken ==> linked(l)
}

/// The chain's links hold: the head and the parent of every row are the root
/// (`0`) or a stored row. Every log keeps them until a snapshot is taken;
/// compaction drops rows and may leave links dangling.
pub open spec fn linked(l: Log) -> bool {
    &&& (l.head == 0 || find(l.rows, l.head) is Some)
    &&& forall|i: int| #![trigger l.rows[i]] 0 <= i < l.rows.len() ==> (l.rows[i].parent == 0 || find(l.rows, l.rows[i].parent) is Some)
}

/// The text the log reconstructs: the snapshot with the live chain replayed.
pub open spec fn resume_text(l: Log) -> Seq<char> {
    replay(l.base, chain(l.rows, l.upto, l.head))
}

/// What `undo` hands back and the head it moves to.
pub open spec fn undo_result(l: Log) -> (Seq<Op>, int) {
    if l.head == 0 {
        (Seq::empty(), l.head)
    } else {
        match find(l.rows, l.head) {
            None => (Seq::empty(), l.head),
            Some(top) => {
                let w = undo_walk(l.rows, top.group, l.head);
                (w.0, match w.1 {
                    Some(h) => h,
                    None => l.head,
                })
            },
        }
    }
}

/// What `redo` hands back and the head it moves to.
pub open spec fn redo_result(l: Log) -> (Seq<Op>, int) {
    match max_child(l.rows, l.head, None) {
        None => (Seq::empty(), l.head),
        Some(s) => match find(l.rows, s) {
            None => (Seq::empty(), l.head),
            Some(e) => redo_walk(l.rows, e.group, s, l.next_seq),
        },
    }
}


/// The plain values of a list of edits.
pub open spec fn ops_of(v: Seq<EditOp>) -> Seq<Op> {
    v.map_values(|o: EditOp| o@)
}

/// `s` read from its end to its start.
pub open spec fn backwards<T>(s: Seq<T>) -> Seq<T> {
    Seq::new(s.len(), |i: int| s[s.len() - 1 - i])
}

/// In a well-formed log, looking a row up by its `seq` finds that row.
pub proof fn lemma_find_row(rows: Seq<Row>, i: int)
    requires
        0 <= i < rows.len(),
        forall|a: int, b: int| 0 <= a < b < rows.len() ==> rows[a].seq < rows[b].seq,
    ensures
        find(rows, rows[i].seq) == Some(rows[i]),
    decreases rows.len(),
{
    if i < rows.len() - 1 {
        assert(rows.last().seq != rows[i].seq);
        lemma_find_row(rows.drop_last(), i);
        assert(rows.drop_last()[i] == rows[i]);
    }
}

/// A row found by `find` is a row of the log, with the `seq` asked for.
pub proof fn lemma_find_is_row(rows: Seq<Row>, seq: int)
    ensures
        find(rows, seq) matches Some(e) ==> e.seq == seq && exists|i: int|
            0 <= i < rows.len() && rows[i] == e,
    decreases rows.len(),
{
    if rows.len() > 0 && rows.last().seq != seq {
        lemma_find_is_row(rows.drop_last(), seq);
        if let Some(e) = find(rows, seq) {
            let i = choose|i: int| 0 <= i < rows.drop_last().len() && rows.drop_last()[i] == e;
            assert(rows[i] == e);
        }
    } else if rows.len() > 0 {
        assert(rows[rows.len() - 1] == rows.last());
    }
}

/// The row `max_child` names is a row of the log with that parent (and group).
pub proof fn lemma_max_child_is_row(rows: Seq<Row>, parent: int, group: Option<int>)
    ensures
        max_child(rows, parent, group) matches Some(s) ==> exists|i: int|
            0 <= i < rows.len() && rows[i].seq == s && rows[i].parent == parent
            && (group is None || rows[i].group == group->0),
    decreases rows.len(),
{
    if rows.len() > 0 {
        if rows.last().parent == parent && (group is None || rows.last().group == group->0) {
            assert(rows[rows.len() - 1] == rows.last());
        } else {
            lemma_max_child_is_row(rows.drop_last(), parent, group);
            if let Some(s) = max_child(rows, parent, group) {
                let i = choose|i: int| 0 <= i < rows.drop_last().len() && rows.drop_last()[i].seq == s
                    && rows.drop_last()[i].parent == parent
                    && (group is None || rows.drop_last()[i].group == group->0);
                assert(rows[i] == rows.drop_last()[i]);
            }
        }
    }
}

/// The `seq` the next row of a reopened log gets: one past the largest of the
/// `seq`s the file ever handed out, its newest row, the head and the
/// snapshot's `seq`; `None` when that passes `i64::MAX`.
pub fn fresh_seq(allocated: i64, last_row: i64, head: i64, upto: i64) -> (r: Option<i64>)
    ensures
        ({
            let m1 = if allocated >= last_row { allocated as int } else { last_row as int };
            let m2 = if m1 >= head { m1 } else { head as int };
            let m = if m2 >= upto { m2 } else { upto as int };
            r == if m < i64::MAX { Some((m + 1) as i64) } else { None::<i64> }
        }),
{
    let mut m = if allocated >= last_row { allocated } else { last_row };
    if head > m {
        m = head;
    }
    if upto > m {
        m = upto;
    }
    if m < i64::MAX {
        Some(m + 1)
    } else {
        None
    }
}

/// Index of the row of `rows` whose `seq` is `seq`, searching from the newest.
fn locate(rows: &Vec<Edit>, seq: i64) -> (r: Option<usize>)
    ensures
        match r {
            Some(i) => i < rows@.len() && rows@[i as int]@.seq == seq
                && find(rows@.map_values(|e: Edit| e@), seq as int) == Some(rows@[i as int]@),
            None => find(rows@.map_values(|e: Edit| e@), seq as int) is None,
        },
{
    let ghost all = rows@.map_values(|e: Edit| e@);
    let mut i = rows.len();
    assert(all.take(all.len() as int) == all);
    while i > 0
        invariant
            all == rows@.map_values(|e: Edit| e@),
            all.len() == rows@.len(),
            i <= all.len(),
            find(all, seq as int) == find(all.take(i as int), seq as int),
        decreases i,
    {
        assert(all[i - 1] == rows@[i - 1]@);
        if rows[i - 1].seq == seq {
            assert(all.take(i as int).last() == all[i - 1]);
            return Some(i - 1);
        }
        assert(all.take(i as int).drop_last() == all.take(i - 1));
        i -= 1;
    }
    None
}

impl Store {
    /// The log's invariant holds.
    pub open spec fn wf(&self) -> bool {
        log_wf(self@)
    }

    /// An ephemeral in-memory workspace: no edits, no snapshot, cursor and
    /// scroll at the start.
    pub fn open_in_memory() -> (s: Store)
        ensures
            s.wf(),
            s@.rows.len() == 0,
            s@.head == 0,
            s@.upto == 0,
            s@.base == Seq::<char>::empty(),
            s@.cursor == 0 && s@.top == 0 && s@.left == 0,
            s@.next_seq == 1,
            linked(s@),
    {
        Store {
            rows: Vec::new(),
            head: 0,
            snapshot: None,
            cursor: 0,
            top: 0,
            left: 0,
            next_seq: 1,
        }
    }

    /// The live history tip (`seq` of the last applied edit, or 0 if empty).
    pub fn head(&self) -> (h: i64)
        ensures
            h == self@.head,
    {
        self.head
    }

    /// The stored rows, oldest first.
    pub fn rows(&self) -> (r: &Vec<Edit>)
        ensures
            r@.map_values(|e: Edit| e@) == self@.rows,
    {
        &self.rows
    }

    /// Rebuild a workspace from what its file holds: the rows oldest first,
    /// the head, the snapshot `(upto_seq, text)` if there is one, the resume
    /// position, and the `seq` the next row will get. `None` when the parts
    /// do not form a well-formed log.
    pub fn from_parts(
        rows: Vec<Edit>,
        head: i64,
        snapshot: Option<(i64, String)>,
        cursor: usize,
        top: usize,
        left: usize,
        next_seq: i64,
    ) -> (r: Option<Store>)
        ensures
            r is Some <==> log_wf(parts_log(rows@, head, snapshot, cursor, top, left, next_seq)),
            r matches Some(s) ==> s@ == parts_log(rows@, head, snapshot, cursor, top, left, next_seq),
    {
        let ghost l = parts_log(rows@, head, snapshot, cursor, top, left, next_seq);
        let upto: i64 = match &snapshot {
            Some(p) => p.0,
            None => 0,
        };
        if next_seq < 1 || rows.len() as u128 >= next_seq as u128 {
            return None;
        }
        if head < 0 || head >= next_seq || upto < 0 || upto >= next_seq {
            return None;
        }
        let mut i: usize = 0;
        while i < rows.len()
            invariant
                l == parts_log(rows@, head, snapshot, cursor, top, left, next_seq),
                l.rows.len() == rows@.len(),
                l.upto == upto,
                i <= rows.len(),
                forall|j: int| 0 <= j < i ==> {
                    &&& upto < #[trigger] rows@[j].seq < next_seq
                    &&& 0 <= rows@[j].parent < rows@[j].seq
                },
                forall|j: int, k: int| 0 <= j < k < i ==> rows@[j].seq < rows@[k].seq,
            decreases rows.len() - i,
        {
            let e = &rows[i];
            if !(upto < e.seq && e.seq < next_seq && 0 <= e.parent && e.parent < e.seq) {
                assert(l.rows[i as int] == rows@[i as int]@);
                assert(!(l.upto < l.rows[i as int].seq < l.next_seq && 0 <= l.rows[i as int].parent
                    < l.rows[i as int].seq));
                return None;
            }
            if i > 0 && rows[i - 1].seq >= e.seq {
                assert(l.rows[i - 1] == rows@[i - 1]@);
                assert(l.rows[i as int] == rows@[i as int]@);
                return None;
            }
            i += 1;
        }
        if snapshot.is_none() {
            if head != 0 && locate(&rows, head).is_none() {
                return None;
            }
            let mut k: usize = 0;
            while k < rows.len()
                invariant
                    l == parts_log(rows@, head, snapshot, cursor, top, left, next_seq),
                    l.rows.len() == rows@.len(),
                    k <= rows.len(),
                    !l.taken,
                    forall|j: int| #![trigger l.rows[j]] 0 <= j < k ==> (l.rows[j].parent == 0 || find(l.rows, l.rows[j].parent) is Some),
                decreases rows.len() - k,
            {
                assert(l.rows[k as int] == rows@[k as int]@);
                let p = rows[k].parent;
                if p != 0 && locate(&rows, p).is_none() {
                    assert(!linked(l));
                    return None;
                }
                k += 1;
            }
        }
        let s = Store { rows, head, snapshot, cursor, top, left, next_seq };
        proof {
            assert forall|j: int| 0 <= j < l.rows.len() implies {
                &&& l.upto < #[trigger] l.rows[j].seq < l.next_seq
                &&& 0 <= l.rows[j].parent < l.rows[j].seq
            } by {
                assert(l.rows[j] == s.rows@[j]@);
            }
            assert forall|j: int, k: int| 0 <= j < k < l.rows.len() implies l.rows[j].seq < l.rows[k].seq by {
                assert(l.rows[j] == s.rows@[j]@);
                assert(l.rows[k] == s.rows@[k]@);
            }
            assert(s@ == l);
        }
        Some(s)
    }

    /// The snapshot: the `seq` it was taken at and its text, if there is one.
    pub fn snapshot_part(&self) -> (r: Option<(i64, &str)>)
        ensures
            r matches Some(p) ==> p.0 == self@.upto && p.1@ == self@.base,
            r is None ==> self@.upto == 0 && self@.base == Seq::<char>::empty(),
            r is Some <==> self@.taken,
    {
        match &self.snapshot {
            Some(p) => Some((p.0, p.1.as_str())),
            None => None,
        }
    }

    /// The saved resume position: `(cursor, top, left)`.
    pub fn position(&self) -> (r: (usize, usize, usize))
        ensures
            r.0 == self@.cursor && r.1 == self@.top && r.2 == self@.left,
    {
        (self.cursor, self.top, self.left)
    }

    /// The `seq` the next appended row will get.
    pub fn next_seq(&self) -> (n: i64)
        ensures
            n == self@.next_seq,
    {
        self.next_seq
    }

    /// Index of the row whose `seq` is `seq`.
    fn find_row(&self, seq: i64) -> (r: Option<usize>)
        ensures
            match r {
                Some(i) => i < self@.rows.len() && self@.rows[i as int].seq == seq
                    && find(self@.rows, seq as int) == Some(self@.rows[i as int]),
                None => find(self@.rows, seq as int) is None,
            },
    {
        locate(&self.rows, seq)
    }

    /// Index of the newest row whose parent is `parent` (and whose group is
    /// `group`, when given).
    fn max_child_row(&self, parent: i64, group: Option<i64>) -> (r: Option<usize>)
        requires
            self.wf(),
        ensures
            match r {
                Some(i) => i < self@.rows.len()
                    && max_child(self@.rows, parent as int, match group { Some(g) => Some(g as int), None => None })
                        == Some(self@.rows[i as int].seq),
                None => max_child(self@.rows, parent as int, match group { Some(g) => Some(g as int), None => None }) is None,
            },
    {
        let ghost rows = self@.rows;
        let ghost g = match group { Some(g) => Some(g as int), None => None };
        let mut i = self.rows.len();
        assert(rows.take(rows.len() as int) == rows);
        while i > 0
            invariant
                rows == self@.rows,
                rows.len() == self.rows@.len(),
                i <= rows.len(),
                g == (match group { Some(g) => Some(g as int), None => None::<int> }),
                max_child(rows, parent as int, g) == max_child(rows.take(i as int), parent as int, g),
            decreases i,
        {
            assert(rows[i - 1] == self.rows@[i - 1]@);
            assert(rows.take(i as int).last() == rows[i - 1]);
            let e = &self.rows[i - 1];
            let hit = e.parent == parent && match group {
                None => true,
                Some(gr) => e.group == gr,
            };
            if hit {
                return Some(i - 1);
            }
            assert(rows.take(i as int).drop_last() == rows.take(i - 1));
            i -= 1;
        }
        None
    }

    /// The edits on the live history chain from `upto` (exclusive) to `head`,
    /// in application order: orphaned (undone-then-superseded) branches are
    /// skipped.
    fn chain_ops(&self, upto: i64, head: i64) -> (v: Vec<EditOp>)
        requires
            self.wf(),
        ensures
            ops_of(v@) == chain(self@.rows, upto as int, head as int),
    {
        let ghost rows = self@.rows;
        let mut rev: Vec<EditOp> = Vec::new();
        let mut cur = head;
        loop
            invariant
                self.wf(),
                rows == self@.rows,
                chain(rows, upto as int, head as int)
                    == chain(rows, upto as int, cur as int) + backwards(ops_of(rev@)),
            ensures
                chain(rows, upto as int, head as int) == backwards(ops_of(rev@)),
            decreases cur,
        {
            if cur <= upto || cur <= 0 {
                assert(chain(rows, upto as int, cur as int) == Seq::<Op>::empty());
                assert(Seq::<Op>::empty() + backwards(ops_of(rev@)) == backwards(ops_of(rev@)));
                break;
            }
            match self.find_row(cur) {
                None => {
                    assert(chain(rows, upto as int, cur as int) == Seq::<Op>::empty());
                    assert(Seq::<Op>::empty() + backwards(ops_of(rev@)) == backwards(ops_of(rev@)));
                    break;
                },
                Some(i) => {
                    proof {
                        assert(rows[i as int] == self.rows@[i as int]@);
                    }
                    let ghost before = ops_of(rev@);
                    rev.push(self.rows[i].op.duplicate());
                    proof {
                        assert(ops_of(rev@) == before.push(rows[i as int].op));
                        assert(backwards(before.push(rows[i as int].op))
                            == seq![rows[i as int].op] + backwards(before));
                    }
                    let p = self.rows[i].parent;
                    assert(chain(rows, upto as int, cur as int)
                        == chain(rows, upto as int, p as int).push(rows[i as int].op));
                    cur = p;
                },
            }
        }
        let mut out: Vec<EditOp> = Vec::new();
        let mut k = rev.len();
        while k > 0
            invariant
                k <= rev.len(),
                ops_of(out@) == backwards(ops_of(rev@)).take(rev.len() - k),
            decreases k,
        {
            k -= 1;
            let ghost before = ops_of(out@);
            out.push(rev[k].duplicate());
            assert(ops_of(out@) == before.push(ops_of(rev@)[k as int]));
            assert(ops_of(out@) == backwards(ops_of(rev@)).take(rev.len() - k));
        }
        assert(backwards(ops_of(rev@)).take(rev.len() as int) == backwards(ops_of(rev@)));
        out
    }
}


/// The shape of the rows `append` adds.
pub proof fn lemma_appended_shape(ops: Seq<Op>, head: int, next: int, group: int)
    ensures
        appended(ops, head, next, group).len() == ops.len(),
        forall|k: int| 0 <= k < ops.len() ==> #[trigger] appended(ops, head, next, group)[k] == (Row {
            seq: next + k,
            parent: if k == 0 { head } else { next + k - 1 },
            group,
            op: ops[k],
        }),
    decreases ops.len(),
{
    if ops.len() > 0 {
        lemma_appended_shape(ops.drop_last(), head, next, group);
    }
}

/// What `snapshot` keeps is a subsequence of the rows, newer than `upto`.
pub proof fn lemma_keep_after(rows: Seq<Row>, upto: int)
    ensures
        keep_after(rows, upto).len() <= rows.len(),
        forall|k: int| 0 <= k < keep_after(rows, upto).len() ==> exists|i: int|
            0 <= i < rows.len() && rows[i] == #[trigger] keep_after(rows, upto)[k],
        forall|k: int| 0 <= k < keep_after(rows, upto).len() ==> #[trigger] keep_after(rows, upto)[k].seq > upto,
        (forall|a: int, b: int| 0 <= a < b < rows.len() ==> rows[a].seq < rows[b].seq) ==>
            forall|a: int, b: int| 0 <= a < b < keep_after(rows, upto).len()
                ==> keep_after(rows, upto)[a].seq < keep_after(rows, upto)[b].seq,
    decreases rows.len(),
{
    if rows.len() > 0 {
        let front = rows.drop_last();
        lemma_keep_after(front, upto);
        let kf = keep_after(front, upto);
        let k = keep_after(rows, upto);
        assert forall|j: int| 0 <= j < k.len() implies exists|i: int|
            0 <= i < rows.len() && rows[i] == #[trigger] k[j] by {
            if j < kf.len() {
                let i = choose|i: int| 0 <= i < front.len() && front[i] == kf[j];
                assert(rows[i] == k[j]);
            } else {
                assert(rows[rows.len() - 1] == k[j]);
            }
        }
        if forall|a: int, b: int| 0 <= a < b < rows.len() ==> rows[a].seq < rows[b].seq {
            assert forall|a: int, b: int| 0 <= a < b < k.len() implies k[a].seq < k[b].seq by {
                if b >= kf.len() {
                    let i = choose|i: int| 0 <= i < front.len() && front[i] == kf[a];
                    assert(rows[i] == kf[a]);
                }
            }
        }
    }
}

impl Edit {
    /// An equal row (`clone`, with its contents known).
    pub fn duplicate(&self) -> (r: Edit)
        ensures
            r@ == self@,
    {
        Edit { seq: self.seq, parent: self.parent, group: self.group, op: self.op.duplicate() }
    }
}

impl Store {
    /// Append a batch of edits (one keystroke may produce several) as one
    /// step, advancing the live head. `group_id` ties a coalescing run
    /// together for undo. Returns the new head `seq`; refuses when the log has
    /// run out of `seq`s.
    pub fn append(&mut self, ops: &[EditOp], group_id: i64) -> (r: Result<i64, StoreError>)
        requires
            old(self).wf(),
        ensures
            final(self).wf(),
            ops@.len() == 0 ==> r == Ok::<i64, StoreError>(old(self)@.head as i64) && final(self)@ == old(self)@,
            ops@.len() > 0 && old(self)@.next_seq + ops@.len() > i64::MAX ==> r == Err::<i64, StoreError>(
                StoreError::Full) && final(self)@ == old(self)@,
            ops@.len() > 0 && old(self)@.next_seq + ops@.len() <= i64::MAX ==> {
                &&& r == Ok::<i64, StoreError>(final(self)@.head as i64)
                &&& final(self)@ == (Log {
                    rows: old(self)@.rows + appended(ops_of(ops@), old(self)@.head, old(self)@.next_seq, group_id as int),
                    head: old(self)@.next_seq + ops@.len() - 1,
                    next_seq: old(self)@.next_seq + ops@.len(),
                    ..old(self)@
                })
            },
            linked(old(self)@) ==> linked(final(self)@),
    {
        let n = ops.len();
        if n == 0 {
            return Ok(self.head);
        }
        if n as u128 + self.next_seq as u128 > i64::MAX as u128 {
            return Err(StoreError::Full);
        }
        let ghost old_log = self@;
        let ghost all = ops_of(ops@);
        proof {
            lemma_appended_shape(all, old_log.head, old_log.next_seq, group_id as int);
        }
        let base = self.next_seq;
        let mut head = self.head;
        let mut i: usize = 0;
        while i < n
            invariant
                n == ops@.len(),
                all == ops_of(ops@),
                base == old_log.next_seq,
                1 <= base,
                base + n <= i64::MAX,
                i <= n,
                self@ == (Log {
                    rows: old_log.rows + appended(all.take(i as int), old_log.head, base as int, group_id as int),
                    ..old_log
                }),
                head == (if i == 0 { old_log.head } else { base + i - 1 }),
            decreases n - i,
        {
            assert((i as i64) as int == i as int);
            let row = Edit { seq: base + i as i64, parent: head, group: group_id, op: ops[i].duplicate() };
            let ghost before_vec = self.rows@;
            proof {
                lemma_appended_shape(all.take(i as int), old_log.head, base as int, group_id as int);
                assert(all.len() == n);
                assert(all.take(i as int).len() == i);
                assert(self@.rows.len() == self.rows@.len());
                assert(self.rows@.len() == old_log.rows.len() + i);
            }
            self.rows.push(row);
            proof {
                assert(self.rows@ == before_vec.push(row));
                assert(self@.rows =~= before_vec.map_values(|e: Edit| e@).push(row@));
                assert(all.take(i + 1).drop_last() == all.take(i as int));
                assert(all.take(i + 1).last() == ops@[i as int]@);
                assert(old_log.rows + appended(all.take(i + 1), old_log.head, base as int, group_id as int)
                    =~= (old_log.rows + appended(all.take(i as int), old_log.head, base as int, group_id as int)).push(
                        row@));
            }
            head = base + i as i64;
            i += 1;
        }
        self.next_seq = base + n as i64;
        self.head = head;
        proof {
            assert(all.take(n as int) == all);
            let l = self@;
            let app = appended(all, old_log.head, base as int, group_id as int);
            assert(l.rows == old_log.rows + app);
            assert forall|k: int| 0 <= k < l.rows.len() implies {
                &&& l.upto < #[trigger] l.rows[k].seq < l.next_seq
                &&& 0 <= l.rows[k].parent < l.rows[k].seq
            } by {
                if k >= old_log.rows.len() {
                    assert(l.rows[k] == app[k - old_log.rows.len()]);
                } else {
                    assert(l.rows[k] == old_log.rows[k]);
                }
            }
            assert forall|a: int, b: int| 0 <= a < b < l.rows.len() implies l.rows[a].seq < l.rows[b].seq by {
                if b >= old_log.rows.len() {
                    assert(l.rows[b] == app[b - old_log.rows.len()]);
                    if a >= old_log.rows.len() {
                        assert(l.rows[a] == app[a - old_log.rows.len()]);
                    } else {
                        assert(l.rows[a] == old_log.rows[a]);
                    }
                }
            }
            if linked(old_log) {
                lemma_append_keeps_links(old_log, all, group_id as int);
            }
        }
        Ok(head)
    }

    /// Persist the resume cursor/scroll.
    pub fn set_state(&mut self, cursor: usize, top: usize, left: usize)
        requires
            old(self).wf(),
        ensures
            final(self).wf(),
            final(self)@ == (Log { cursor: cursor as int, top: top as int, left: left as int, ..old(self)@ }),
            linked(old(self)@) ==> linked(final(self)@),
    {
        self.cursor = cursor;
        self.top = top;
        self.left = left;
    }

    /// Reconstruct the full workspace: snapshot text + replayed edits up to
    /// the live head, plus the saved cursor/scroll.
    pub fn resume(&self) -> (r: Resume)
        requires
            self.wf(),
        ensures
            r.text@ == resume_text(self@),
            r.cursor == self@.cursor,
            r.top == self@.top,
            r.left == self@.left,
    {
        let (upto, mut text): (i64, String) = match &self.snapshot {
            Some(p) => (p.0, p.1.clone()),
            None => (0, String::new()),
        };
        let ops = self.chain_ops(upto, self.head);
        let ghost all = ops_of(ops@);
        let mut i: usize = 0;
        while i < ops.len()
            invariant
                all == ops_of(ops@),
                i <= ops.len(),
                text@ == replay(self@.base, all.take(i as int)),
            decreases ops.len() - i,
        {
            ops[i].apply(&mut text);
            assert(all.take(i + 1).drop_last() == all.take(i as int));
            i += 1;
        }
        assert(all.take(ops.len() as int) == all);
        Resume { text, cursor: self.cursor, top: self.top, left: self.left }
    }

    /// Undo the most recent edit group: move the head back past the group and
    /// return the **inverse** ops (newest first) for the caller to apply to
    /// the buffer. Empty when there's nothing to undo. Rows are never deleted,
    /// so a later redo (or a new edit, which forks) can still reach them.
    pub fn undo(&mut self) -> (inv: Vec<EditOp>)
        requires
            old(self).wf(),
        ensures
            final(self).wf(),
            ops_of(inv@) == undo_result(old(self)@).0,
            final(self)@ == (Log { head: undo_result(old(self)@).1, ..old(self)@ }),
            linked(old(self)@) ==> linked(final(self)@),
    {
        let ghost before = self@;
        if self.head == 0 {
            return Vec::new();
        }
        let top = match self.find_row(self.head) {
            None => return Vec::new(),
            Some(i) => i,
        };
        let ghost rows = self@.rows;
        proof {
            assert(rows[top as int] == self.rows@[top as int]@);
        }
        let group = self.rows[top].group;
        let mut inverses: Vec<EditOp> = Vec::new();
        let mut cur = self.head;
        let mut new_head: i64 = 0;
        loop
            invariant
                self.wf(),
                rows == self@.rows,
                0 <= cur < self@.next_seq,
                0 <= new_head < self@.next_seq,
                undo_walk(rows, group as int, self@.head).0 == ops_of(inverses@) + undo_walk(rows, group as int, cur as int).0,
                undo_walk(rows, group as int, self@.head).1 == Some(match undo_walk(rows, group as int, cur as int).1 {
                    Some(h) => h,
                    None => new_head as int,
                }),
            ensures
                undo_walk(rows, group as int, self@.head).0 == ops_of(inverses@),
                undo_walk(rows, group as int, self@.head).1 == Some(new_head as int),
            decreases cur,
        {
            match self.find_row(cur) {
                None => {
                    assert(ops_of(inverses@) + Seq::<Op>::empty() == ops_of(inverses@));
                    break;
                },
                Some(i) => {
                    proof {
                        assert(rows[i as int] == self.rows@[i as int]@);
                    }
                    if self.rows[i].group != group {
                        assert(ops_of(inverses@) + Seq::<Op>::empty() == ops_of(inverses@));
                        break;
                    }
                    let ghost before = ops_of(inverses@);
                    inverses.push(invert(&self.rows[i].op));
                    let p = self.rows[i].parent;
                    proof {
                        assert(ops_of(inverses@) == before.push(inverse(rows[i as int].op)));
                        let rest = undo_walk(rows, group as int, p as int);
                        assert(undo_walk(rows, group as int, cur as int).0 == seq![inverse(rows[i as int].op)] + rest.0);
                        assert(before + (seq![inverse(rows[i as int].op)] + rest.0)
                            == before.push(inverse(rows[i as int].op)) + rest.0);
                    }
                    new_head = p;
                    cur = p;
                    if cur == 0 {
                        proof {
                            lemma_find_is_row(rows, 0);
                            assert(undo_walk(rows, group as int, 0).0 == Seq::<Op>::empty());
                            assert(ops_of(inverses@) + Seq::<Op>::empty() == ops_of(inverses@));
                        }
                        break;
                    }
                },
            }
        }
        self.head = new_head;
        proof {
            assert(self@ == (Log { head: undo_result(before).1, ..before }));
            if linked(before) {
                lemma_undo_keeps_links(before);
            }
        }
        inverses
    }

    /// Redo the next group: the most-recently-created child branch of the
    /// head. Returns the forward ops (application order) and advances the
    /// head. Empty when there's nothing to redo.
    pub fn redo(&mut self) -> (ops: Vec<EditOp>)
        requires
            old(self).wf(),
        ensures
            final(self).wf(),
            ops_of(ops@) == redo_result(old(self)@).0,
            final(self)@ == (Log { head: redo_result(old(self)@).1, ..old(self)@ }),
            linked(old(self)@) ==> linked(final(self)@),
    {
        let ghost rows = self@.rows;
        let ghost bound = self@.next_seq;
        let start = match self.max_child_row(self.head, None) {
            None => return Vec::new(),
            Some(i) => i,
        };
        proof {
            assert(rows[start as int] == self.rows@[start as int]@);
            lemma_find_row(rows, start as int);
        }
        let group = self.rows[start].group;
        let ghost start_seq = rows[start as int].seq;
        let mut ops: Vec<EditOp> = Vec::new();
        let mut cur = start;
        loop
            invariant_except_break
                redo_walk(rows, group as int, start_seq, bound).0
                    == ops_of(ops@) + redo_walk(rows, group as int, rows[cur as int].seq, bound).0,
                redo_walk(rows, group as int, start_seq, bound).1
                    == redo_walk(rows, group as int, rows[cur as int].seq, bound).1,
            invariant
                self.wf(),
                rows == self@.rows,
                bound == self@.next_seq,
                cur < rows.len(),
            ensures
                cur < rows.len(),
                redo_walk(rows, group as int, start_seq, bound).0 == ops_of(ops@),
                redo_walk(rows, group as int, start_seq, bound).1 == rows[cur as int].seq,
            decreases bound - rows[cur as int].seq,
        {
            proof {
                assert(rows[cur as int] == self.rows@[cur as int]@);
                lemma_find_row(rows, cur as int);
            }
            let ghost before = ops_of(ops@);
            ops.push(self.rows[cur].op.duplicate());
            assert(ops_of(ops@) == before.push(rows[cur as int].op));
            let s = self.rows[cur].seq;
            match self.max_child_row(s, Some(group)) {
                Some(j) => {
                    proof {
                        lemma_max_child_is_row(rows, s as int, Some(group as int));
                        let k = choose|k: int| 0 <= k < rows.len() && rows[k].seq == rows[j as int].seq
                            && rows[k].parent == s && (Some(group as int) is None || rows[k].group == group);
                        lemma_find_row(rows, j as int);
                        let rest = redo_walk(rows, group as int, rows[j as int].seq, bound);
                        assert(redo_walk(rows, group as int, s as int, bound).0 == seq![rows[cur as int].op] + rest.0);
                        assert(before + (seq![rows[cur as int].op] + rest.0)
                            == before.push(rows[cur as int].op) + rest.0);
                    }
                    cur = j;
                },
                None => {
                    assert(redo_walk(rows, group as int, s as int, bound).0 == seq![rows[cur as int].op]);
                    assert(before + seq![rows[cur as int].op] == before.push(rows[cur as int].op));
                    break;
                },
            }
        }
        self.head = self.rows[cur].seq;
        proof {
            assert(rows[cur as int] == self.rows@[cur as int]@);
            lemma_find_row(rows, cur as int);
        }
        ops
    }

    /// Compact the log: record `text` as the snapshot at the current head and
    /// drop edits it now subsumes.
    pub fn snapshot(&mut self, text: &str)
        requires
            old(self).wf(),
        ensures
            final(self).wf(),
            final(self)@ == (Log {
                rows: keep_after(old(self)@.rows, old(self)@.head),
                upto: old(self)@.head,
                base: text@,
                taken: true,
                ..old(self)@
            }),
    {
        let ghost rows = self@.rows;
        let mut kept: Vec<Edit> = Vec::new();
        let mut i: usize = 0;
        while i < self.rows.len()
            invariant
                rows == self@.rows,
                rows.len() == self.rows@.len(),
                i <= rows.len(),
                kept@.map_values(|e: Edit| e@) == keep_after(rows.take(i as int), self.head as int),
            decreases self.rows.len() - i,
        {
            proof {
                assert(rows[i as int] == self.rows@[i as int]@);
                assert(rows.take(i + 1).drop_last() == rows.take(i as int));
                assert(rows.take(i + 1).last() == rows[i as int]);
            }
            if self.rows[i].seq > self.head {
                let ghost before = kept@.map_values(|e: Edit| e@);
                kept.push(self.rows[i].duplicate());
                assert(kept@.map_values(|e: Edit| e@) == before.push(rows[i as int]));
            }
            i += 1;
        }
        assert(rows.take(rows.len() as int) == rows);
        proof {
            lemma_keep_after(rows, self.head as int);
        }
        self.rows = kept;
        self.snapshot = Some((self.head, text.to_owned()));
        proof {
            let l = self@;
            assert forall|k: int| 0 <= k < l.rows.len() implies {
                &&& l.upto < #[trigger] l.rows[k].seq < l.next_seq
                &&& 0 <= l.rows[k].parent < l.rows[k].seq
            } by {
                let i = choose|i: int| 0 <= i < rows.len() && rows[i] == keep_after(rows, l.upto)[k];
            }
        }
    }

    /// Number of edit-log rows currently stored (drives the compaction trigger).
    pub fn edit_count(&self) -> (n: i64)
        requires
            self.wf(),
        ensures
            n == self@.rows.len(),
    {
        self.rows.len() as i64
    }
}


/// Replaying `a` then `b` is replaying `a + b`.
pub proof fn lemma_replay_concat(s: Seq<char>, a: Seq<Op>, b: Seq<Op>)
    ensures
        replay(s, a + b) == replay(replay(s, a), b),
    decreases b.len(),
{
    if b.len() == 0 {
        assert(a + b == a);
    } else {
        assert((a + b).drop_last() == a + b.drop_last());
        lemma_replay_concat(s, a, b.drop_last());
    }
}

/// `a + b` fits its text exactly when `a` does and `b` fits what `a` leaves.
pub proof fn lemma_replay_exact_concat(s: Seq<char>, a: Seq<Op>, b: Seq<Op>)
    ensures
        replay_exact(s, a + b) == (replay_exact(s, a) && replay_exact(replay(s, a), b)),
    decreases b.len(),
{
    if b.len() == 0 {
        assert(a + b == a);
    } else {
        assert((a + b).drop_last() == a + b.drop_last());
        lemma_replay_exact_concat(s, a, b.drop_last());
        lemma_replay_concat(s, a, b.drop_last());
    }
}

/// The edits that a list of inverses (newest first) takes back, oldest first.
pub open spec fn undone(inv: Seq<Op>) -> Seq<Op> {
    backwards(inv.map_values(|o: Op| inverse(o)))
}

/// A stored row newer than `cur` does not change the chain that ends at `cur`.
pub proof fn lemma_chain_push(rows: Seq<Row>, r: Row, upto: int, cur: int)
    requires
        r.seq > cur,
    ensures
        chain(rows.push(r), upto, cur) == chain(rows, upto, cur),
    decreases cur,
{
    assert(rows.push(r).drop_last() == rows);
    if !(cur <= upto || cur <= 0) {
        assert(find(rows.push(r), cur) == find(rows, cur));
        if let Some(e) = find(rows, cur) {
            if 0 <= e.parent < cur {
                lemma_chain_push(rows, r, upto, e.parent);
            }
        }
    }
}

/// Appending edits extends the live chain by exactly those edits.
pub proof fn lemma_append_extends_chain(l: Log, ops: Seq<Op>, group: int)
    requires
        log_wf(l),
        ops.len() > 0,
    ensures
        chain(l.rows + appended(ops, l.head, l.next_seq, group), l.upto, l.next_seq + ops.len() - 1)
            == chain(l.rows, l.upto, l.head) + ops,
    decreases ops.len(),
{
    let n = ops.len() - 1;
    let front = ops.drop_last();
    let r = Row { seq: l.next_seq + n, parent: if n == 0 { l.head } else { l.next_seq + n - 1 }, group, op: ops.last() };
    let before = l.rows + appended(front, l.head, l.next_seq, group);
    assert(l.rows + appended(ops, l.head, l.next_seq, group) == before.push(r));
    assert(before.push(r).drop_last() == before);
    lemma_chain_push(before, r, l.upto, r.parent);
    if n == 0 {
        assert(front.len() == 0);
        assert(before == l.rows);
        assert(ops == seq![ops.last()]);
        assert(Seq::<Op>::empty() + ops == ops);
        assert(chain(l.rows, l.upto, l.head) + ops == chain(l.rows, l.upto, l.head).push(ops.last()));
    } else {
        lemma_append_extends_chain(l, front, group);
        assert(front.push(ops.last()) == ops);
        assert((chain(l.rows, l.upto, l.head) + front).push(ops.last()) == chain(l.rows, l.upto, l.head) + ops);
    }
}

/// Appending edits to the log and resuming gives the text resumed before with
/// those edits applied: what was written is what is read back.
pub proof fn lemma_append_then_resume(l: Log, ops: Seq<Op>, group: int)
    requires
        log_wf(l),
        ops.len() > 0,
    ensures
        resume_text(Log {
            rows: l.rows + appended(ops, l.head, l.next_seq, group),
            head: l.next_seq + ops.len() - 1,
            next_seq: l.next_seq + ops.len(),
            ..l
        }) == replay(resume_text(l), ops),
{
    lemma_append_extends_chain(l, ops, group);
    lemma_replay_concat(l.base, chain(l.rows, l.upto, l.head), ops);
}

/// The undo walk passes back over the tail of the live chain.
pub proof fn lemma_undo_walk_is_chain_tail(l: Log, group: int, cur: int)
    requires
        log_wf(l),
        0 <= cur,
    ensures
        chain(l.rows, l.upto, cur) == chain(l.rows, l.upto, match undo_walk(l.rows, group, cur).1 {
            Some(h) => h,
            None => cur,
        }) + undone(undo_walk(l.rows, group, cur).0),
    decreases cur,
{
    let w = undo_walk(l.rows, group, cur);
    lemma_find_is_row(l.rows, cur);
    match find(l.rows, cur) {
        Some(e) => {
            if e.group == group {
                let i = choose|i: int| 0 <= i < l.rows.len() && l.rows[i] == e;
                assert(l.upto < l.rows[i].seq);
                let rest = undo_walk(l.rows, group, e.parent);
                lemma_undo_walk_is_chain_tail(l, group, e.parent);
                let h = match rest.1 {
                    Some(h) => h,
                    None => e.parent,
                };
                assert(chain(l.rows, l.upto, cur) == chain(l.rows, l.upto, e.parent).push(e.op));
                let m = w.0.map_values(|o: Op| inverse(o));
                let mr = rest.0.map_values(|o: Op| inverse(o));
                assert(w.0 == seq![inverse(e.op)] + rest.0);
                assert(inverse(inverse(e.op)) == e.op);
                assert(m == seq![e.op] + mr);
                assert(backwards(m) == backwards(mr).push(e.op));
                assert(chain(l.rows, l.upto, h) + undone(w.0) == (chain(l.rows, l.upto, h) + undone(rest.0)).push(e.op));
            } else {
                assert(w.0 == Seq::<Op>::empty());
                assert(undone(w.0) == Seq::<Op>::empty());
                assert(chain(l.rows, l.upto, cur) + Seq::<Op>::empty() == chain(l.rows, l.upto, cur));
            }
        },
        None => {
            assert(undone(w.0) == Seq::<Op>::empty());
            assert(chain(l.rows, l.upto, cur) + Seq::<Op>::empty() == chain(l.rows, l.upto, cur));
        },
    }
}

/// Replaying exact edits and then their inverses, newest first, gives back
/// the text.
pub proof fn lemma_inverses_restore(s: Seq<char>, ops: Seq<Op>)
    requires
        replay_exact(s, ops),
    ensures
        replay(replay(s, ops), backwards(ops).map_values(|o: Op| inverse(o))) == s,
    decreases ops.len(),
{
    if ops.len() > 0 {
        let front = ops.drop_last();
        let o = ops.last();
        let r = replay(s, front);
        lemma_inverse_restores(o, r);
        lemma_inverses_restore(s, front);
        let tail = backwards(front).map_values(|x: Op| inverse(x));
        assert(backwards(ops).map_values(|x: Op| inverse(x)) == seq![inverse(o)] + tail);
        lemma_replay_concat(replay(s, ops), seq![inverse(o)], tail);
        assert(seq![inverse(o)].drop_last() == Seq::<Op>::empty());
        assert(seq![inverse(o)].last() == inverse(o));
        assert(replay(replay(s, ops), Seq::<Op>::empty()) == replay(s, ops));
        assert(replay(replay(s, ops), seq![inverse(o)]) == apply_op(inverse(o), replay(s, ops)));
    }
}

/// Undo takes back exactly the newest edit group of the live chain: the head
/// moves to where the group began, and applying the inverses that undo hands
/// back to the text resumed before gives the text resumed after, as long as
/// the live chain's edits fit the texts they were applied to.
pub proof fn lemma_undo_restores(l: Log)
    requires
        log_wf(l),
        replay_exact(l.base, chain(l.rows, l.upto, l.head)),
    ensures
        chain(l.rows, l.upto, l.head) == chain(l.rows, l.upto, undo_result(l).1) + undone(undo_result(l).0),
        replay(resume_text(l), undo_result(l).0) == resume_text(Log { head: undo_result(l).1, ..l }),
{
    let u = undo_result(l);
    if l.head != 0 {
        if let Some(top) = find(l.rows, l.head) {
            lemma_undo_walk_is_chain_tail(l, top.group, l.head);
        }
    }
    let before = chain(l.rows, l.upto, u.1);
    let gone = undone(u.0);
    if l.head == 0 || find(l.rows, l.head) is None {
        assert(u.0 == Seq::<Op>::empty());
        assert(gone == Seq::<Op>::empty());
        assert(before + gone == before);
    }
    assert(chain(l.rows, l.upto, l.head) == before + gone);
    lemma_replay_exact_concat(l.base, before, gone);
    lemma_replay_concat(l.base, before, gone);
    lemma_inverses_restore(replay(l.base, before), gone);
    let back = backwards(gone).map_values(|o: Op| inverse(o));
    assert(back == u.0) by {
        assert forall|i: int| 0 <= i < u.0.len() implies #[trigger] back[i] == u.0[i] by {
            assert(inverse(inverse(u.0[i])) == u.0[i]);
        }
    }
}

/// A row found in `rows` is found at the same place in `rows + more`, as long
/// as the longer list is still in `seq` order.
pub proof fn lemma_find_longer(rows: Seq<Row>, more: Seq<Row>, seq: int)
    requires
        find(rows, seq) is Some,
        forall|a: int, b: int| 0 <= a < b < (rows + more).len() ==> (rows + more)[a].seq < (rows + more)[b].seq,
    ensures
        find(rows + more, seq) == find(rows, seq),
{
    lemma_find_is_row(rows, seq);
    let i = choose|i: int| 0 <= i < rows.len() && rows[i] == find(rows, seq)->0;
    assert((rows + more)[i] == rows[i]);
    lemma_find_row(rows + more, i);
}

/// Appending edits keeps the chain's links: each new row hangs off the head
/// or the row before it, and the new head is the last new row.
pub proof fn lemma_append_keeps_links(l: Log, ops: Seq<Op>, group: int)
    requires
        log_wf(l),
        linked(l),
        ops.len() > 0,
        forall|a: int, b: int| 0 <= a < b < (l.rows + appended(ops, l.head, l.next_seq, group)).len() ==> (l.rows
            + appended(ops, l.head, l.next_seq, group))[a].seq < (l.rows + appended(ops, l.head, l.next_seq, group))[b].seq,
    ensures
        linked(Log {
            rows: l.rows + appended(ops, l.head, l.next_seq, group),
            head: l.next_seq + ops.len() - 1,
            next_seq: l.next_seq + ops.len(),
            ..l
        }),
{
    let app = appended(ops, l.head, l.next_seq, group);
    let rows = l.rows + app;
    let n = l.rows.len();
    lemma_appended_shape(ops, l.head, l.next_seq, group);
    assert(rows[n + ops.len() - 1] == app[ops.len() - 1]);
    lemma_find_row(rows, n + ops.len() - 1);
    if l.head != 0 {
        lemma_find_longer(l.rows, app, l.head);
    }
    assert forall|k: int| #![trigger rows[k]] 0 <= k < rows.len() implies (rows[k].parent == 0 || find(rows, rows[k].parent) is Some) by {
        if k < n {
            assert(rows[k] == l.rows[k]);
            if l.rows[k].parent != 0 {
                lemma_find_longer(l.rows, app, l.rows[k].parent);
            }
        } else {
            assert(rows[k] == app[k - n]);
            if k > n {
                assert(rows[k - 1] == app[k - 1 - n]);
                lemma_find_row(rows, k - 1);
            }
        }
    }
}

/// The undo walk ends on the parent of a stored row, below where it started,
/// and passes at least one row when the row it starts on is of its group.
pub proof fn lemma_undo_walk_lands(l: Log, group: int, cur: int)
    requires
        log_wf(l),
    ensures
        undo_walk(l.rows, group, cur).1 matches Some(h) ==> 0 <= h < cur && exists|i: int|
            0 <= i < l.rows.len() && l.rows[i].parent == h,
        (find(l.rows, cur) matches Some(e) && e.group == group) ==> undo_walk(l.rows, group, cur).0.len() > 0
            && undo_walk(l.rows, group, cur).1 is Some,
    decreases cur,
{
    lemma_find_is_row(l.rows, cur);
    if let Some(e) = find(l.rows, cur) {
        if e.group == group {
            let i = choose|i: int| 0 <= i < l.rows.len() && l.rows[i] == e;
            assert(0 <= l.rows[i].parent < l.rows[i].seq);
            lemma_undo_walk_lands(l, group, e.parent);
        }
    }
}

/// Undo keeps the chain's links: the head it moves to is the root or the
/// parent of a stored row.
pub proof fn lemma_undo_keeps_links(l: Log)
    requires
        log_wf(l),
        linked(l),
    ensures
        linked(Log { head: undo_result(l).1, ..l }),
{
    if l.head != 0 {
        if let Some(top) = find(l.rows, l.head) {
            lemma_undo_walk_lands(l, top.group, l.head);
            if let Some(h) = undo_walk(l.rows, top.group, l.head).1 {
                let i = choose|i: int| 0 <= i < l.rows.len() && l.rows[i].parent == h;
                assert(l.rows[i].parent == 0 || find(l.rows, l.rows[i].parent) is Some);
            }
        }
    }
}

/// Before any snapshot is taken, undo at the root hands back nothing and
/// stays there, and undo anywhere else hands back at least one inverse and
/// moves the head to an earlier point.
pub proof fn lemma_undo_steps_back(l: Log)
    requires
        log_wf(l),
        !l.taken,
    ensures
        l.head == 0 ==> undo_result(l) == (Seq::<Op>::empty(), 0int),
        l.head != 0 ==> undo_result(l).0.len() > 0 && 0 <= undo_result(l).1 < l.head,
{
    if l.head != 0 {
        let top = find(l.rows, l.head)->0;
        lemma_undo_walk_lands(l, top.group, l.head);
    }
}

/// The newest row of a well-formed log has no children, so right after an
/// append there is nothing to redo: a new edit after an undo forks, and the
/// undone branch can no longer be redone.
pub proof fn lemma_nothing_to_redo_at_newest(l: Log)
    requires
        log_wf(l),
        l.head == l.next_seq - 1,
    ensures
        redo_result(l) == (Seq::<Op>::empty(), l.head),
{
    lemma_max_child_is_row(l.rows, l.head, None);
    if let Some(s) = max_child(l.rows, l.head, None) {
        let i = choose|i: int| 0 <= i < l.rows.len() && l.rows[i].seq == s && l.rows[i].parent == l.head
            && (None::<int> is None || l.rows[i].group == None::<int>->0);
        assert(l.rows[i].seq < l.next_seq);
    }
}

} // verus!

verus! {

/// Compacting the log with the text it resumes keeps that text: the
/// snapshot is taken at the head, so nothing is left to replay after it.
pub proof fn lemma_snapshot_keeps_text(l: Log)
    requires
        log_wf(l),
    ensures
        resume_text(Log { rows: keep_after(l.rows, l.head), upto: l.head, base: resume_text(l), ..l }) == resume_text(l),
{
    assert(chain(keep_after(l.rows, l.head), l.head, l.head) == Seq::<Op>::empty());
}

} // verus!

verus! {

/// With no row naming `parent` as its parent, there is no child to find.
pub proof fn lemma_no_child(rows: Seq<Row>, parent: int)
    ensures
        max_child(rows, parent, None) is None ==> forall|i: int| 0 <= i < rows.len() ==> rows[i].parent != parent,
    decreases rows.len(),
{
    if rows.len() > 0 {
        lemma_no_child(rows.drop_last(), parent);
        if max_child(rows, parent, None) is None {
            assert forall|i: int| 0 <= i < rows.len() implies rows[i].parent != parent by {
                if i < rows.len() - 1 {
                    assert(rows[i] == rows.drop_last()[i]);
                }
            }
        }
    }
}

/// The rows a redo walk passes: the row it starts from, then each the child
/// of the one before in the walk's group, ending on the row it returns.
pub proof fn lemma_redo_walk_rows(l: Log, group: int, cur: int, bound: int) -> (idx: Seq<int>)
    requires
        log_wf(l),
        find(l.rows, cur) is Some,
    ensures
        idx.len() == redo_walk(l.rows, group, cur, bound).0.len(),
        idx.len() >= 1,
        forall|k: int| #![trigger idx[k]] 0 <= k < idx.len() ==> 0 <= idx[k] < l.rows.len()
            && l.rows[idx[k]].op == redo_walk(l.rows, group, cur, bound).0[k],
        l.rows[idx[0]].seq == cur,
        forall|k: int| #![trigger idx[k]] 1 <= k < idx.len() ==> l.rows[idx[k]].group == group
            && l.rows[idx[k]].parent == l.rows[idx[k - 1]].seq,
        redo_walk(l.rows, group, cur, bound).1 == l.rows[idx[idx.len() - 1]].seq,
    decreases bound - cur,
{
    let rows = l.rows;
    let e = find(rows, cur)->0;
    lemma_find_is_row(rows, cur);
    let i0 = choose|i: int| 0 <= i < rows.len() && rows[i] == e;
    let w = redo_walk(rows, group, cur, bound);
    match max_child(rows, cur, Some(group)) {
        Some(n) => {
            if cur < n < bound {
                lemma_max_child_is_row(rows, cur, Some(group));
                let j = choose|j: int| 0 <= j < rows.len() && rows[j].seq == n && rows[j].parent == cur
                    && (Some(group) is None || rows[j].group == Some(group)->0);
                lemma_find_row(rows, j);
                let rest = lemma_redo_walk_rows(l, group, n, bound);
                let r0 = rest[0];
                if r0 != j {
                    if r0 < j {
                        assert(rows[r0].seq < rows[j].seq);
                    } else {
                        assert(rows[j].seq < rows[r0].seq);
                    }
                }
                let idx = seq![i0] + rest;
                assert forall|k: int| #![trigger idx[k]] 0 <= k < idx.len() implies 0 <= idx[k] < rows.len()
                    && rows[idx[k]].op == w.0[k] by {
                    if k > 0 {
                        assert(idx[k] == rest[k - 1]);
                    }
                }
                assert forall|k: int| #![trigger idx[k]] 1 <= k < idx.len() implies rows[idx[k]].group == group
                    && rows[idx[k]].parent == rows[idx[k - 1]].seq by {
                    assert(idx[k] == rest[k - 1]);
                    if k > 1 {
                        assert(idx[k - 1] == rest[k - 2]);
                    }
                }
                assert(idx[idx.len() - 1] == rest[rest.len() - 1]);
                idx
            } else {
                seq![i0]
            }
        },
        None => seq![i0],
    }
}

/// Redo replays exactly one edit group: it starts on a child of the head,
/// every edit it hands back comes from a row of that child's group, each row
/// the child of the one before, and the head moves to the last of them. It
/// hands back nothing, and leaves the head, only when the head has no child.
pub proof fn lemma_redo_replays_one_group(l: Log) -> (idx: Seq<int>)
    requires
        log_wf(l),
    ensures
        idx.len() == redo_result(l).0.len(),
        redo_result(l).0.len() == 0 ==> redo_result(l).1 == l.head && forall|i: int|
            0 <= i < l.rows.len() ==> l.rows[i].parent != l.head,
        redo_result(l).0.len() > 0 ==> {
            &&& forall|k: int| #![trigger idx[k]] 0 <= k < idx.len() ==> 0 <= idx[k] < l.rows.len()
                && l.rows[idx[k]].op == redo_result(l).0[k] && l.rows[idx[k]].group == l.rows[idx[0]].group
            &&& l.rows[idx[0]].parent == l.head
            &&& forall|k: int| #![trigger idx[k]] 1 <= k < idx.len() ==> l.rows[idx[k]].parent
                == l.rows[idx[k - 1]].seq
            &&& redo_result(l).1 == l.rows[idx[idx.len() - 1]].seq
        },
{
    let rows = l.rows;
    lemma_no_child(rows, l.head);
    match max_child(rows, l.head, None) {
        None => Seq::empty(),
        Some(s) => {
            lemma_max_child_is_row(rows, l.head, None);
            let j = choose|j: int| 0 <= j < rows.len() && rows[j].seq == s && rows[j].parent == l.head
                && (None::<int> is None || rows[j].group == None::<int>->0);
            lemma_find_row(rows, j);
            let e = rows[j];
            let idx = lemma_redo_walk_rows(l, e.group, s, l.next_seq);
            let r0 = idx[0];
            if r0 != j {
                if r0 < j {
                    assert(rows[r0].seq < rows[j].seq);
                } else {
                    assert(rows[j].seq < rows[r0].seq);
                }
            }
            idx
        },
    }
}

} // verus!

verus! {

/// The only row naming `p` as its parent is the newest child of `p`, in any
/// group filter that keeps it.
pub proof fn lemma_only_child(rows: Seq<Row>, p: int, group: Option<int>, j: int)
    requires
        0 <= j < rows.len(),
        rows[j].parent == p,
        group is None || rows[j].group == group->0,
        forall|i: int| 0 <= i < rows.len() && i != j ==> rows[i].parent != p,
    ensures
        max_child(rows, p, group) == Some(rows[j].seq),
    decreases rows.len(),
{
    if j < rows.len() - 1 {
        let front = rows.drop_last();
        assert(rows.last().parent != p);
        assert forall|i: int| 0 <= i < front.len() && i != j implies front[i].parent != p by {
            assert(front[i] == rows[i]);
        }
        lemma_only_child(front, p, group, j);
        assert(front[j] == rows[j]);
    } else {
        assert(rows.last() == rows[j]);
    }
}

/// On a history that never forked, redoing from the first row an undo walk
/// passes climbs back over every row it passed, then carries on as a redo
/// from where the undo walk began.
pub proof fn lemma_redo_climbs_back(l: Log, group: int, cur: int) -> (first: int)
    requires
        log_wf(l),
        forall|i: int, j: int| 0 <= i < j < l.rows.len() ==> l.rows[i].parent != l.rows[j].parent,
        (find(l.rows, cur) matches Some(e) && e.group == group),
    ensures
        (find(l.rows, first) matches Some(r) && r.group == group && undo_walk(l.rows, group, cur).1 == Some(
            r.parent,
        )),
        redo_walk(l.rows, group, first, l.next_seq).0 == undone(undo_walk(l.rows, group, cur).0).drop_last()
            + redo_walk(l.rows, group, cur, l.next_seq).0,
        redo_walk(l.rows, group, first, l.next_seq).1 == redo_walk(l.rows, group, cur, l.next_seq).1,
    decreases cur,
{
    let rows = l.rows;
    let b = l.next_seq;
    let e = find(rows, cur)->0;
    lemma_find_is_row(rows, cur);
    let i = choose|i: int| 0 <= i < rows.len() && rows[i] == e;
    assert(0 <= e.parent < cur < b);
    let u = undo_walk(rows, group, cur);
    let p = e.parent;
    let inv = inverse(e.op);
    assert(inverse(inv) == e.op);
    match find(rows, p) {
        Some(f) => {
            if f.group == group {
                let first = lemma_redo_climbs_back(l, group, p);
                let up = undo_walk(rows, group, p);
                lemma_undo_walk_lands(l, group, p);
                assert(u.0 == seq![inv] + up.0);
                let m = u.0.map_values(|o: Op| inverse(o));
                let mp = up.0.map_values(|o: Op| inverse(o));
                assert(m == seq![e.op] + mp);
                assert(undone(u.0) == undone(up.0).push(e.op));
                assert(undone(u.0).drop_last() == undone(up.0));
                // the redo from `p` steps to its only child, `cur`
                lemma_find_is_row(rows, p);
                assert forall|k: int| 0 <= k < rows.len() && k != i implies rows[k].parent != p by {
                    if k < i {
                        assert(rows[k].parent != rows[i].parent);
                    } else {
                        assert(rows[i].parent != rows[k].parent);
                    }
                }
                lemma_only_child(rows, p, Some(group), i);
                let rp = redo_walk(rows, group, p, b);
                let rc = redo_walk(rows, group, cur, b);
                assert(rp.0 == seq![f.op] + rc.0);
                assert(rp.1 == rc.1);
                let dp = undone(up.0);
                assert(dp.len() > 0);
                assert(dp.last() == f.op) by {
                    assert(up.0[0] == inverse(f.op));
                    assert(inverse(inverse(f.op)) == f.op);
                }
                assert(dp.drop_last() + rp.0 == dp + rc.0) by {
                    assert(dp == dp.drop_last().push(f.op));
                }
                first
            } else {
                assert(u.0 == seq![inv]);
                assert(undone(u.0) == seq![e.op]);
                assert(undone(u.0).drop_last() + redo_walk(rows, group, cur, b).0 == redo_walk(rows, group, cur, b).0);
                cur
            }
        },
        None => {
            assert(u.0 == seq![inv]);
            assert(undone(u.0) == seq![e.op]);
            assert(undone(u.0).drop_last() + redo_walk(rows, group, cur, b).0 == redo_walk(rows, group, cur, b).0);
            cur
        },
    }
}

/// On a history that never forked, redo right after undo hands back the
/// edits the undo took back, in the order they were first made, and returns
/// the head to where the undo started: the log is as it was before the undo.
/// (The head's own children, if any, are of other groups: a group ends where
/// its undo stops.)
pub proof fn lemma_redo_after_undo_restores(l: Log)
    requires
        log_wf(l),
        l.head != 0,
        find(l.rows, l.head) is Some,
        forall|i: int, j: int| 0 <= i < j < l.rows.len() ==> l.rows[i].parent != l.rows[j].parent,
        forall|i: int| 0 <= i < l.rows.len() && l.rows[i].parent == l.head ==> l.rows[i].group != find(
            l.rows,
            l.head,
        )->0.group,
    ensures
        redo_result(Log { head: undo_result(l).1, ..l }).0 == undone(undo_result(l).0),
        redo_result(Log { head: undo_result(l).1, ..l }).1 == l.head,
        (Log { head: redo_result(Log { head: undo_result(l).1, ..l }).1, ..l }) == l,
{
    let rows = l.rows;
    let top = find(rows, l.head)->0;
    let g = top.group;
    let u = undo_walk(rows, g, l.head);
    let first = lemma_redo_climbs_back(l, g, l.head);
    let r = find(rows, first)->0;
    let land = r.parent;
    lemma_find_is_row(rows, first);
    let j = choose|j: int| 0 <= j < rows.len() && rows[j] == r;
    assert forall|k: int| 0 <= k < rows.len() && k != j implies rows[k].parent != land by {
        if k < j {
            assert(rows[k].parent != rows[j].parent);
        } else {
            assert(rows[j].parent != rows[k].parent);
        }
    }
    lemma_only_child(rows, land, None, j);
    lemma_find_row(rows, j);
    // at the head, the redo stops: no child of the head is in its group
    if let Some(n) = max_child(rows, l.head, Some(g)) {
        lemma_max_child_is_row(rows, l.head, Some(g));
        let k = choose|k: int| 0 <= k < rows.len() && rows[k].seq == n && rows[k].parent == l.head
            && (Some(g) is None || rows[k].group == Some(g)->0);
        assert(false);
    }
    let rh = redo_walk(rows, g, l.head, l.next_seq);
    assert(rh == (seq![top.op], l.head));
    lemma_undo_walk_lands(l, g, l.head);
    let d = undone(u.0);
    assert(d.last() == top.op) by {
        assert(u.0[0] == inverse(top.op));
        assert(inverse(inverse(top.op)) == top.op);
    }
    assert(d.drop_last() + seq![top.op] == d) by {
        assert(d == d.drop_last().push(top.op));
    }
}

} // verus!
