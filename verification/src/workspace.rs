//! Opening the single workspace: a brand-new one is seeded with the
//! [tutorial](crate::tutorial) as its first content. Where the workspace is
//! kept (a database file under the user's data directory) is the front-end's
//! business; this module decides what a fresh workspace starts with.

use vstd::prelude::*;

use crate::store::{
    EditOp, Log, Op, Store, StoreError, appended, chain, lemma_append_then_resume, log_wf, ops_of, resume_text,
};
use crate::tutorial::TUTORIAL;

verus! {

/// The log of a fresh workspace once the tutorial is in it: one insert of
/// the tutorial at the start of the stream, in group 0.
pub open spec fn seeded(l: Log) -> Log {
    Log {
        rows: l.rows + appended(seq![Op { insert: true, pos: 0, text: TUTORIAL@ }], l.head, l.next_seq, 0),
        head: l.next_seq,
        next_seq: l.next_seq + 1,
        ..l
    }
}

/// First run: a workspace whose head is the root gets the tutorial as its
/// first content (the Cat shipped its manual *inside* the workspace:
/// ordinary text you can edit or delete). Any other workspace is left as it
/// is.
pub fn seed(store: &mut Store) -> (r: Result<(), StoreError>)
    requires
        old(store).wf(),
    ensures
        final(store).wf(),
        old(store)@.head != 0 ==> r is Ok && final(store)@ == old(store)@,
        old(store)@.head == 0 && old(store)@.next_seq + 1 > i64::MAX ==> r == Err::<(), StoreError>(StoreError::Full)
            && final(store)@ == old(store)@,
        old(store)@.head == 0 && old(store)@.next_seq + 1 <= i64::MAX ==> r is Ok && final(store)@ == seeded(
            old(store)@,
        ),
{
    if store.head() != 0 {
        return Ok(());
    }
    let ops = [EditOp::Insert { pos: 0, text: TUTORIAL.to_owned() }];
    let r = store.append(&ops, 0);
    proof {
        assert(ops_of(ops@) == seq![Op { insert: true, pos: 0, text: TUTORIAL@ }]);
    }
    match r {
        Ok(_) => Ok(()),
        Err(e) => Err(e),
    }
}

} // verus!

verus! {

/// A brand-new workspace opens on the tutorial: seeding an empty log makes
/// it resume exactly the tutorial text.
pub proof fn lemma_fresh_workspace_opens_on_tutorial(l: Log)
    requires
        log_wf(l),
        l.head == 0,
        l.rows.len() == 0,
        l.upto == 0,
        l.base == Seq::<char>::empty(),
        l.next_seq + 1 <= i64::MAX,
    ensures
        log_wf(seeded(l)),
        resume_text(seeded(l)) == TUTORIAL@,
{
    let ops = seq![Op { insert: true, pos: 0, text: TUTORIAL@ }];
    lemma_append_then_resume(l, ops, 0);
    crate::store::lemma_appended_shape(ops, l.head, l.next_seq, 0);
    assert(chain(l.rows, l.upto, l.head) == Seq::<Op>::empty());
    assert(resume_text(l) == Seq::<char>::empty());
    assert(ops.drop_last() == Seq::<Op>::empty());
    let s = Seq::<char>::empty();
    assert(s.take(0) + TUTORIAL@ + s.skip(0) == TUTORIAL@);
}

} // verus!
