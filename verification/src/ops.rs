//! Operations against the heap, replay of whole sequences through the
//! reference model, and the bookkeeping that the sequence generator relies
//! on: an outstanding-element count that never lets a pop hit an empty model.
use vstd::prelude::*;

use crate::heap::{
    insert_state, insert_trace, lemma_insert_len, lemma_remove_len, list_line, lit_remove_echo,
    pop_prep, remove_state, remove_trace, sift_down_trace, MAX_SIZE,
};

verus! {

/// One stimulus step of a test case.
#[derive(Clone, Copy, Debug, PartialEq, Eq, Structural)]
pub enum Operation {
    Push(i16),
    Pop,
}

// ---------------------------------------------------------------------------
// Outstanding-element bookkeeping.
// ---------------------------------------------------------------------------

/// Outstanding count after one more operation: a push raises it only up to
/// the capacity (pushes beyond it are rejected by the model), a pop lowers it.
pub open spec fn step_count(c: int, op: Operation) -> int {
    match op {
        Operation::Push(_) => if c < MAX_SIZE {
            c + 1
        } else {
            c
        },
        Operation::Pop => c - 1,
    }
}

/// Outstanding count after a whole sequence, starting from `c`.
pub open spec fn run_count(c: int, ops: Seq<Operation>) -> int
    decreases ops.len(),
{
    if ops.len() == 0 {
        c
    } else {
        run_count(step_count(c, ops[0]), ops.drop_first())
    }
}

/// Every pop in the sequence happens while at least one element is
/// outstanding, starting from count `c`.
pub open spec fn pops_safe(c: int, ops: Seq<Operation>) -> bool
    decreases ops.len(),
{
    ops.len() == 0 || {
        &&& (ops[0] is Pop ==> c > 0)
        &&& pops_safe(step_count(c, ops[0]), ops.drop_first())
    }
}

// ---------------------------------------------------------------------------
// Replaying a sequence through the reference model.
// ---------------------------------------------------------------------------

/// Elements held after one operation.
pub open spec fn apply_op_state(h: Seq<i16>, op: Operation) -> Seq<i16> {
    match op {
        Operation::Push(v) => insert_state(h, v),
        Operation::Pop => remove_state(h),
    }
}

/// Bytes one operation emits.
pub open spec fn apply_op_trace(h: Seq<i16>, op: Operation) -> Seq<u8> {
    match op {
        Operation::Push(v) => insert_trace(h, v),
        Operation::Pop => remove_trace(h),
    }
}

/// Elements held after a whole sequence.
pub open spec fn replay_state(h: Seq<i16>, ops: Seq<Operation>) -> Seq<i16>
    decreases ops.len(),
{
    if ops.len() == 0 {
        h
    } else {
        replay_state(apply_op_state(h, ops[0]), ops.drop_first())
    }
}

/// Concatenation of the bytes a whole sequence emits.
pub open spec fn replay_trace(h: Seq<i16>, ops: Seq<Operation>) -> Seq<u8>
    decreases ops.len(),
{
    if ops.len() == 0 {
        Seq::empty()
    } else {
        apply_op_trace(h, ops[0]) + replay_trace(apply_op_state(h, ops[0]), ops.drop_first())
    }
}

/// `t` ends with the bytes `s`.
pub open spec fn ends_with(t: Seq<u8>, s: Seq<u8>) -> bool {
    s.len() <= t.len() && t.skip(t.len() - s.len()) == s
}

proof fn lemma_ends_with_append(a: Seq<u8>, b: Seq<u8>, s: Seq<u8>)
    requires
        ends_with(b, s),
    ensures
        ends_with(a + b, s),
{
    assert((a + b).skip((a + b).len() - s.len()) =~= b.skip(b.len() - s.len()));
}

/// One operation applied to a model within capacity moves the size exactly as
/// the outstanding count predicts, when a pop never hits an empty model.
proof fn lemma_step_len(h: Seq<i16>, op: Operation)
    requires
        h.len() <= MAX_SIZE,
        op is Pop ==> h.len() > 0,
    ensures
        apply_op_state(h, op).len() == step_count(h.len() as int, op),
        apply_op_state(h, op).len() <= MAX_SIZE,
{
    match op {
        Operation::Push(v) => {
            lemma_insert_len(h, v);
        },
        Operation::Pop => {
            lemma_remove_len(h);
        },
    }
}

proof fn lemma_replay_tracks_count(h: Seq<i16>, ops: Seq<Operation>)
    requires
        h.len() <= MAX_SIZE,
        pops_safe(h.len() as int, ops),
    ensures
        replay_state(h, ops).len() == run_count(h.len() as int, ops),
        replay_state(h, ops).len() <= MAX_SIZE,
        run_count(h.len() as int, ops) == 0 && ops.len() > 0 ==> ends_with(
            replay_trace(h, ops),
            list_line(Seq::<i16>::empty()),
        ),
    decreases ops.len(),
{
    if ops.len() > 0 {
        let op0 = ops[0];
        let h2 = apply_op_state(h, op0);
        let rest = ops.drop_first();
        lemma_step_len(h, op0);
        lemma_replay_tracks_count(h2, rest);
        if run_count(h.len() as int, ops) == 0 && ops.len() > 0 {
            if rest.len() > 0 {
                lemma_ends_with_append(
                    apply_op_trace(h, op0),
                    replay_trace(h2, rest),
                    list_line(Seq::<i16>::empty()),
                );
            } else {
                // a single last step that drains the model must be a pop of
                // the only element; its trace ends in the empty listing
                assert(step_count(h.len() as int, op0) == 0);
                assert(op0 is Pop && h.len() == 1);
                let hp = pop_prep(h);
                assert(hp.len() == 0);
                assert(sift_down_trace(hp, 0) == Seq::<u8>::empty());
                assert(apply_op_trace(h, op0) =~= lit_remove_echo() + list_line(hp));
                assert(replay_trace(h2, rest) == Seq::<u8>::empty());
                assert(replay_trace(h, ops) == apply_op_trace(h, op0) + replay_trace(h2, rest));
                assert(replay_trace(h, ops) =~= lit_remove_echo() + list_line(hp));
                assert(ends_with(replay_trace(h, ops), list_line(Seq::<i16>::empty()))) by {
                    let t = lit_remove_echo() + list_line(hp);
                    assert(t.skip(t.len() - list_line(hp).len()) =~= list_line(hp));
                }
            }
        }
    }
}

/// Any operation sequence that never pops an empty model and ends with every
/// outstanding element drained leaves the model empty, and the last listing
/// of its trace reads `Heap: Empty`.
pub proof fn lemma_drained_sequence_empties_heap(ops: Seq<Operation>)
    requires
        pops_safe(0, ops),
        run_count(0, ops) == 0,
    ensures
        replay_state(Seq::<i16>::empty(), ops).len() == 0,
        ops.len() > 0 ==> ends_with(
            replay_trace(Seq::<i16>::empty(), ops),
            list_line(Seq::<i16>::empty()),
        ),
{
    lemma_replay_tracks_count(Seq::<i16>::empty(), ops);
}

} // verus!
