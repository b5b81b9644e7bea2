//! Randomized generation of operation sequences: each case samples a target
//! length, then interleaves pushes and pops under a caller-chosen pop
//! probability while tracking how many elements are logically outstanding,
//! and finally drains everything so the model always ends empty.
use vstd::prelude::*;

use crate::heap::MAX_SIZE;
use crate::ops::{pops_safe, run_count, step_count, Operation};

verus! {

/// Relies on rand's `Rng::gen_range` over an inclusive range: panics only on
/// an empty range, and the sample lies within the bounds.
#[verifier::external_body]
fn sample_i16_inclusive(lo: i16, hi: i16) -> (r: i16)
    requires
        lo <= hi,
    ensures
        lo <= r <= hi,
{
    rand::Rng::gen_range(&mut rand::thread_rng(), lo..=hi)
}

/// Relies on rand's `Rng::gen_range` over an inclusive range: panics only on
/// an empty range, and the sample lies within the bounds.
#[verifier::external_body]
fn sample_usize_inclusive(lo: usize, hi: usize) -> (r: usize)
    requires
        lo <= hi,
    ensures
        lo <= r <= hi,
{
    rand::Rng::gen_range(&mut rand::thread_rng(), lo..=hi)
}

/// Relies on rand's `Rng::gen` for `bool`: an evenly distributed draw;
/// nothing is assumed of the outcome.
#[verifier::external_body]
fn sample_even_bool() -> bool {
    rand::Rng::gen::<bool>(&mut rand::thread_rng())
}

/// Relies on rand's `Rng::gen_ratio`: panics only when the denominator is
/// zero or smaller than the numerator; nothing is assumed of the outcome.
#[verifier::external_body]
fn sample_ratio_bool(numerator: u32, denominator: u32) -> bool
    requires
        0 < denominator,
        numerator <= denominator,
{
    rand::Rng::gen_ratio(&mut rand::thread_rng(), numerator, denominator)
}

/// How the generator decides, when at least one element is outstanding,
/// whether the next operation is a pop: an even draw, or true with
/// probability numerator/denominator.
#[derive(Clone, Copy, Debug)]
pub enum OpChoice {
    Even,
    Ratio(u32, u32),
}

impl OpChoice {
    /// A ratio must be a well-formed probability.
    pub open spec fn wf(self) -> bool {
        self matches OpChoice::Ratio(n, d) ==> 0 < d && n <= d
    }
}

/// One sample of the operation choice.
fn sample_op_choice(c: OpChoice) -> bool
    requires
        c.wf(),
{
    match c {
        OpChoice::Even => sample_even_bool(),
        OpChoice::Ratio(n, d) => sample_ratio_bool(n, d),
    }
}

/// The sequence splits at `m`: first the raw sampled steps, whose count lies
/// within the configured length range, then nothing but pops — exactly as
/// many consecutive pops as elements were outstanding after the raw steps.
pub open spec fn drained_split(ops: Seq<Operation>, m: int, lo: int, hi: int) -> bool {
    &&& lo <= m <= hi
    &&& 0 <= m <= ops.len()
    &&& (forall|j: int| m <= j < ops.len() ==> #[trigger] ops[j] is Pop)
    &&& ops.len() - m == run_count(0, ops.take(m))
}

/// Produces one randomized operation sequence per call, under a value range,
/// a raw-length range, and an operation-choice distribution.
pub struct FuzzyGenerator {
    pub num_lo: i16,
    pub num_hi: i16,
    pub size_lo: usize,
    pub size_hi: usize,
    pub element_count: usize,
    pub op_choice: OpChoice,
}

impl FuzzyGenerator {
    /// Both ranges are non-empty and the choice distribution is well formed.
    pub open spec fn wf(self) -> bool {
        self.num_lo <= self.num_hi && self.size_lo <= self.size_hi && self.op_choice.wf()
    }

    /// The next generated case. A pop is only ever emitted while at least one
    /// element is logically outstanding, the outstanding count never exceeds
    /// the capacity (pushes against a full model do not raise it), and after
    /// the sampled raw steps the sequence ends with exactly as many
    /// consecutive pops as elements were still outstanding, draining every
    /// one; every pushed value lies within the configured range, and the raw
    /// length within the configured range.
    pub fn next(&mut self) -> (r: Vec<Operation>)
        requires
            old(self).wf(),
        ensures
            final(self).wf(),
            final(self).num_lo == old(self).num_lo,
            final(self).num_hi == old(self).num_hi,
            final(self).size_lo == old(self).size_lo,
            final(self).size_hi == old(self).size_hi,
            final(self).op_choice == old(self).op_choice,
            pops_safe(0, r@),
            run_count(0, r@) == 0,
            forall|k: int|
                0 <= k < r@.len() ==> (#[trigger] r@[k] matches Operation::Push(v) ==> old(
                    self,
                ).num_lo <= v <= old(self).num_hi),
            old(self).size_lo <= r@.len() <= old(self).size_hi + MAX_SIZE,
            exists|m: int|
                drained_split(
                    r@,
                    m,
                    old(self).size_lo as int,
                    old(self).size_hi as int,
                ),
    {
        self.element_count = 0;
        let size = sample_usize_inclusive(self.size_lo, self.size_hi);
        let mut v: Vec<Operation> = Vec::new();
        let mut k: usize = 0;
        while k < size
            invariant
                old(self).wf(),
                self.num_lo == old(self).num_lo,
                self.num_hi == old(self).num_hi,
                self.size_lo == old(self).size_lo,
                self.size_hi == old(self).size_hi,
                self.op_choice == old(self).op_choice,
                k <= size,
                v@.len() == k,
                self.element_count <= MAX_SIZE,
                self.element_count as int == run_count(0, v@),
                pops_safe(0, v@),
                forall|q: int|
                    0 <= q < v@.len() ==> (#[trigger] v@[q] matches Operation::Push(pv) ==> old(
                        self,
                    ).num_lo <= pv <= old(self).num_hi),
            decreases size - k,
        {
            let ghost vpre = v@;
            if self.element_count > 0 && sample_op_choice(self.op_choice) {
                self.element_count = self.element_count - 1;
                v.push(Operation::Pop);
                proof {
                    lemma_count_snoc(0, vpre, Operation::Pop);
                }
            } else {
                let value = sample_i16_inclusive(self.num_lo, self.num_hi);
                if self.element_count < MAX_SIZE {
                    self.element_count = self.element_count + 1;
                }
                v.push(Operation::Push(value));
                proof {
                    lemma_count_snoc(0, vpre, Operation::Push(value));
                }
            }
            k = k + 1;
        }
        let ghost raw = v@;
        let mut d: usize = self.element_count;
        while d > 0
            invariant
                d <= MAX_SIZE,
                d <= self.element_count,
                d as int == run_count(0, v@),
                pops_safe(0, v@),
                v@.len() == size + (self.element_count - d),
                self.element_count <= MAX_SIZE,
                raw.len() == size,
                run_count(0, raw) == self.element_count,
                v@.take(size as int) == raw,
                forall|j: int| size <= j < v@.len() ==> #[trigger] v@[j] is Pop,
                self.num_lo == old(self).num_lo,
                self.num_hi == old(self).num_hi,
                self.size_lo == old(self).size_lo,
                self.size_hi == old(self).size_hi,
                self.op_choice == old(self).op_choice,
                old(self).wf(),
                forall|q: int|
                    0 <= q < v@.len() ==> (#[trigger] v@[q] matches Operation::Push(pv) ==> old(
                        self,
                    ).num_lo <= pv <= old(self).num_hi),
            decreases d,
        {
            let ghost vpre = v@;
            v.push(Operation::Pop);
            d = d - 1;
            proof {
                lemma_count_snoc(0, vpre, Operation::Pop);
                assert(v@.take(size as int) =~= vpre.take(size as int));
                assert forall|j: int| size <= j < v@.len() implies #[trigger] v@[j] is Pop by {
                    if j < vpre.len() {
                        assert(v@[j] == vpre[j]);
                    } else {
                        assert(v@[j] == Operation::Pop);
                    }
                }
            }
        }
        proof {
            assert(size <= old(self).size_hi);
            assert(v@.take(size as int) == raw);
            assert(drained_split(
                v@,
                size as int,
                old(self).size_lo as int,
                old(self).size_hi as int,
            ));
        }
        v
    }
}

/// Appending one operation advances the outstanding count by one step, and
/// keeps the pops-safe property when a pop is only appended while the count
/// is positive.
proof fn lemma_count_snoc(c: int, ops: Seq<Operation>, op: Operation)
    ensures
        run_count(c, ops.push(op)) == step_count(run_count(c, ops), op),
        pops_safe(c, ops) && (op is Pop ==> run_count(c, ops) > 0) ==> pops_safe(c, ops.push(op)),
    decreases ops.len(),
{
    if ops.len() == 0 {
        assert(ops.push(op)[0] == op);
        assert(ops.push(op).drop_first() =~= Seq::<Operation>::empty());
        assert(run_count(step_count(c, op), Seq::<Operation>::empty()) == step_count(c, op));
        assert(pops_safe(step_count(c, op), Seq::<Operation>::empty()));
        assert(run_count(c, ops) == c);
        assert(pops_safe(c, ops));
    } else {
        assert(ops.push(op)[0] == ops[0]);
        assert(ops.push(op).drop_first() =~= ops.drop_first().push(op));
        lemma_count_snoc(step_count(c, ops[0]), ops.drop_first(), op);
        assert(run_count(c, ops.push(op)) == run_count(
            step_count(c, ops[0]),
            ops.drop_first().push(op),
        ));
        assert(run_count(c, ops) == run_count(step_count(c, ops[0]), ops.drop_first()));
        if pops_safe(c, ops) && (op is Pop ==> run_count(c, ops) > 0) {
            assert(pops_safe(step_count(c, ops[0]), ops.drop_first().push(op)));
            assert(pops_safe(c, ops.push(op)));
        }
    }
}

} // verus!
