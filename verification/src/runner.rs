//! Running a compiled case against the simulated target and classifying the
//! outcome: success only when the captured output equals the expected trace
//! byte for byte and the machine reached a halted state.
use vstd::prelude::*;

use crate::compile::{compile_ops, SimpleTestCase};
use crate::gen::{FuzzyGenerator, OpChoice};

verus! {

/// Declares lc3's machine state (memory, registers, program counter) so that
/// signatures can carry it; its contents stay opaque to the proofs.
#[verifier::external_type_specification]
#[verifier::external_body]
pub struct ExVMState(lc3::VMState);

/// Relies on lc3's `VM::step` with an `IOStreamHandler` over in-memory
/// buffers, driven in the same loop as lc3's own `run` / `run_n`: a copy of
/// the machine image executes, fed the input bytes and its writes collected,
/// while the clock-enable bit of the machine control register is set and,
/// when a budget is given, for at most that many instructions. Returns the
/// collected output, the machine control register after the run (its top bit
/// is the clock-enable bit), and the number of instructions executed.
/// lc3's instruction fetch increments the 16-bit program counter with a
/// checked add and would panic on a fetch at the top of memory, and no
/// `requires` can speak of the opaque state; so the loop also stops before
/// such a fetch, leaving the clock-enable bit as it stands — a machine stuck
/// there reads as still running, a liveness violation rather than a crash.
/// In-memory streams cannot fail, so a step returns no error; without a
/// budget the loop ends only at a halt or at the top of memory.
#[verifier::external_body]
fn vm_run(state: &lc3::VMState, input: &Vec<u8>, limit: Option<usize>) -> (r: (Vec<u8>, u16, usize))
    ensures
        limit matches Some(n) ==> r.2 <= n,
{
    let mut vm: lc3::VM<lc3::IOStreamHandler<&[u8], Vec<u8>>> = lc3::VM {
        state: state.clone(),
        context: (input.as_slice(), Vec::new()),
    };
    let mut steps: usize = 0;
    while vm.state.mem[lc3::MCR] >> 15 > 0 && vm.state.pc < u16::MAX
        && limit.map_or(true, |n| steps < n) {
        vm.step().unwrap();
        steps += 1;
    }
    (vm.context.1, vm.state.mem[lc3::MCR], steps)
}

/// Everything known about one failing case: the stimulus, what the target
/// wrote, what the model expected, and which conditions held — the machine
/// still running, the output differing, or both.
#[derive(Debug)]
pub struct SimpleTestError {
    pub input: Vec<u8>,
    pub output: Vec<u8>,
    pub expect: Vec<u8>,
    pub alive: bool,
    pub mismatch: bool,
}

fn bytes_eq(a: &Vec<u8>, b: &Vec<u8>) -> (r: bool)
    ensures
        r == (a@ == b@),
{
    if a.len() != b.len() {
        return false;
    }
    let mut i: usize = 0;
    while i < a.len()
        invariant
            i <= a.len(),
            a@.len() == b@.len(),
            forall|k: int| 0 <= k < i ==> a@[k] == b@[k],
        decreases a.len() - i,
    {
        if a[i] != b[i] {
            return false;
        }
        i = i + 1;
    }
    proof {
        assert(a@ =~= b@);
    }
    true
}

/// Verdict for one case, from everything observed during the target's run:
/// success — carrying the instruction count — exactly when the machine
/// halted and its output equals the expected trace byte for byte; otherwise
/// a failure record holding the blobs and a flag for each violated
/// condition.
pub fn classify_run(
    input: Vec<u8>,
    expect: Vec<u8>,
    output: Vec<u8>,
    alive: bool,
    instructions: usize,
) -> (r: Result<usize, SimpleTestError>)
    ensures
        r is Ok <==> (!alive && output@ == expect@),
        r is Ok ==> r->Ok_0 == instructions,
        r is Err ==> r->Err_0.input@ == input@ && r->Err_0.output@ == output@
            && r->Err_0.expect@ == expect@ && r->Err_0.alive == alive && r->Err_0.mismatch == (
        output@ != expect@),
{
    let mismatch = !bytes_eq(&output, &expect);
    if alive || mismatch {
        Err(SimpleTestError { input, output, expect, alive, mismatch })
    } else {
        Ok(instructions)
    }
}

impl SimpleTestCase {
    /// Runs this case against one machine image and classifies the outcome.
    /// Whatever the machine did: a failure record carries this case's own
    /// stimulus and expected trace, its `mismatch` flag holds exactly when
    /// the captured output differs from the expected trace, and at least one
    /// of its two flags holds.
    pub fn test(self, vm: &lc3::VMState, limit: Option<usize>) -> (r: Result<
        usize,
        SimpleTestError,
    >)
        ensures
            r is Err ==> r->Err_0.input@ == self.input@ && r->Err_0.expect@ == self.expect@ && (
            r->Err_0.alive || r->Err_0.mismatch) && r->Err_0.mismatch == (r->Err_0.output@
                != self.expect@),
            limit matches Some(n) ==> (r is Ok ==> r->Ok_0 <= n),
    {
        let (output, mcr, instructions) = vm_run(vm, &self.input, limit);
        let alive = mcr >> 15 > 0;
        classify_run(self.input, self.expect, output, alive, instructions)
    }
}

/// Generates, compiles, and runs `n` randomized cases against copies of one
/// machine image. On success every case matched the model and halted: the
/// result carries the total instruction count over exactly `n` cases. The
/// first failing case aborts the rest and is returned.
pub fn test_uniform(
    vm: &lc3::VMState,
    num_lo: i16,
    num_hi: i16,
    size_lo: usize,
    size_hi: usize,
    op_choice: OpChoice,
    n: usize,
    limit: Option<usize>,
) -> (r: Result<(u128, usize), SimpleTestError>)
    requires
        num_lo <= num_hi,
        size_lo <= size_hi,
        op_choice.wf(),
    ensures
        r matches Ok(s) ==> s.1 == n,
        r is Err ==> (r->Err_0.alive || r->Err_0.mismatch) && r->Err_0.mismatch == (
        r->Err_0.output@ != r->Err_0.expect@),
{
    let mut cases = FuzzyGenerator {
        num_lo,
        num_hi,
        size_lo,
        size_hi,
        element_count: 0,
        op_choice,
    };
    let mut sum: u128 = 0;
    let mut i: usize = 0;
    while i < n
        invariant
            i <= n,
            n <= usize::MAX,
            sum <= (i as u128) * (usize::MAX as u128 + 1),
            cases.wf(),
        decreases n - i,
    {
        let ops = cases.next();
        let case = compile_ops(ops);
        match case.test(vm, limit) {
            Ok(instructions) => {
                proof {
                    assert(sum + instructions as u128 <= (i as u128 + 1) * (usize::MAX as u128
                        + 1)) by (nonlinear_arith)
                        requires
                            sum <= (i as u128) * (usize::MAX as u128 + 1),
                            instructions as u128 <= usize::MAX as u128,
                    ;
                    assert((i as u128 + 1) * (usize::MAX as u128 + 1) <= u128::MAX)
                        by (nonlinear_arith)
                        requires
                            i as u128 + 1 <= usize::MAX as u128,
                            usize::MAX as u128 + 1 <= 0x1_0000_0000_0000_0000u128,
                    ;
                }
                sum = sum + instructions as u128;
            },
            Err(e) => {
                return Err(e);
            },
        }
        i = i + 1;
    }
    Ok((sum, n))
}

} // verus!
