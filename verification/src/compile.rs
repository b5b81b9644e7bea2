//! Compiling an operation sequence into one test case: the textual command
//! script the target consumes, and the expected trace obtained by replaying
//! the sequence through the reference model.
use vstd::prelude::*;

use crate::heap::{dec_i16, HeapEnv};
use crate::ops::{apply_op_state, apply_op_trace, replay_state, replay_trace, Operation};

verus! {

/// `"q\n"`, the command that ends a session.
pub open spec fn lit_quit() -> Seq<u8> {
    seq![113, 10]
}

/// `">q\n"`, the target's echo of the quit command, ending the trace.
pub open spec fn lit_expect_quit() -> Seq<u8> {
    seq![62, 113, 10]
}

/// The command line for one operation: `"i <value>\n"` or `"r\n"`.
pub open spec fn op_script_line(op: Operation) -> Seq<u8> {
    match op {
        Operation::Push(v) => seq![105u8, 32u8] + dec_i16(v) + seq![10u8],
        Operation::Pop => seq![114u8, 10u8],
    }
}

/// The whole command script: one line per operation, then the quit command.
pub open spec fn script_of(ops: Seq<Operation>) -> Seq<u8>
    decreases ops.len(),
{
    if ops.len() == 0 {
        lit_quit()
    } else {
        op_script_line(ops[0]) + script_of(ops.drop_first())
    }
}

/// The expected trace: the model's replay from empty, then the quit echo.
pub open spec fn expect_of(ops: Seq<Operation>) -> Seq<u8> {
    replay_trace(Seq::<i16>::empty(), ops) + lit_expect_quit()
}

/// One compiled case: the input script fed to the target, and the byte-exact
/// trace it is expected to produce.
pub struct SimpleTestCase {
    pub input: Vec<u8>,
    pub expect: Vec<u8>,
}

/// Compiles a sequence: renders the command script, and derives the expected
/// trace by replaying the sequence through a fresh reference heap. Both
/// results are functions of the sequence alone, so compilation is
/// deterministic and cannot fail.
pub fn compile_ops(ops: Vec<Operation>) -> (r: SimpleTestCase)
    ensures
        r.input@ == script_of(ops@),
        r.expect@ == expect_of(ops@),
{
    let mut input: Vec<u8> = Vec::new();
    proof {
        assert(ops@.skip(0) =~= ops@);
        assert(Seq::<u8>::empty() + script_of(ops@) =~= script_of(ops@));
    }
    let mut i: usize = 0;
    while i < ops.len()
        invariant
            i <= ops.len(),
            script_of(ops@) == input@ + script_of(ops@.skip(i as int)),
        decreases ops.len() - i,
    {
        let ghost pre = input@;
        let ghost rest = ops@.skip(i as int);
        match ops[i] {
            Operation::Push(v) => {
                input.push(105);
                input.push(32);
                crate::heap::push_i16_dec(&mut input, v);
                input.push(10);
            },
            Operation::Pop => {
                input.push(114);
                input.push(10);
            },
        }
        proof {
            assert(rest[0] == ops@[i as int]);
            assert(rest.drop_first() =~= ops@.skip(i as int + 1));
            assert(script_of(rest) == op_script_line(ops@[i as int]) + script_of(
                ops@.skip(i as int + 1),
            ));
            assert(input@ =~= pre + op_script_line(ops@[i as int]));
            assert(script_of(ops@) == input@ + script_of(ops@.skip(i as int + 1)));
        }
        i = i + 1;
    }
    input.push(113);
    input.push(10);
    proof {
        assert(ops@.skip(ops@.len() as int) =~= Seq::<Operation>::empty());
        assert(input@ =~= script_of(ops@));
    }
    let mut he = HeapEnv::new(Vec::new());
    proof {
        assert(ops@.skip(0) =~= ops@);
        assert(Seq::<u8>::empty() + replay_trace(Seq::<i16>::empty(), ops@) =~= replay_trace(
            Seq::<i16>::empty(),
            ops@,
        ));
    }
    let mut j: usize = 0;
    while j < ops.len()
        invariant
            j <= ops.len(),
            he.wf(),
            replay_trace(Seq::<i16>::empty(), ops@) == he.wr@ + replay_trace(
                he.heap(),
                ops@.skip(j as int),
            ),
            replay_state(Seq::<i16>::empty(), ops@) == replay_state(
                he.heap(),
                ops@.skip(j as int),
            ),
        decreases ops.len() - j,
    {
        let ghost hpre = he.heap();
        let ghost wpre = he.wr@;
        let ghost rest = ops@.skip(j as int);
        match ops[j] {
            Operation::Push(v) => he.insert(v),
            Operation::Pop => he.remove(),
        }
        proof {
            assert(rest[0] == ops@[j as int]);
            assert(rest.drop_first() =~= ops@.skip(j as int + 1));
            assert(he.heap() == apply_op_state(hpre, ops@[j as int]));
            assert(he.wr@ == wpre + apply_op_trace(hpre, ops@[j as int]));
            assert(replay_trace(hpre, rest) == apply_op_trace(hpre, ops@[j as int])
                + replay_trace(he.heap(), ops@.skip(j as int + 1)));
            assert(replay_state(hpre, rest) == replay_state(he.heap(), ops@.skip(j as int + 1)));
            assert(replay_trace(Seq::<i16>::empty(), ops@) =~= he.wr@ + replay_trace(
                he.heap(),
                ops@.skip(j as int + 1),
            ));
        }
        j = j + 1;
    }
    let mut expect = he.wr;
    expect.push(62);
    expect.push(113);
    expect.push(10);
    proof {
        assert(ops@.skip(ops@.len() as int) =~= Seq::<Operation>::empty());
        assert(expect@ =~= expect_of(ops@));
    }
    SimpleTestCase { input, expect }
}

} // verus!
