//! Tests of the generator, the outcome classification, and the differential
//! runner against a small machine image.
use heap_tester::compile::{compile_ops, SimpleTestCase};
use heap_tester::gen::{FuzzyGenerator, OpChoice};
use heap_tester::heap::MAX_SIZE;
use heap_tester::ops::Operation;
use heap_tester::runner::{classify_run, test_uniform};

#[test]
fn classify_success_needs_halt_and_exact_output() {
    let r = classify_run(b"i 1\n".to_vec(), b"x".to_vec(), b"x".to_vec(), false, 17);
    assert_eq!(r.unwrap(), 17);
}

#[test]
fn classify_reports_mismatch() {
    let r = classify_run(b"in".to_vec(), b"want".to_vec(), b"got".to_vec(), false, 3);
    let e = r.err().unwrap();
    assert!(e.mismatch);
    assert!(!e.alive);
    assert_eq!(e.input, b"in");
    assert_eq!(e.output, b"got");
    assert_eq!(e.expect, b"want");
}

#[test]
fn classify_reports_liveness_violation() {
    let r = classify_run(b"in".to_vec(), b"same".to_vec(), b"same".to_vec(), true, 3);
    let e = r.err().unwrap();
    assert!(e.alive);
    assert!(!e.mismatch);
}

#[test]
fn classify_reports_both_violations_at_once() {
    let r = classify_run(b"in".to_vec(), b"want".to_vec(), b"got".to_vec(), true, 3);
    let e = r.err().unwrap();
    assert!(e.alive && e.mismatch);
}

fn simulate_outstanding(ops: &[Operation]) -> Option<usize> {
    let mut count: usize = 0;
    for op in ops {
        match op {
            Operation::Push(_) => {
                if count < MAX_SIZE {
                    count += 1;
                }
            }
            Operation::Pop => {
                if count == 0 {
                    return None;
                }
                count -= 1;
            }
        }
    }
    Some(count)
}

#[test]
fn generator_respects_ranges_and_drains() {
    let mut cases = FuzzyGenerator {
        num_lo: -4,
        num_hi: 9,
        size_lo: 30,
        size_hi: 40,
        element_count: 0,
        op_choice: OpChoice::Ratio(1, 3),
    };
    for _ in 0..50 {
        let ops = cases.next();
        assert!(ops.len() >= 30 && ops.len() <= 40 + MAX_SIZE);
        for op in &ops {
            if let Operation::Push(v) = op {
                assert!((-4..=9).contains(v));
            }
        }
        assert_eq!(simulate_outstanding(&ops), Some(0));
        // some raw length within the sampled range is followed by exactly
        // the pops that drain the elements outstanding at that point
        assert!((30..=40).any(|m| {
            m <= ops.len()
                && ops[m..].iter().all(|op| *op == Operation::Pop)
                && simulate_outstanding(&ops[..m]) == Some(ops.len() - m)
        }));
    }
}

#[test]
fn generator_with_even_choice_drains_too() {
    let mut cases = FuzzyGenerator {
        num_lo: 0,
        num_hi: 0,
        size_lo: 0,
        size_hi: 5,
        element_count: 0,
        op_choice: OpChoice::Even,
    };
    for _ in 0..100 {
        let ops = cases.next();
        assert!(ops.len() <= 5 + MAX_SIZE);
        assert_eq!(simulate_outstanding(&ops), Some(0));
    }
}

/// A machine image whose program clears the clock-enable bit at once and
/// writes nothing: `AND R0,R0,#0` then `STI R0, <pointer to MCR>`.
fn halting_state() -> lc3::VMState {
    let mut vm: lc3::VM = lc3::VM::default();
    vm.load_u16(0x3000, &[0x5020, 0xB001, 0x0000, 0xFFFE]);
    vm.state
}

#[test]
fn faithful_silent_target_succeeds_on_empty_case() {
    let case = SimpleTestCase {
        input: Vec::new(),
        expect: Vec::new(),
    };
    let r = case.test(&halting_state(), None);
    assert_eq!(r.unwrap(), 2);
}

#[test]
fn silent_target_fails_nonempty_expectation() {
    let case = SimpleTestCase {
        input: b"i 1\nq\n".to_vec(),
        expect: b">i 1\nHeap: 1 \n>q\n".to_vec(),
    };
    let r = case.test(&halting_state(), Some(50_000));
    let e = r.err().unwrap();
    assert!(e.mismatch);
    assert!(!e.alive);
    assert_eq!(e.output, b"");
    assert_eq!(e.expect, b">i 1\nHeap: 1 \n>q\n");
}

#[test]
fn runaway_target_is_a_liveness_violation() {
    // an empty machine executes no-op branches forever; the budget expires
    let case = SimpleTestCase {
        input: Vec::new(),
        expect: Vec::new(),
    };
    let state = lc3::VMState::default();
    let r = case.test(&state, Some(1_000));
    let e = r.err().unwrap();
    assert!(e.alive);
}

#[test]
fn target_stuck_at_top_of_memory_is_a_liveness_violation() {
    // with no budget, an empty machine walks its no-op branches up the whole
    // address space; the run must stop at the top and report it still
    // running instead of crashing
    let case = SimpleTestCase {
        input: Vec::new(),
        expect: Vec::new(),
    };
    let state = lc3::VMState::default();
    let r = case.test(&state, None);
    let e = r.err().unwrap();
    assert!(e.alive);
}

#[test]
fn test_uniform_reports_first_failure() {
    // the silent halting target cannot reproduce any nonempty trace, so the
    // very first generated case must come back as a mismatch
    let r = test_uniform(
        &halting_state(),
        0,
        3,
        3,
        5,
        OpChoice::Even,
        4,
        Some(50_000),
    );
    let e = r.err().unwrap();
    assert!(e.mismatch);
    let expect = String::from_utf8(e.expect).unwrap();
    assert!(expect.starts_with(">i ") || expect.starts_with(">r\n"));
    assert!(expect.ends_with(">q\n"));
}

#[test]
fn generated_cases_round_trip_through_script_and_parser() {
    let mut cases = FuzzyGenerator {
        num_lo: -300,
        num_hi: 300,
        size_lo: 0,
        size_hi: 60,
        element_count: 0,
        op_choice: OpChoice::Ratio(1, 2),
    };
    for _ in 0..25 {
        let ops = cases.next();
        let case = compile_ops(ops.clone());
        let parsed = heap_tester::script::parse_script(&case.input).unwrap();
        assert_eq!(parsed, ops);
        assert_eq!(compile_ops(parsed).expect, case.expect);
    }
}

#[test]
fn compiled_case_feeds_runner_without_model_errors() {
    let ops = vec![
        Operation::Push(2),
        Operation::Push(1),
        Operation::Pop,
        Operation::Pop,
    ];
    let case = compile_ops(ops);
    let expect = String::from_utf8(case.expect.clone()).unwrap();
    assert!(!expect.contains("failed"));
    assert!(expect.ends_with("Heap: Empty\n>q\n"));
}
