//! Tests of the reference heap model and the case compiler.
use heap_tester::compile::compile_ops;
use heap_tester::heap::{HeapEnv, MAX_SIZE};
use heap_tester::ops::Operation;
use heap_tester::script::parse_script;

fn trace(he: &HeapEnv) -> String {
    String::from_utf8(he.wr.clone()).unwrap()
}

/// Scans the live elements for the min-heap property.
fn heap_property_holds(he: &HeapEnv) -> bool {
    for i in 0..he.size {
        let l = 2 * i + 1;
        let r = 2 * i + 2;
        if l < he.size && he.arr[i] > he.arr[l] {
            return false;
        }
        if r < he.size && he.arr[i] > he.arr[r] {
            return false;
        }
    }
    true
}

#[test]
fn push_then_pop_scenario() {
    let mut he = HeapEnv::new(Vec::new());
    he.insert(5);
    he.insert(3);
    he.insert(8);
    he.remove();
    assert_eq!(
        trace(&he),
        ">i 5\nHeap: 5 \n\
         >i 3\nHeap: 5 3 \nHeap: 3 5 \n\
         >i 8\nHeap: 3 5 8 \n\
         >r\nHeap: 8 5 \nHeap: 5 8 \n"
    );
    assert_eq!(he.size, 2);
    assert_eq!(&he.arr[..2], &[5, 8]);
}

#[test]
fn twenty_one_decreasing_pushes_fail_once() {
    let mut he = HeapEnv::new(Vec::new());
    for v in (1..=20).rev() {
        he.insert(v);
    }
    assert_eq!(he.size, MAX_SIZE);
    assert!(heap_property_holds(&he));
    assert_eq!(trace(&he).matches("Insert failed").count(), 0);
    let arr_before = he.arr.clone();
    he.insert(0);
    assert_eq!(he.size, MAX_SIZE);
    assert_eq!(he.arr, arr_before);
    assert!(heap_property_holds(&he));
    assert_eq!(trace(&he).matches("Insert failed").count(), 1);
    assert!(trace(&he).ends_with(">i 0\nInsert failed\n"));
}

#[test]
fn remove_from_empty_fails_once() {
    let mut he = HeapEnv::new(Vec::new());
    he.remove();
    assert_eq!(trace(&he), ">r\nRemove failed\n");
    assert_eq!(he.size, 0);
}

#[test]
fn heap_property_after_every_operation() {
    let ops = [
        Operation::Push(7),
        Operation::Push(7),
        Operation::Push(-3),
        Operation::Push(0),
        Operation::Pop,
        Operation::Push(12),
        Operation::Push(-3),
        Operation::Pop,
        Operation::Pop,
        Operation::Pop,
        Operation::Pop,
        Operation::Pop,
    ];
    let mut he = HeapEnv::new(Vec::new());
    for op in ops {
        match op {
            Operation::Push(v) => he.insert(v),
            Operation::Pop => he.remove(),
        }
        assert!(heap_property_holds(&he));
    }
    assert_eq!(he.size, 0);
}

#[test]
fn drained_sequence_ends_with_empty_listing() {
    let ops = vec![
        Operation::Push(4),
        Operation::Push(9),
        Operation::Pop,
        Operation::Push(2),
        Operation::Pop,
        Operation::Pop,
    ];
    let mut he = HeapEnv::new(Vec::new());
    for op in &ops {
        match op {
            Operation::Push(v) => he.insert(*v),
            Operation::Pop => he.remove(),
        }
    }
    assert_eq!(he.size, 0);
    assert!(trace(&he).ends_with("Heap: Empty\n"));
}

#[test]
fn negative_and_extreme_values_render_as_decimals() {
    let mut he = HeapEnv::new(Vec::new());
    he.insert(-5);
    he.insert(i16::MIN);
    he.insert(i16::MAX);
    assert_eq!(
        trace(&he),
        ">i -5\nHeap: -5 \n\
         >i -32768\nHeap: -5 -32768 \nHeap: -32768 -5 \n\
         >i 32767\nHeap: -32768 -5 32767 \n"
    );
}

#[test]
fn compile_renders_script_and_expected_trace() {
    let ops = vec![
        Operation::Push(5),
        Operation::Push(3),
        Operation::Push(8),
        Operation::Pop,
    ];
    let case = compile_ops(ops);
    assert_eq!(
        String::from_utf8(case.input).unwrap(),
        "i 5\ni 3\ni 8\nr\nq\n"
    );
    assert_eq!(
        String::from_utf8(case.expect).unwrap(),
        ">i 5\nHeap: 5 \n\
         >i 3\nHeap: 5 3 \nHeap: 3 5 \n\
         >i 8\nHeap: 3 5 8 \n\
         >r\nHeap: 8 5 \nHeap: 5 8 \n\
         >q\n"
    );
}

#[test]
fn compile_of_empty_sequence_is_just_quit() {
    let case = compile_ops(Vec::new());
    assert_eq!(String::from_utf8(case.input).unwrap(), "q\n");
    assert_eq!(String::from_utf8(case.expect).unwrap(), ">q\n");
}

#[test]
fn replaying_the_compiled_script_reproduces_the_expected_trace() {
    // includes a pop against an empty model and pushes past the capacity,
    // so the failure lines go through the round trip as well
    let mut ops = vec![Operation::Pop, Operation::Push(-7), Operation::Push(60)];
    for v in 0..=20 {
        ops.push(Operation::Push(v));
    }
    ops.push(Operation::Pop);
    let case = compile_ops(ops.clone());
    let parsed = parse_script(&case.input).unwrap();
    assert_eq!(parsed, ops);
    let recompiled = compile_ops(parsed);
    assert_eq!(recompiled.expect, case.expect);
    // replay the parsed script through a fresh model by hand as well
    let mut he = HeapEnv::new(Vec::new());
    for op in parse_script(&case.input).unwrap() {
        match op {
            Operation::Push(v) => he.insert(v),
            Operation::Pop => he.remove(),
        }
    }
    let mut replayed = he.wr;
    replayed.extend_from_slice(b">q\n");
    assert_eq!(replayed, case.expect);
}

#[test]
fn parser_accepts_exactly_the_command_syntax() {
    assert_eq!(
        parse_script(&b"i -32768\ni 32767\nr\nq\n".to_vec()).unwrap(),
        vec![
            Operation::Push(i16::MIN),
            Operation::Push(i16::MAX),
            Operation::Pop,
        ]
    );
    assert_eq!(parse_script(&b"q\n".to_vec()).unwrap(), Vec::new());
    // out-of-range values, malformed fields, and unterminated scripts fail
    assert!(parse_script(&b"i 32768\nq\n".to_vec()).is_none());
    assert!(parse_script(&b"i -32769\nq\n".to_vec()).is_none());
    assert!(parse_script(&b"i -\nq\n".to_vec()).is_none());
    assert!(parse_script(&b"i 1x\nq\n".to_vec()).is_none());
    assert!(parse_script(&b"i 5".to_vec()).is_none());
    assert!(parse_script(&b"i 5\nr\n".to_vec()).is_none());
    assert!(parse_script(&b"x\nq\n".to_vec()).is_none());
    assert!(parse_script(&b"".to_vec()).is_none());
}
