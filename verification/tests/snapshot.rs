//! Snapshots of runs, and what they are made of.
use std::sync::Arc;

use miden_assembly::{Assembler, DefaultSourceManager};
use miden_core::advice::AdviceInputs;
use miden_core::crypto::merkle::{self, EmptySubtreeRoots};
use miden_core::program::Program;
use miden_debug::exec::advice::{
    AdviceMutation, Felt, InnerNodeInfo, MapEntry, PrecompileRequest, Record, Word,
};
use miden_debug::exec::codec::{
    read_bool, read_le, read_size, write_bool, write_le, write_size, ReadError,
};
use miden_debug::exec::options::{RunOptions, StackInputs};
use miden_debug::exec::recorder::{
    MastForestRecorder, ReplaySnapshotRecorder, ReplaySnapshotWrite,
};
use miden_debug::exec::snapshot::{ReplaySnapshot, ReplaySnapshotError};

fn felt(value: u64) -> Felt {
    Felt { value }
}

fn word(values: [u64; 4]) -> Word {
    Word { a: felt(values[0]), b: felt(values[1]), c: felt(values[2]), d: felt(values[3]) }
}

fn assemble(source: &str) -> Program {
    Assembler::new(Arc::new(DefaultSourceManager::default()))
        .assemble_program(source)
        .expect("failed to assemble test program")
}

fn options() -> RunOptions {
    RunOptions {
        max_cycles: 100_000,
        expected_cycles: 32,
        core_trace_fragment_size: 1024,
        enable_tracing: true,
        enable_debugging: true,
        max_adv_map_value_size: 64,
        max_adv_map_elements: 256,
        max_hash_len_bytes: 512,
        max_num_continuations: 128,
        max_stack_depth: 128,
    }
}

fn sample() -> ReplaySnapshot {
    let program = assemble("begin push.1 push.2 add drop end");
    let forest = program.mast_forest().clone();
    let event_log = vec![
        vec![AdviceMutation::ExtendStack { values: vec![felt(7), felt(8)] }],
        vec![],
        vec![AdviceMutation::ExtendMerkleStore {
            infos: vec![InnerNodeInfo {
                value: word([1, 2, 3, 4]),
                left: word([5, 6, 7, 8]),
                right: word([9, 10, 11, 12]),
            }],
        }],
    ];
    ReplaySnapshot {
        program,
        stack_inputs: StackInputs::new(&vec![felt(42), felt(43)]).unwrap(),
        advice_inputs: AdviceInputs::default().with_stack([miden_core::Felt::new_unchecked(99)]),
        options: options().checked().unwrap(),
        mast_forests: vec![forest],
        event_log,
    }
}

#[test]
fn replay_snapshot_round_trips() {
    let snapshot = sample();
    let restored = ReplaySnapshot::read_from_bytes(&snapshot.to_bytes())
        .expect("snapshot failed to deserialize");

    assert_eq!(restored.program.hash(), snapshot.program.hash());
    assert_eq!(restored.stack_inputs.elements, snapshot.stack_inputs.elements);
    assert_eq!(restored.advice_inputs, snapshot.advice_inputs);
    assert_eq!(restored.options, snapshot.options);
    assert_eq!(restored.mast_forests.len(), 1);
    assert_eq!(restored.event_log.len(), 3);
    assert_eq!(restored.event_log[1].len(), 0, "empty event batch must survive");
    match restored.event_log[0].as_slice() {
        [AdviceMutation::ExtendStack { values }] => {
            assert_eq!(values.as_slice(), &[felt(7), felt(8)]);
        }
        _ => panic!("unexpected first event batch"),
    }
    match restored.event_log[2].as_slice() {
        [AdviceMutation::ExtendMerkleStore { infos }] => {
            assert_eq!(infos.len(), 1);
            assert_eq!(infos[0].value, word([1, 2, 3, 4]));
            assert_eq!(infos[0].right, word([9, 10, 11, 12]));
        }
        _ => panic!("unexpected merkle-store event batch"),
    }
}

#[test]
fn replay_snapshot_rejects_bad_magic() {
    let err = ReplaySnapshot::read_from_bytes(&b"not a snapshot at all really".to_vec());
    assert!(err.is_err(), "expected deserialization to fail on bad magic");
}

#[test]
fn a_snapshot_begins_with_its_magic_and_its_version() {
    let bytes = sample().to_bytes();
    assert_eq!(bytes[..6], *b"MDNSNP");
    let mut other = bytes.clone();
    other[6] = other[6].wrapping_add(1);
    assert!(ReplaySnapshot::read_from_bytes(&other).is_err());
    let cut = bytes[..bytes.len() - 1].to_vec();
    assert!(ReplaySnapshot::read_from_bytes(&cut).is_err());
    assert!(matches!(
        ReplaySnapshot::read_from_bytes(&bytes[..3].to_vec()),
        Err(ReadError::UnexpectedEof)
    ));
}

#[test]
fn bytes_behind_a_snapshot_are_ignored() {
    let mut bytes = sample().to_bytes();
    bytes.push(7);
    let restored = ReplaySnapshot::read_from_bytes(&bytes).unwrap();
    assert_eq!(restored.event_log.len(), 3);
}

#[test]
fn the_bytes_of_the_advice_are_put_in_their_place() {
    let snapshot = sample();
    let with = snapshot.to_bytes_with(&vec![1, 2, 3]);
    let without = snapshot.to_bytes_with(&Vec::new());
    assert_eq!(with.len(), without.len() + 3);
}

#[test]
fn files_that_hold_no_snapshot_are_reported() {
    let read = ReplaySnapshot::from_file_content(Err("no such file".into()));
    match read {
        Err(e @ ReplaySnapshotError::Io(_)) => {
            assert_eq!(e.message(), "failed to read replay snapshot file: no such file");
        }
        _ => panic!("the file cannot be read"),
    }
    let read = ReplaySnapshot::from_file_content(Ok(b"not a snapshot at all".to_vec()));
    match read {
        Err(e @ ReplaySnapshotError::Deserialization(_)) => {
            assert!(e.message().starts_with("failed to deserialize replay snapshot: "));
        }
        _ => panic!("the file holds no snapshot"),
    }
    assert!(ReplaySnapshot::from_file_content(Ok(sample().to_bytes())).is_ok());
}

#[test]
fn numbers_are_written_with_the_lowest_byte_first() {
    let mut out = Vec::new();
    write_le(&mut out, 0x0102_0304, 4);
    assert_eq!(out, vec![4, 3, 2, 1]);
    assert_eq!(read_le(&out, 0, 4).unwrap(), (0x0102_0304, 4));
    assert!(matches!(read_le(&out, 1, 4), Err(ReadError::UnexpectedEof)));
}

#[test]
fn sizes_take_as_few_bytes_as_they_can() {
    for (n, bytes) in [(0usize, 1usize), (127, 1), (128, 2), (16383, 2), (16384, 3)] {
        let mut out = Vec::new();
        write_size(&mut out, n);
        assert_eq!(out.len(), bytes, "size {n}");
        assert_eq!(read_size(&out, 0).unwrap(), (n, bytes));
    }
    let mut out = Vec::new();
    write_size(&mut out, usize::MAX);
    assert_eq!(read_size(&out, 0).unwrap(), (usize::MAX, 9));
    assert!(matches!(read_size(&Vec::new(), 0), Err(ReadError::UnexpectedEof)));
}

#[test]
fn booleans_are_one_byte() {
    let mut out = Vec::new();
    write_bool(&mut out, true);
    write_bool(&mut out, false);
    assert_eq!(out, vec![1, 0]);
    assert_eq!(read_bool(&out, 0).unwrap(), (true, 1));
    assert_eq!(read_bool(&out, 1).unwrap(), (false, 2));
    assert!(matches!(read_bool(&vec![2], 0), Err(ReadError::InvalidValue(_))));
}

#[test]
fn every_change_of_advice_reads_back() {
    let changes = vec![
        AdviceMutation::ExtendStack { values: vec![felt(1)] },
        AdviceMutation::ExtendMap {
            entries: vec![MapEntry { key: word([1, 2, 3, 4]), values: vec![felt(5), felt(6)] }],
        },
        AdviceMutation::ExtendMerkleStore { infos: vec![] },
        AdviceMutation::ExtendPrecompileRequests {
            data: vec![PrecompileRequest { event_id: felt(9), calldata: vec![1, 2, 3] }],
        },
    ];
    let mut out = Vec::new();
    changes.write(&mut out);
    let (restored, next) = Vec::<AdviceMutation>::read(&out, 0).unwrap();
    assert_eq!(next, out.len());
    assert_eq!(restored.len(), 4);
    assert!(matches!(&restored[0], AdviceMutation::ExtendStack { values } if values == &[felt(1)]));
    match &restored[1] {
        AdviceMutation::ExtendMap { entries } => {
            assert_eq!(entries[0].key, word([1, 2, 3, 4]));
            assert_eq!(entries[0].values, vec![felt(5), felt(6)]);
        }
        _ => panic!("unexpected change"),
    }
    match &restored[3] {
        AdviceMutation::ExtendPrecompileRequests { data } => {
            assert_eq!(data[0].event_id, felt(9));
            assert_eq!(data[0].calldata, vec![1, 2, 3]);
        }
        _ => panic!("unexpected change"),
    }
    assert!(AdviceMutation::read(&vec![4, 0], 0).is_err());
}

#[test]
fn elements_outside_of_the_field_are_refused() {
    let out = vec![0xff; 8];
    assert!(matches!(Felt::read(&out, 0), Err(ReadError::InvalidValue(_))));
}

#[test]
fn the_code_of_a_snapshot_reads_back() {
    assert!(sample().code_reads_back());
    let bare = ReplaySnapshot { mast_forests: Vec::new(), ..sample() };
    assert!(bare.code_reads_back());
}

#[test]
fn empty_subtrees_are_put_back() {
    let roots = EmptySubtreeRoots::empty_hashes(255);
    let node = |value: miden_core::Word, child: u64| {
        let child = miden_core::Word::from([miden_core::Felt::new_unchecked(child); 4]);
        merkle::InnerNodeInfo { value, left: child, right: child }
    };
    let own = miden_core::Word::from([miden_core::Felt::new_unchecked(5); 4]);
    let mut snapshot = sample();
    snapshot.advice_inputs.store.extend([node(own, 6)]);
    assert!(snapshot.advice_reads_back());
    let kept = snapshot.advice_inputs.store.clone();
    let restored = ReplaySnapshot::read_from_bytes(&snapshot.to_bytes()).unwrap();
    assert_eq!(restored.advice_inputs.store, kept);
    assert_ne!(kept, merkle::MerkleStore::new());
    snapshot.advice_inputs.store.extend([node(roots[3], 7), node(roots[254], 8)]);
    assert_ne!(snapshot.advice_inputs.store, kept);
    assert!(!snapshot.advice_reads_back());
    let restored = ReplaySnapshot::read_from_bytes(&snapshot.to_bytes()).unwrap();
    assert_eq!(restored.advice_inputs.store, kept);
    let nodes: Vec<_> = merkle::MerkleStore::new().inner_nodes().collect();
    assert_eq!(nodes.len(), 255);
    for node in nodes {
        let place = roots.iter().position(|root| *root == node.value).unwrap();
        assert_eq!((node.left, node.right), (roots[place + 1], roots[place + 1]));
    }
}

#[test]
fn limits_are_rounded_and_tested() {
    let rounded = RunOptions { expected_cycles: 100, ..options() }.checked().unwrap();
    assert_eq!(rounded.expected_cycles, 128);
    assert_eq!(rounded.checked().unwrap(), rounded);
    assert!(RunOptions { max_cycles: 1, ..options() }.checked().is_err());
    assert!(RunOptions { core_trace_fragment_size: 0, ..options() }.checked().is_err());
    assert!(RunOptions { max_stack_depth: 3, ..options() }.checked().is_err());
    assert!(RunOptions { expected_cycles: u32::MAX, ..options() }.checked().is_err());
}

#[test]
fn the_stack_has_room_for_sixteen() {
    let stack = StackInputs::new(&vec![felt(1), felt(2)]).unwrap();
    assert_eq!(stack.elements.len(), 16);
    assert_eq!(stack.elements[..3], [felt(1), felt(2), felt(0)]);
    let error = StackInputs::new(&vec![felt(1); 17]).err().unwrap();
    assert_eq!(error, "number of input values on the stack cannot exceed 16, but was 17");
    let mut out = Vec::new();
    stack.write(&mut out);
    let (restored, _) = StackInputs::read(&out, 0).unwrap();
    assert_eq!(restored.elements, stack.elements);
}

#[test]
fn code_is_recorded_once() {
    let forest = assemble("begin push.1 drop end").mast_forest().clone();
    let mut recorder = MastForestRecorder::new();
    recorder.record(1, forest.clone());
    recorder.record(2, forest.clone());
    recorder.record(1, forest);
    assert_eq!(recorder.snapshot().len(), 2);
    recorder.clear();
    assert!(recorder.snapshot().is_empty());
}

#[test]
fn the_outcome_of_recording_is_handed_out_once() {
    let mut recorder = ReplaySnapshotRecorder::new();
    assert!(recorder.take().is_none());
    recorder.record_success(ReplaySnapshotWrite {
        path: "a".into(),
        event_count: 1,
        forest_count: 2,
    });
    match recorder.take() {
        Some(Ok(write)) => assert_eq!((write.event_count, write.forest_count), (1, 2)),
        _ => panic!("the snapshot was written"),
    }
    assert!(recorder.take().is_none());
    recorder.record_error("a".into(), "disk full".into());
    match recorder.take() {
        Some(Err(e)) => {
            assert_eq!(e.text(), "failed to write replay snapshot to a: disk full");
        }
        _ => panic!("the snapshot was not written"),
    }
}
