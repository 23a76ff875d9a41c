use crayfish::finish::{completion_routes, FinishError, FinishState, ResultKind, ResultRoute};
use crayfish::global_id::{activity_finish_id, dst_place, finish_place, spawned_place, IdAllocator};
use std::collections::HashSet;

#[test]
fn finish_id_packs_place_and_counter() {
    let mut a = IdAllocator::new(3);
    let f0 = a.new_finish_id().unwrap();
    let f1 = a.new_finish_id().unwrap();
    assert_eq!(f0, 3u64 << 48);
    assert_eq!(f1, (3u64 << 48) | 1);
    assert_eq!(finish_place(f1), 3);
}

#[test]
fn activity_id_packs_fields() {
    let mut a = IdAllocator::new(2);
    let f = a.new_finish_id().unwrap();
    let aid = a.new_activity_id(f, 5).unwrap();
    assert_eq!(aid, ((f as u128) << 64) | (2u128 << 48) | (5u128 << 32));
    assert_eq!(activity_finish_id(aid), f);
    assert_eq!(spawned_place(aid), 2);
    assert_eq!(dst_place(aid), 5);
    let next = a.new_activity_id(f, 5).unwrap();
    assert_eq!(next, aid + 1);
}

#[test]
fn counters_exhaust_instead_of_wrapping() {
    let mut a = IdAllocator::new(1);
    a.next_activity = 0xffff_ffff;
    assert!(a.new_activity_id(0, 0).is_some());
    assert!(a.new_activity_id(0, 0).is_none());
    assert_eq!(a.next_activity, 0x1_0000_0000);
    a.next_finish = 0xffff_ffff_ffff;
    assert!(a.new_finish_id().is_some());
    assert!(a.new_finish_id().is_none());
}

#[test]
fn activity_ids_unique_across_places() {
    let mut seen = HashSet::new();
    for place in 0..4u16 {
        let mut a = IdAllocator::new(place);
        let f = a.new_finish_id().unwrap();
        for i in 0..100u16 {
            let aid = a.new_activity_id(f, i % 4).unwrap();
            assert!(seen.insert(aid));
        }
    }
    assert_eq!(seen.len(), 400);
}

#[test]
fn single_place_hundred_spawns_finish() {
    let mut fs = FinishState::new();
    for _ in 0..100 {
        fs.on_local_spawn().unwrap();
    }
    assert_eq!(fs.outstanding, 100);
    let mut done = 0;
    for _ in 0..100 {
        assert!(!fs.is_done());
        fs.on_result(0).unwrap();
        done += 1;
    }
    assert!(fs.is_done());
    assert_eq!(done, 100);
}

#[test]
fn no_wait_chain_of_two_hundred() {
    // each activity spawns the next one until the 200th
    let mut fs = FinishState::new();
    fs.on_local_spawn().unwrap();
    let mut results = 0;
    for c in 1..=200 {
        let subs = if c < 200 { 1 } else { 0 };
        fs.on_result(subs).unwrap();
        results += 1;
        assert_eq!(fs.is_done(), c == 200);
    }
    assert_eq!(results, 200);
}

#[test]
fn panicked_activity_still_completes() {
    let mut fs = FinishState::new();
    fs.on_local_spawn().unwrap();
    fs.on_local_spawn().unwrap();
    // one activity panicked, its stripped result counts the same
    fs.on_result(0).unwrap();
    assert_eq!(fs.outstanding, 1);
    fs.on_result(0).unwrap();
    assert!(fs.is_done());
}

#[test]
fn finish_errors() {
    let mut fs = FinishState::new();
    assert_eq!(fs.on_result(3), Err(FinishError::Unexpected));
    assert_eq!(fs.outstanding, 0);
    fs.outstanding = u64::MAX;
    assert_eq!(fs.on_local_spawn(), Err(FinishError::Overflow));
    fs.outstanding = 2;
    assert_eq!(fs.on_result(u64::MAX), Err(FinishError::Overflow));
    assert_eq!(fs.outstanding, 2);
    assert_eq!(fs.on_result(u64::MAX - 1), Ok(()));
    assert_eq!(fs.outstanding, u64::MAX);
}

#[test]
fn result_to_parent_goes_first() {
    let mut a = IdAllocator::new(1);
    let f = IdAllocator::new(0).new_finish_id().unwrap();
    let aid = a.new_activity_id(f, 2).unwrap();
    assert_eq!(
        completion_routes(aid, true),
        vec![
            ResultRoute { kind: ResultKind::ToParent, place: 0 },
            ResultRoute { kind: ResultKind::ToWaiter, place: 1 },
        ]
    );
    assert_eq!(
        completion_routes(aid, false),
        vec![ResultRoute { kind: ResultKind::ToParent, place: 0 }]
    );
}
