use proofframe::{
    CancellationToken, ErrorCode, ExactState, ProofFrameError, ResourceAccount, ResourceLimits,
    ValueKind, ValueRef,
};

fn limits(memory: u64, temp: u64) -> ResourceLimits {
    ResourceLimits {
        max_memory_bytes: memory,
        max_temp_bytes: temp,
        max_output_records: 1,
        max_samples: 1,
    }
}

#[test]
fn hierarchical_reservations_roll_back_after_child_failure() {
    let mut account = ResourceAccount::root(limits(16, 16));
    let child = account.child(0, 8, 8);
    let held = account.try_reserve_memory(child, 8).unwrap();
    assert!(account.try_reserve_memory(child, 1).is_err());
    assert_eq!(account.memory_used(0), 8);
    assert_eq!(account.memory_used(child), 8);
    account.release_memory(held);
    assert_eq!(account.memory_used(0), 0);
    assert_eq!(account.memory_used(child), 0);
}

#[test]
fn a_state_that_cannot_spill_names_the_memory_it_lacks() {
    let mut account = ResourceAccount::root(limits(64, 16));
    let mut state = ExactState::new(ValueKind::I64, &mut account, 0, false, None).unwrap();
    assert_eq!(account.memory_used(0), 16);
    assert!(state.insert(&mut account, ValueRef::I64(5), 0).is_ok());
    assert!(state.insert(&mut account, ValueRef::I64(7), 1).is_ok());
    assert_eq!(account.memory_used(0), 48);
    match state.insert(&mut account, ValueRef::I64(9), 2) {
        Err(ProofFrameError::ResourceLimit { resource, requested, used, limit }) => {
            assert_eq!((resource, requested, used, limit), ("memory", 32, 48, 64));
        }
        other => panic!("{other:?}"),
    }
    match state.insert(&mut account, ValueRef::U64(9), 2) {
        Err(ProofFrameError::CorruptData(message)) => {
            assert_eq!(message, "Value kind does not match the exact-state plan");
        }
        other => panic!("{other:?}"),
    }
}

#[test]
fn a_run_without_room_is_refused_before_memory_is_given_back() {
    let mut account = ResourceAccount::root(limits(64, 16));
    let mut state = ExactState::new(ValueKind::I64, &mut account, 0, true, None).unwrap();
    assert!(state.insert(&mut account, ValueRef::I64(5), 0).is_ok());
    assert!(state.insert(&mut account, ValueRef::I64(7), 1).is_ok());
    match state.insert(&mut account, ValueRef::I64(9), 2) {
        Err(ProofFrameError::ResourceLimit { resource, used, limit, .. }) => {
            assert_eq!((resource, used, limit), ("temporary storage", 0, 16));
        }
        other => panic!("{other:?}"),
    }
    assert_eq!(account.memory_used(0), 48);
}

#[test]
fn a_clone_is_cancelled_with_its_token() {
    let token = CancellationToken::new();
    let shared = token.clone();
    let other = CancellationToken::new();
    assert!(shared.check().is_ok());
    token.cancel();
    assert!(shared.is_cancelled());
    assert_eq!(shared.check().err().unwrap().code(), ErrorCode::Cancelled);
    assert!(!other.is_cancelled());
}

#[test]
fn a_node_gives_back_all_it_is_charged() {
    let mut account = ResourceAccount::root(ResourceLimits::default());
    let one = account.child(0, 1 << 20, 1 << 20);
    let two = account.child(0, 1 << 20, 1 << 20);
    account.try_reserve_memory(one, 100).unwrap();
    account.try_reserve_temp(one, 7).unwrap();
    account.try_reserve_memory(two, 11).unwrap();
    account.release_node(one);
    assert_eq!((account.memory_used(one), account.temp_used(one)), (0, 0));
    assert_eq!((account.memory_used(0), account.temp_used(0)), (11, 0));
    assert_eq!(account.peak_memory_used(0), 111);
}

#[test]
fn charges_are_those_of_live_reservations() {
    let mut account = ResourceAccount::root(limits(100, 100));
    let child = account.child(0, 60, 60);
    let a = account.try_reserve_memory(child, 20).unwrap();
    let b = account.try_reserve_memory(0, 30).unwrap();
    let c = account.try_reserve_memory(child, 40).unwrap();
    assert_eq!((account.memory_used(0), account.memory_used(child)), (90, 60));
    assert!(account.try_reserve_memory(0, 11).is_err());
    account.release_memory(c);
    assert_eq!((account.memory_used(0), account.memory_used(child)), (50, 20));
    assert_eq!((account.peak_memory_used(0), account.peak_memory_used(child)), (90, 60));
    account.release_memory(b);
    account.release_memory(a);
    assert_eq!((account.memory_used(0), account.memory_used(child)), (0, 0));
    assert_eq!(account.peak_memory_used(0), 90);
}
