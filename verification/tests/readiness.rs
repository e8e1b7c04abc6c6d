use room_sync::readiness::{
    EncryptionSyncReadiness, EncryptionSyncReadinessSnapshot, EncryptionSyncReadinessState,
};

fn snapshot(generation: u64, state: EncryptionSyncReadinessState) -> EncryptionSyncReadinessSnapshot {
    EncryptionSyncReadinessSnapshot { generation, state }
}

#[test]
fn generations_begin_pending() {
    let mut readiness = EncryptionSyncReadiness::new();
    assert_eq!(readiness.snapshot(), EncryptionSyncReadinessSnapshot::default());
    assert_eq!(readiness.snapshot(), snapshot(0, EncryptionSyncReadinessState::NotStarted));
    let (guard, published) = readiness.begin();
    assert_eq!(guard.generation(), 1);
    assert_eq!(published, snapshot(1, EncryptionSyncReadinessState::Pending));
    assert_eq!(readiness.snapshot(), published);
}

#[test]
fn received_response_is_published() {
    let mut readiness = EncryptionSyncReadiness::new();
    let (mut guard, _) = readiness.begin();
    assert_eq!(
        guard.mark_received(&mut readiness),
        Some(snapshot(1, EncryptionSyncReadinessState::Received))
    );
    assert_eq!(
        guard.close(&mut readiness),
        Some(snapshot(1, EncryptionSyncReadinessState::Cancelled))
    );
}

#[test]
fn ended_generation_stays_as_it_ended() {
    let mut readiness = EncryptionSyncReadiness::new();
    let (mut guard, _) = readiness.begin();
    guard.mark_failed(&mut readiness);
    assert_eq!(guard.close(&mut readiness), None);
    assert_eq!(readiness.snapshot(), snapshot(1, EncryptionSyncReadinessState::Failed));

    let (mut guard, _) = readiness.begin();
    guard.mark_cancelled(&mut readiness);
    assert_eq!(guard.close(&mut readiness), None);
    assert_eq!(readiness.snapshot(), snapshot(2, EncryptionSyncReadinessState::Cancelled));
}

#[test]
fn superseded_guard_changes_nothing() {
    let mut readiness = EncryptionSyncReadiness::new();
    let (mut old, _) = readiness.begin();
    let (new, _) = readiness.begin();
    assert_eq!(new.generation(), 2);
    assert_eq!(old.mark_received(&mut readiness), None);
    assert_eq!(old.mark_failed(&mut readiness), None);
    assert_eq!(old.close(&mut readiness), None);
    assert_eq!(readiness.snapshot(), snapshot(2, EncryptionSyncReadinessState::Pending));
    assert_eq!(readiness.transition(1, EncryptionSyncReadinessState::Failed), None);
}
