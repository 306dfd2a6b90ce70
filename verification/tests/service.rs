use disk_cache::{
    CacheError, ServiceAction, ServiceEvent, ServicePhase, VolumeIndexingService,
};

#[test]
fn new_service_asks_to_check_the_snapshot() {
    let service = VolumeIndexingService::new(3);
    assert_eq!(service.phase(), ServicePhase::Uninitialized);
    assert_eq!(service.volumes(), 3);
    assert_eq!(service.load_failure(), None);
    assert_eq!(service.pending(), ServiceAction::CheckSnapshot);
    assert!(!service.is_settled());
}

#[test]
fn missing_snapshot_builds_every_volume_and_saves_once() {
    let mut service = VolumeIndexingService::new(3);
    let mut actions = vec![service.pending()];
    actions.push(service.step(ServiceEvent::SnapshotMissing));
    actions.push(service.step(ServiceEvent::SnapshotCreated));
    actions.push(service.step(ServiceEvent::VolumeIndexed));
    actions.push(service.step(ServiceEvent::VolumeIndexed));
    actions.push(service.step(ServiceEvent::VolumeIndexed));
    actions.push(service.step(ServiceEvent::SnapshotSaved));
    assert_eq!(
        actions,
        vec![
            ServiceAction::CheckSnapshot,
            ServiceAction::CreateSnapshot,
            ServiceAction::IndexVolume { volume: 0 },
            ServiceAction::IndexVolume { volume: 1 },
            ServiceAction::IndexVolume { volume: 2 },
            ServiceAction::SaveSnapshot,
            ServiceAction::Serve,
        ]
    );
    let saves = actions.iter().filter(|a| **a == ServiceAction::SaveSnapshot).count();
    assert_eq!(saves, 1);
    assert_eq!(service.phase(), ServicePhase::Built);
    assert!(service.is_settled());
}

#[test]
fn found_snapshot_is_loaded_without_any_walk() {
    let mut service = VolumeIndexingService::new(2);
    assert_eq!(service.step(ServiceEvent::SnapshotFound), ServiceAction::LoadSnapshot);
    assert_eq!(service.phase(), ServicePhase::Loading);
    assert_eq!(service.step(ServiceEvent::SnapshotLoaded), ServiceAction::Serve);
    assert_eq!(service.phase(), ServicePhase::Loaded);
    assert_eq!(service.step(ServiceEvent::SnapshotMissing), ServiceAction::Serve);
    assert_eq!(service.step(ServiceEvent::VolumeIndexed), ServiceAction::Serve);
    assert_eq!(service.phase(), ServicePhase::Loaded);
}

#[test]
fn failed_load_falls_back_to_a_fresh_build() {
    let mut service = VolumeIndexingService::new(1);
    service.step(ServiceEvent::SnapshotFound);
    let action = service.step(ServiceEvent::LoadFailed { error: CacheError::CorruptSnapshot });
    assert_eq!(action, ServiceAction::IndexVolume { volume: 0 });
    assert_eq!(service.load_failure(), Some(CacheError::CorruptSnapshot));
    assert_eq!(service.step(ServiceEvent::VolumeIndexed), ServiceAction::SaveSnapshot);
    assert_eq!(service.step(ServiceEvent::SnapshotSaved), ServiceAction::Serve);
    assert_eq!(service.phase(), ServicePhase::Built);
    assert_eq!(service.load_failure(), Some(CacheError::CorruptSnapshot));
}

#[test]
fn build_without_volumes_saves_at_once() {
    let mut service = VolumeIndexingService::new(0);
    assert_eq!(service.step(ServiceEvent::SnapshotMissing), ServiceAction::CreateSnapshot);
    assert_eq!(service.step(ServiceEvent::SnapshotCreated), ServiceAction::SaveSnapshot);
    assert_eq!(service.step(ServiceEvent::SnapshotSaved), ServiceAction::Serve);
}

#[test]
fn failures_of_the_snapshot_file_end_the_service() {
    let mut service = VolumeIndexingService::new(1);
    service.step(ServiceEvent::SnapshotMissing);
    assert_eq!(
        service.step(ServiceEvent::CreateFailed),
        ServiceAction::Abort { error: CacheError::IoFailure }
    );
    assert_eq!(service.phase(), ServicePhase::Failed { error: CacheError::IoFailure });
    assert!(service.is_settled());
    assert_eq!(
        service.step(ServiceEvent::SnapshotCreated),
        ServiceAction::Abort { error: CacheError::IoFailure }
    );

    let mut service = VolumeIndexingService::new(0);
    service.step(ServiceEvent::SnapshotMissing);
    service.step(ServiceEvent::SnapshotCreated);
    assert_eq!(
        service.step(ServiceEvent::SaveFailed { error: CacheError::SerializationFailure }),
        ServiceAction::Abort { error: CacheError::SerializationFailure }
    );
    assert_eq!(
        service.phase(),
        ServicePhase::Failed { error: CacheError::SerializationFailure }
    );
}

#[test]
fn events_out_of_turn_change_nothing() {
    let mut service = VolumeIndexingService::new(2);
    assert_eq!(service.step(ServiceEvent::VolumeIndexed), ServiceAction::CheckSnapshot);
    assert_eq!(service.step(ServiceEvent::SnapshotSaved), ServiceAction::CheckSnapshot);
    service.step(ServiceEvent::SnapshotMissing);
    assert_eq!(service.step(ServiceEvent::SnapshotFound), ServiceAction::CreateSnapshot);
    assert_eq!(service.step(ServiceEvent::VolumeIndexed), ServiceAction::CreateSnapshot);
    service.step(ServiceEvent::SnapshotCreated);
    assert_eq!(
        service.step(ServiceEvent::SnapshotSaved),
        ServiceAction::IndexVolume { volume: 0 }
    );
    assert_eq!(
        service.step(ServiceEvent::LoadFailed { error: CacheError::IoFailure }),
        ServiceAction::IndexVolume { volume: 0 }
    );
    assert_eq!(service.load_failure(), None);
}
