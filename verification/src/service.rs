use vstd::prelude::*;
use crate::entry::CacheError;

verus! {

/// Where the indexing service stands.
#[derive(Clone, Copy, Debug, PartialEq, Eq, Structural)]
pub enum ServicePhase {
    /// Nothing was asked of the service yet.
    Uninitialized,
    /// A snapshot exists and is being loaded.
    Loading,
    /// No snapshot exists; an empty snapshot file is being created.
    Preparing,
    /// The volumes before `next` are indexed; the volume `next` is being walked.
    Indexing { next: usize },
    /// All volumes are indexed; the snapshot is being written.
    Saving,
    /// The cache was loaded from the snapshot. Final.
    Loaded,
    /// The cache was built and the snapshot written. Final.
    Built,
    /// The service gave up with `error`. Final.
    Failed { error: CacheError },
}

/// What the caller reports to the service.
#[derive(Clone, Copy, Debug, PartialEq, Eq, Structural)]
pub enum ServiceEvent {
    /// The snapshot file exists.
    SnapshotFound,
    /// The snapshot file does not exist.
    SnapshotMissing,
    /// The snapshot was loaded into the cache.
    SnapshotLoaded,
    /// The load of the snapshot failed with `error`.
    LoadFailed { error: CacheError },
    /// The empty snapshot file was created.
    SnapshotCreated,
    /// The empty snapshot file could not be created.
    CreateFailed,
    /// The walk of the volume that was asked for is over.
    VolumeIndexed,
    /// The snapshot was written.
    SnapshotSaved,
    /// The writing of the snapshot failed with `error`.
    SaveFailed { error: CacheError },
}

/// What the service asks the caller to do next.
#[derive(Clone, Copy, Debug, PartialEq, Eq, Structural)]
pub enum ServiceAction {
    /// Look whether the snapshot file exists.
    CheckSnapshot,
    /// Read the snapshot file and load it into the cache.
    LoadSnapshot,
    /// Create an empty snapshot file.
    CreateSnapshot,
    /// Walk the volume of this number and add what is found to the cache.
    IndexVolume { volume: usize },
    /// Write the snapshot of the whole cache.
    SaveSnapshot,
    /// Serve queries from the cache: there is nothing more to do.
    Serve,
    /// Give up with `error`.
    Abort { error: CacheError },
}

/// The phase in which a fresh build of `volumes` volumes starts: the walk of the
/// first volume, or the writing of the snapshot where there is no volume.
pub open spec fn build_start(volumes: usize) -> ServicePhase {
    if volumes == 0 {
        ServicePhase::Saving
    } else {
        ServicePhase::Indexing { next: 0 }
    }
}

/// The phase that follows `phase` on `event`, with `volumes` volumes to index.
/// An event that the phase does not wait for changes nothing.
pub open spec fn next_phase(phase: ServicePhase, event: ServiceEvent, volumes: usize)
    -> ServicePhase {
    match (phase, event) {
        (ServicePhase::Uninitialized, ServiceEvent::SnapshotFound) => ServicePhase::Loading,
        (ServicePhase::Uninitialized, ServiceEvent::SnapshotMissing) => ServicePhase::Preparing,
        (ServicePhase::Loading, ServiceEvent::SnapshotLoaded) => ServicePhase::Loaded,
        (ServicePhase::Loading, ServiceEvent::LoadFailed { error }) => build_start(volumes),
        (ServicePhase::Preparing, ServiceEvent::SnapshotCreated) => build_start(volumes),
        (ServicePhase::Preparing, ServiceEvent::CreateFailed) => ServicePhase::Failed {
            error: CacheError::IoFailure,
        },
        (ServicePhase::Indexing { next }, ServiceEvent::VolumeIndexed) => if next + 1 < volumes {
            ServicePhase::Indexing { next: (next + 1) as usize }
        } else {
            ServicePhase::Saving
        },
        (ServicePhase::Saving, ServiceEvent::SnapshotSaved) => ServicePhase::Built,
        (ServicePhase::Saving, ServiceEvent::SaveFailed { error }) => ServicePhase::Failed {
            error,
        },
        _ => phase,
    }
}

/// What the service asks for while it is in `phase`.
pub open spec fn action_in(phase: ServicePhase) -> ServiceAction {
    match phase {
        ServicePhase::Uninitialized => ServiceAction::CheckSnapshot,
        ServicePhase::Loading => ServiceAction::LoadSnapshot,
        ServicePhase::Preparing => ServiceAction::CreateSnapshot,
        ServicePhase::Indexing { next } => ServiceAction::IndexVolume { volume: next },
        ServicePhase::Saving => ServiceAction::SaveSnapshot,
        ServicePhase::Loaded => ServiceAction::Serve,
        ServicePhase::Built => ServiceAction::Serve,
        ServicePhase::Failed { error } => ServiceAction::Abort { error },
    }
}

/// The error of a failed load that `phase` leaves behind on `event`, where there
/// is one.
pub open spec fn load_failure_after(
    failure: Option<CacheError>,
    phase: ServicePhase,
    event: ServiceEvent,
) -> Option<CacheError> {
    match (phase, event) {
        (ServicePhase::Loading, ServiceEvent::LoadFailed { error }) => Some(error),
        _ => failure,
    }
}

/// Whether `phase` can be the phase of a service for `volumes` volumes.
pub open spec fn phase_fits(phase: ServicePhase, volumes: usize) -> bool {
    phase matches ServicePhase::Indexing { next } ==> next < volumes
}

/// The mathematical value of a `VolumeIndexingService`.
pub struct ServiceView {
    pub phase: ServicePhase,
    pub volumes: usize,
    pub load_failure: Option<CacheError>,
}

/// Decides, once for all mounted volumes, whether the cache is loaded from the
/// snapshot or built afresh, and in which order the steps of a build are taken.
/// The caller does what the service asks for and reports how it went.
pub struct VolumeIndexingService {
    phase: ServicePhase,
    volumes: usize,
    load_failure: Option<CacheError>,
}

impl View for VolumeIndexingService {
    type V = ServiceView;

    closed spec fn view(&self) -> ServiceView {
        ServiceView { phase: self.phase, volumes: self.volumes, load_failure: self.load_failure }
    }
}

impl VolumeIndexingService {
    #[verifier::type_invariant]
    spec fn inv(self) -> bool {
        phase_fits(self.phase, self.volumes)
    }

    /// A service for `volumes` mounted volumes, of which nothing was asked yet.
    pub fn new(volumes: usize) -> (service: Self)
        ensures
            service@ == (ServiceView {
                phase: ServicePhase::Uninitialized,
                volumes,
                load_failure: None,
            }),
    {
        VolumeIndexingService { phase: ServicePhase::Uninitialized, volumes, load_failure: None }
    }

    /// Where the service stands.
    pub fn phase(&self) -> (phase: ServicePhase)
        ensures
            phase == self@.phase,
            phase_fits(phase, self@.volumes),
    {
        proof {
            use_type_invariant(self);
        }
        self.phase
    }

    /// The number of volumes that a build indexes.
    pub fn volumes(&self) -> (volumes: usize)
        ensures
            volumes == self@.volumes,
    {
        self.volumes
    }

    /// The error of the load that failed before the build, where one did.
    pub fn load_failure(&self) -> (failure: Option<CacheError>)
        ensures
            failure == self@.load_failure,
    {
        self.load_failure
    }

    /// Whether the service has come to its end, for this process.
    pub fn is_settled(&self) -> (settled: bool)
        ensures
            settled == is_final(self@.phase),
    {
        match self.phase {
            ServicePhase::Loaded => true,
            ServicePhase::Built => true,
            ServicePhase::Failed { .. } => true,
            _ => false,
        }
    }

    /// What the service asks for now.
    pub fn pending(&self) -> (action: ServiceAction)
        ensures
            action == action_in(self@.phase),
            action matches ServiceAction::IndexVolume { volume } ==> volume < self@.volumes,
    {
        proof {
            use_type_invariant(self);
        }
        match self.phase {
            ServicePhase::Uninitialized => ServiceAction::CheckSnapshot,
            ServicePhase::Loading => ServiceAction::LoadSnapshot,
            ServicePhase::Preparing => ServiceAction::CreateSnapshot,
            ServicePhase::Indexing { next } => ServiceAction::IndexVolume { volume: next },
            ServicePhase::Saving => ServiceAction::SaveSnapshot,
            ServicePhase::Loaded => ServiceAction::Serve,
            ServicePhase::Built => ServiceAction::Serve,
            ServicePhase::Failed { error } => ServiceAction::Abort { error },
        }
    }

    fn start_build(&self) -> (phase: ServicePhase)
        ensures
            phase == build_start(self.volumes),
            phase_fits(phase, self.volumes),
    {
        if self.volumes == 0 {
            ServicePhase::Saving
        } else {
            ServicePhase::Indexing { next: 0 }
        }
    }

    /// Takes the report of the caller, moves to the phase that follows, and says
    /// what to do next.
    pub fn step(&mut self, event: ServiceEvent) -> (action: ServiceAction)
        ensures
            final(self)@.phase == next_phase(old(self)@.phase, event, old(self)@.volumes),
            final(self)@.volumes == old(self)@.volumes,
            final(self)@.load_failure == load_failure_after(
                old(self)@.load_failure,
                old(self)@.phase,
                event,
            ),
            action == action_in(final(self)@.phase),
            action matches ServiceAction::IndexVolume { volume } ==> volume < old(self)@.volumes,
    {
        proof {
            use_type_invariant(&*self);
        }
        let phase = match (self.phase, event) {
            (ServicePhase::Uninitialized, ServiceEvent::SnapshotFound) => ServicePhase::Loading,
            (ServicePhase::Uninitialized, ServiceEvent::SnapshotMissing) => ServicePhase::Preparing,
            (ServicePhase::Loading, ServiceEvent::SnapshotLoaded) => ServicePhase::Loaded,
            (ServicePhase::Loading, ServiceEvent::LoadFailed { error }) => self.start_build(),
            (ServicePhase::Preparing, ServiceEvent::SnapshotCreated) => self.start_build(),
            (ServicePhase::Preparing, ServiceEvent::CreateFailed) => ServicePhase::Failed {
                error: CacheError::IoFailure,
            },
            (ServicePhase::Indexing { next }, ServiceEvent::VolumeIndexed) => {
                if next + 1 < self.volumes {
                    ServicePhase::Indexing { next: next + 1 }
                } else {
                    ServicePhase::Saving
                }
            },
            (ServicePhase::Saving, ServiceEvent::SnapshotSaved) => ServicePhase::Built,
            (ServicePhase::Saving, ServiceEvent::SaveFailed { error }) => ServicePhase::Failed {
                error,
            },
            (phase, _) => phase,
        };
        let load_failure = match (self.phase, event) {
            (ServicePhase::Loading, ServiceEvent::LoadFailed { error }) => Some(error),
            _ => self.load_failure,
        };
        *self = VolumeIndexingService { phase, volumes: self.volumes, load_failure };
        self.pending()
    }
}

/// Whether `phase` is one that the service never leaves.
pub open spec fn is_final(phase: ServicePhase) -> bool {
    phase is Loaded || phase is Built || phase is Failed
}

/// The phase that `phase` leads to over a sequence of events.
pub open spec fn phase_after(phase: ServicePhase, events: Seq<ServiceEvent>, volumes: usize)
    -> ServicePhase
    decreases events.len(),
{
    if events.len() == 0 {
        phase
    } else {
        next_phase(phase_after(phase, events.drop_last(), volumes), events.last(), volumes)
    }
}

/// The events of a build that goes well up to the walks of the first `walked`
/// volumes: no snapshot, the empty snapshot file created, and so many walks over.
pub open spec fn build_events(walked: nat) -> Seq<ServiceEvent>
    decreases walked,
{
    if walked == 0 {
        seq![ServiceEvent::SnapshotMissing, ServiceEvent::SnapshotCreated]
    } else {
        build_events((walked - 1) as nat).push(ServiceEvent::VolumeIndexed)
    }
}

/// A loaded or built cache, and a service that gave up, stay as they are: no
/// event brings a walk of any volume again.
pub proof fn lemma_final_phases_stay(phase: ServicePhase, events: Seq<ServiceEvent>, volumes: usize)
    requires
        is_final(phase),
    ensures
        phase_after(phase, events, volumes) == phase,
    decreases events.len(),
{
    if events.len() > 0 {
        lemma_final_phases_stay(phase, events.drop_last(), volumes);
    }
}

/// The service asks for a walk only of a volume that it counts, and an event
/// keeps this so.
pub proof fn lemma_phase_keeps_fitting(phase: ServicePhase, event: ServiceEvent, volumes: usize)
    requires
        phase_fits(phase, volumes),
    ensures
        phase_fits(next_phase(phase, event, volumes), volumes),
{
}

/// Without a snapshot, the service has the empty snapshot file created, then
/// asks for the walk of each volume in turn, and for the writing of the snapshot
/// when, and only when, all of them are walked.
pub proof fn lemma_build_walks_every_volume(volumes: usize, walked: nat)
    requires
        walked <= volumes,
    ensures
        phase_after(ServicePhase::Uninitialized, build_events(walked), volumes) == (if walked
            < volumes {
            ServicePhase::Indexing { next: walked as usize }
        } else {
            ServicePhase::Saving
        }),
        phase_after(
            ServicePhase::Uninitialized,
            seq![ServiceEvent::SnapshotMissing],
            volumes,
        ) == ServicePhase::Preparing,
    decreases walked,
{
    let first = seq![ServiceEvent::SnapshotMissing];
    assert(first.drop_last() =~= Seq::<ServiceEvent>::empty());
    assert(phase_after(ServicePhase::Uninitialized, first.drop_last(), volumes)
        == ServicePhase::Uninitialized);
    assert(first.last() == ServiceEvent::SnapshotMissing);
    if walked == 0 {
        let two = build_events(0);
        assert(two.drop_last() =~= first);
        assert(two.last() == ServiceEvent::SnapshotCreated);
    } else {
        lemma_build_walks_every_volume(volumes, (walked - 1) as nat);
        let events = build_events(walked);
        assert(events.drop_last() =~= build_events((walked - 1) as nat));
        assert(events.last() == ServiceEvent::VolumeIndexed);
    }
}

/// A snapshot that is found and loaded ends the service without any walk; one
/// whose load fails leads to a fresh build.
pub proof fn lemma_snapshot_decides_once(volumes: usize, error: CacheError)
    ensures
        phase_after(
            ServicePhase::Uninitialized,
            seq![ServiceEvent::SnapshotFound, ServiceEvent::SnapshotLoaded],
            volumes,
        ) == ServicePhase::Loaded,
        phase_after(
            ServicePhase::Uninitialized,
            seq![ServiceEvent::SnapshotFound, ServiceEvent::LoadFailed { error }],
            volumes,
        ) == build_start(volumes),
{
    let found = seq![ServiceEvent::SnapshotFound];
    assert(found.drop_last() =~= Seq::<ServiceEvent>::empty());
    assert(phase_after(ServicePhase::Uninitialized, found.drop_last(), volumes)
        == ServicePhase::Uninitialized);
    assert(phase_after(ServicePhase::Uninitialized, found, volumes) == ServicePhase::Loading);
    let loaded = seq![ServiceEvent::SnapshotFound, ServiceEvent::SnapshotLoaded];
    assert(loaded.drop_last() =~= found);
    let failed = seq![ServiceEvent::SnapshotFound, ServiceEvent::LoadFailed { error }];
    assert(failed.drop_last() =~= found);
}

} // verus!
