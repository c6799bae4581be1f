//! Coordination of the backup and restore processes: the shared state of a backup, the
//! decisions of the loop that sends packfiles to peers, and the state of a restore.
use vstd::prelude::*;

use crate::defaults::{
    MAX_PACKFILE_LOCAL_BUFFER_SIZE, PACKFILE_LOCAL_BUFFER_RESUME_THRESHOLD, RESTORE_THROTTLE_DELAY,
    STORAGE_REQUEST_RETRY_DELAY,
};
use crate::types::ClientId;

verus! {

/// Why a backup or restore could not start.
#[derive(Clone, Copy, PartialEq, Eq, Structural, Debug)]
pub enum OrchestratorError {
    /// A backup is already running.
    BackupRunning,
    /// A restore is already running.
    RestoreRunning,
    /// No folder to back up was set.
    BackupPathNotSet,
}

/// Whether a backup may start, once the state was prepared for it: not while a restore runs,
/// and not without a folder to back up.
pub fn backup_start_check(restore_running: bool, backup_path_set: bool) -> (r: Result<
    (),
    OrchestratorError,
>)
    ensures
        restore_running ==> r == Err::<(), OrchestratorError>(OrchestratorError::RestoreRunning),
        !restore_running && !backup_path_set ==> r == Err::<(), OrchestratorError>(
            OrchestratorError::BackupPathNotSet,
        ),
        !restore_running && backup_path_set ==> r is Ok,
{
    if restore_running {
        return Err(OrchestratorError::RestoreRunning);
    }
    if !backup_path_set {
        return Err(OrchestratorError::BackupPathNotSet);
    }
    Ok(())
}

/// The state of the backup process, shared by its moving parts.
pub struct BackupOrchestrator {
    /// Whether the backup is currently paused, for example waiting for storage requests.
    paused: bool,
    /// The total number of bytes that have been written to all packfiles this session.
    packfile_bytes_written: u64,
    /// The total number of bytes of packfiles that have been sent to peers and deleted this session.
    packfile_bytes_sent: u64,
    /// Whether a backup is in progress, to prevent multiple backups from running at the same time.
    backup_running: bool,
    /// Whether all the local files have been packed.
    packing_completed: bool,
    /// The last time that backup storage was requested, in seconds since the Unix epoch.
    storage_request_last_sent: u64,
    /// The last time that backup storage was matched, in seconds since the Unix epoch.
    storage_request_last_matched: u64,
    /// Path to the backup destination (packfile folder).
    destination_path: String,
    /// Backup size estimate (calculated from the input folder).
    size_estimate: u64,
}

/// The mathematical content of the backup state.
pub struct BackupStateModel {
    pub paused: bool,
    pub packfile_bytes_written: u64,
    pub packfile_bytes_sent: u64,
    pub backup_running: bool,
    pub packing_completed: bool,
    pub storage_request_last_sent: u64,
    pub storage_request_last_matched: u64,
    pub destination_path: Seq<char>,
    pub size_estimate: u64,
}

impl View for BackupOrchestrator {
    type V = BackupStateModel;

    closed spec fn view(&self) -> BackupStateModel {
        BackupStateModel {
            paused: self.paused,
            packfile_bytes_written: self.packfile_bytes_written,
            packfile_bytes_sent: self.packfile_bytes_sent,
            backup_running: self.backup_running,
            packing_completed: self.packing_completed,
            storage_request_last_sent: self.storage_request_last_sent,
            storage_request_last_matched: self.storage_request_last_matched,
            destination_path: self.destination_path@,
            size_estimate: self.size_estimate,
        }
    }
}

/// The bytes of packfiles written but not sent yet, or 0 when more were sent than written.
/// The counts are taken as signed 64-bit numbers.
pub open spec fn available_bytes_spec(written: u64, sent: u64) -> u64 {
    let d = (written as i64) - (sent as i64);
    if d > 0 {
        d as u64
    } else {
        0
    }
}

impl BackupOrchestrator {
    /// A fresh state for a backup into `destination_path`.
    pub fn new(destination_path: String) -> (r: Self)
        ensures
            r@ == (BackupStateModel {
                paused: false,
                packfile_bytes_written: 0,
                packfile_bytes_sent: 0,
                backup_running: false,
                packing_completed: false,
                storage_request_last_sent: 0,
                storage_request_last_matched: 0,
                destination_path: destination_path@,
                size_estimate: 0,
            }),
    {
        BackupOrchestrator {
            paused: false,
            packfile_bytes_written: 0,
            packfile_bytes_sent: 0,
            backup_running: false,
            packing_completed: false,
            storage_request_last_sent: 0,
            storage_request_last_matched: 0,
            destination_path,
            size_estimate: 0,
        }
    }

    /// Prepares the state for a new backup: fails when a backup is running, otherwise
    /// clears the pause, the byte counts, the packing state and the size estimate.
    pub fn reset_for_backup(&mut self) -> (r: Result<(), OrchestratorError>)
        ensures
            old(self)@.backup_running ==> r == Err::<(), OrchestratorError>(
                OrchestratorError::BackupRunning,
            ) && final(self)@ == old(self)@,
            !old(self)@.backup_running ==> r is Ok && final(self)@ == (BackupStateModel {
                paused: false,
                packfile_bytes_written: 0,
                packfile_bytes_sent: 0,
                packing_completed: false,
                size_estimate: 0,
                ..old(self)@
            }),
    {
        if self.backup_running {
            return Err(OrchestratorError::BackupRunning);
        }
        self.paused = false;
        self.packfile_bytes_written = 0;
        self.packfile_bytes_sent = 0;
        self.packing_completed = false;
        self.size_estimate = 0;
        Ok(())
    }

    /// Sets the backup as paused.
    pub fn pause(&mut self)
        ensures
            final(self)@ == (BackupStateModel { paused: true, ..old(self)@ }),
    {
        self.paused = true;
    }

    /// Resumes the backup.
    pub fn resume(&mut self)
        ensures
            final(self)@ == (BackupStateModel { paused: false, ..old(self)@ }),
    {
        self.paused = false;
    }

    /// Whether the backup may continue, that is, it is not paused.
    pub fn should_continue(&self) -> (r: bool)
        ensures
            r == !self@.paused,
    {
        !self.paused
    }

    /// Sets the packfile written size.
    pub fn update_packfile_bytes_written(&mut self, bytes: u64)
        ensures
            final(self)@ == (BackupStateModel { packfile_bytes_written: bytes, ..old(self)@ }),
    {
        self.packfile_bytes_written = bytes;
    }

    /// The packfile written size.
    pub fn get_packfile_bytes_written(&self) -> (r: u64)
        ensures
            r == self@.packfile_bytes_written,
    {
        self.packfile_bytes_written
    }

    /// The packfile sent size.
    pub fn get_packfile_bytes_sent(&self) -> (r: u64)
        ensures
            r == self@.packfile_bytes_sent,
    {
        self.packfile_bytes_sent
    }

    /// Increments the packfile sent size, wrapping around as an atomic counter does.
    pub fn increment_packfile_bytes_sent(&mut self, bytes: u64)
        ensures
            final(self)@ == (BackupStateModel {
                packfile_bytes_sent: ((old(self)@.packfile_bytes_sent + bytes) % 0x1_0000_0000_0000_0000) as u64,
                ..old(self)@
            }),
    {
        self.packfile_bytes_sent = self.packfile_bytes_sent.wrapping_add(bytes);
    }

    /// The bytes of packfiles written but not sent yet, as an estimate of what is available
    /// for sending.
    pub fn available_packfile_bytes(&self) -> (r: u64)
        requires
            i64::MIN <= (self@.packfile_bytes_written as i64) - (self@.packfile_bytes_sent as i64)
                <= i64::MAX,
        ensures
            r == available_bytes_spec(self@.packfile_bytes_written, self@.packfile_bytes_sent),
    {
        let written = self.packfile_bytes_written as i64;
        let sent = self.packfile_bytes_sent as i64;
        let d = written - sent;
        if d > 0 {
            d as u64
        } else {
            0
        }
    }

    /// Whether all local files have been packed.
    pub fn is_packing_completed(&self) -> (r: bool)
        ensures
            r == self@.packing_completed,
    {
        self.packing_completed
    }

    /// Sets the state of packing to completed.
    pub fn set_packing_completed(&mut self)
        ensures
            final(self)@ == (BackupStateModel { packing_completed: true, ..old(self)@ }),
    {
        self.packing_completed = true;
    }

    /// The last time that backup storage was requested.
    pub fn get_storage_request_last_sent(&self) -> (r: u64)
        ensures
            r == self@.storage_request_last_sent,
    {
        self.storage_request_last_sent
    }

    /// Records `now` as the last time that backup storage was requested.
    pub fn update_storage_request_last_sent(&mut self, now: u64)
        ensures
            final(self)@ == (BackupStateModel { storage_request_last_sent: now, ..old(self)@ }),
    {
        self.storage_request_last_sent = now;
    }

    /// Sets the backup as started.
    pub fn set_backup_started(&mut self)
        ensures
            final(self)@ == (BackupStateModel { backup_running: true, ..old(self)@ }),
    {
        self.backup_running = true;
    }

    /// Sets the backup as finished.
    pub fn set_backup_finished(&mut self)
        ensures
            final(self)@ == (BackupStateModel { backup_running: false, ..old(self)@ }),
    {
        self.backup_running = false;
    }

    /// Whether a backup is running.
    pub fn is_backup_running(&self) -> (r: bool)
        ensures
            r == self@.backup_running,
    {
        self.backup_running
    }

    /// The last time that backup storage was matched.
    pub fn get_storage_request_last_matched(&self) -> (r: u64)
        ensures
            r == self@.storage_request_last_matched,
    {
        self.storage_request_last_matched
    }

    /// Records `now` as the last time that backup storage was matched.
    pub fn update_storage_request_last_matched(&mut self, now: u64)
        ensures
            final(self)@ == (BackupStateModel { storage_request_last_matched: now, ..old(self)@ }),
    {
        self.storage_request_last_matched = now;
    }

    /// Sets the backup size estimate.
    pub fn set_size_estimate(&mut self, size: u64)
        ensures
            final(self)@ == (BackupStateModel { size_estimate: size, ..old(self)@ }),
    {
        self.size_estimate = size;
    }

    /// The backup size estimate.
    pub fn get_size_estimate(&self) -> (r: u64)
        ensures
            r == self@.size_estimate,
    {
        self.size_estimate
    }

    /// The path to the backup destination.
    pub fn destination_path(&self) -> (r: &String)
        ensures
            r@ == self@.destination_path,
    {
        &self.destination_path
    }
}

/// The size of a storage request: the backup size estimate.
pub fn estimate_storage_request_size(orchestrator: &BackupOrchestrator) -> (r: u64)
    ensures
        r == orchestrator@.size_estimate,
{
    orchestrator.get_size_estimate()
}

/// The size estimate of a backup whose data takes `new_size` bytes, given the difference
/// from the last backup of the same path, if there is one: no difference gives 0, a growth
/// gives the growth, and a shrink or no previous backup gives the whole new size.
pub open spec fn size_estimate_spec(new_size: u64, difference: Option<i64>) -> u64 {
    match difference {
        Some(d) => if d == 0 {
            0
        } else if d < 0 {
            new_size
        } else {
            d as u64
        },
        None => new_size,
    }
}

/// The size estimate of a backup, see `size_estimate_spec`.
pub fn size_estimate_from_difference(new_size: u64, difference: Option<i64>) -> (r: u64)
    ensures
        r == size_estimate_spec(new_size, difference),
{
    match difference {
        Some(d) => if d == 0 {
            0
        } else if d < 0 {
            new_size
        } else {
            d as u64
        },
        None => new_size,
    }
}

/// Whether a new storage request is due at `now`, the last one having been sent at
/// `last_sent`: more than the retry delay has passed.
pub fn storage_request_due(now: u64, last_sent: u64) -> (r: bool)
    requires
        last_sent <= now,
    ensures
        r == (now - last_sent > STORAGE_REQUEST_RETRY_DELAY),
{
    now - last_sent > STORAGE_REQUEST_RETRY_DELAY
}

/// The first of `peers` (ordered by preference) that has an active session in `active`.
pub fn pick_peer_with_session(peers: &Vec<ClientId>, active: &Vec<ClientId>) -> (r: Option<usize>)
    ensures
        r matches Some(i) ==> i < peers@.len() && active@.contains(peers@[i as int]) && forall|j: int|
            0 <= j < i ==> !active@.contains(#[trigger] peers@[j]),
        r is None ==> forall|j: int| 0 <= j < peers@.len() ==> !active@.contains(#[trigger] peers@[j]),
{
    let n = peers.len();
    let mut i: usize = 0;
    while i < n
        invariant
            n == peers@.len(),
            i <= n,
            forall|j: int| 0 <= j < i ==> !active@.contains(#[trigger] peers@[j]),
        decreases n - i,
    {
        let m = active.len();
        let mut k: usize = 0;
        while k < m
            invariant
                m == active@.len(),
                k <= m,
                i < n,
                n == peers@.len(),
                forall|j: int| 0 <= j < i ==> !active@.contains(#[trigger] peers@[j]),
                forall|l: int| 0 <= l < k ==> active@[l] != peers@[i as int],
            decreases m - k,
        {
            if ids_equal(&active[k], &peers[i]) {
                assert(active@[k as int] == peers@[i as int]);
                assert(active@.contains(peers@[i as int]));
                return Some(i);
            }
            k = k + 1;
        }
        assert(!active@.contains(peers@[i as int]));
        i = i + 1;
    }
    None
}

/// Whether two client IDs are equal.
pub fn ids_equal(a: &ClientId, b: &ClientId) -> (r: bool)
    ensures
        r == (*a == *b),
{
    let mut i: usize = 0;
    while i < 32
        invariant
            i <= 32,
            forall|j: int| 0 <= j < i ==> a@[j] == b@[j],
        decreases 32 - i,
    {
        if a[i] != b[i] {
            return false;
        }
        i = i + 1;
    }
    assert(*a =~= *b);
    true
}

/// The state of the loop that sends packfiles and then index files to peers.
pub struct SendSession {
    /// The written byte count when packfiles were last sent.
    pub last_written: u64,
    /// The time of the last storage match when packfiles were last sent.
    pub last_matched: u64,
    /// Whether all packfiles have been sent.
    pub packfiles_done: bool,
    /// Whether all index files have been sent.
    pub index_done: bool,
}

impl SendSession {
    /// A session that starts with the written byte count and last storage match time of the
    /// backup.
    pub fn new(last_written: u64, last_matched: u64) -> (r: Self)
        ensures
            r.last_written == last_written,
            r.last_matched == last_matched,
            !r.packfiles_done,
            !r.index_done,
    {
        SendSession { last_written, last_matched, packfiles_done: false, index_done: false }
    }

    /// Whether the local buffer of packfiles is too large, so the backup should pause.
    pub fn should_pause(available: u64) -> (r: bool)
        ensures
            r == (available > MAX_PACKFILE_LOCAL_BUFFER_SIZE),
    {
        available > MAX_PACKFILE_LOCAL_BUFFER_SIZE
    }

    /// Whether packfiles should be sent now: more were written or storage was matched since
    /// the last send, or packing is complete, and not all packfiles were sent yet.
    pub fn should_send_packfiles(&self, current_written: u64, current_matched: u64, packing_completed: bool) -> (r:
        bool)
        ensures
            r == (((current_written > self.last_written || current_matched > self.last_matched)
                || packing_completed) && !self.packfiles_done),
    {
        ((current_written > self.last_written || current_matched > self.last_matched)
            || packing_completed) && !self.packfiles_done
    }

    /// Records that the packfiles present were sent.
    pub fn packfiles_sent(&mut self, current_written: u64, current_matched: u64)
        ensures
            final(self).last_written == current_written,
            final(self).last_matched == current_matched,
            final(self).packfiles_done == old(self).packfiles_done,
            final(self).index_done == old(self).index_done,
    {
        self.last_written = current_written;
        self.last_matched = current_matched;
    }

    /// Whether a paused backup should resume: the local buffer has more room than the
    /// resume threshold.
    pub fn should_resume(available: u64, paused: bool) -> (r: bool)
        requires
            available <= MAX_PACKFILE_LOCAL_BUFFER_SIZE,
        ensures
            r == ((MAX_PACKFILE_LOCAL_BUFFER_SIZE - available > PACKFILE_LOCAL_BUFFER_RESUME_THRESHOLD)
                && paused),
    {
        (MAX_PACKFILE_LOCAL_BUFFER_SIZE - available > PACKFILE_LOCAL_BUFFER_RESUME_THRESHOLD) && paused
    }

    /// Records whether all packfiles are sent: packing is complete and the packfile folder
    /// is empty.
    pub fn check_packfiles_done(&mut self, packing_completed: bool, pack_folder_size: u64)
        ensures
            final(self).packfiles_done == (old(self).packfiles_done || (packing_completed
                && pack_folder_size == 0)),
            final(self).last_written == old(self).last_written,
            final(self).last_matched == old(self).last_matched,
            final(self).index_done == old(self).index_done,
    {
        if packing_completed && pack_folder_size == 0 {
            self.packfiles_done = true;
        }
    }

    /// Whether the index files should be sent now: all packfiles were sent, the index files
    /// not yet.
    pub fn should_send_index(&self) -> (r: bool)
        ensures
            r == (self.packfiles_done && !self.index_done),
    {
        self.packfiles_done && !self.index_done
    }

    /// Records that the index files were sent.
    pub fn index_sent(&mut self)
        requires
            old(self).packfiles_done,
        ensures
            final(self).index_done,
            final(self).packfiles_done,
            final(self).last_written == old(self).last_written,
            final(self).last_matched == old(self).last_matched,
    {
        self.index_done = true;
    }

    /// Whether sending is finished: packfiles and index files were all sent.
    pub fn is_finished(&self) -> (r: bool)
        ensures
            r == (self.packfiles_done && self.index_done),
    {
        self.packfiles_done && self.index_done
    }
}

/// Whether a restore request from a peer at `now` is rate limited, its last request having
/// been at `last_request`; the error holds the seconds to wait.
pub fn check_restore_throttle(last_request: Option<i64>, now: i64) -> (r: Result<(), i64>)
    requires
        now - RESTORE_THROTTLE_DELAY >= i64::MIN,
        last_request matches Some(t) ==> i64::MIN <= now - t <= i64::MAX && i64::MIN
            <= RESTORE_THROTTLE_DELAY - (now - t) <= i64::MAX,
    ensures
        match last_request {
            Some(t) => if t > now - RESTORE_THROTTLE_DELAY {
                r == Err::<(), i64>((RESTORE_THROTTLE_DELAY - (now - t)) as i64)
            } else {
                r is Ok
            },
            None => r is Ok,
        },
{
    match last_request {
        Some(t) => {
            let remaining = (RESTORE_THROTTLE_DELAY as i64) - (now - t);
            if t > now - (RESTORE_THROTTLE_DELAY as i64) {
                Err(remaining)
            } else {
                Ok(())
            }
        },
        None => Ok(()),
    }
}

/// The state of a restore: whether it runs, and which peers have sent back their data.
pub struct RestoreOrchestrator {
    restore_running: bool,
    peer_restore_status: Vec<(ClientId, bool)>,
    /// The `add_peer` (`false`) and `complete_peer` (`true`) calls since the last reset.
    calls: Ghost<Seq<(ClientId, bool)>>,
}

/// The peers `s` have distinct IDs.
pub open spec fn peers_distinct(s: Seq<(ClientId, bool)>) -> bool {
    forall|i: int, j: int| 0 <= i < j < s.len() ==> (#[trigger] s[i]).0 != (#[trigger] s[j]).0
}

/// The completion of each peer, by ID.
pub open spec fn status_map(s: Seq<(ClientId, bool)>) -> Map<ClientId, bool>
    decreases s.len(),
{
    if s.len() == 0 {
        Map::empty()
    } else {
        status_map(s.drop_last()).insert(s.last().0, s.last().1)
    }
}

impl RestoreOrchestrator {
    #[verifier::type_invariant]
    spec fn inv(self) -> bool {
        &&& peers_distinct(self.peer_restore_status@)
        &&& status_map(self.peer_restore_status@) == status_map(self.calls@)
    }

    /// Whether a restore runs.
    pub closed spec fn spec_running(&self) -> bool {
        self.restore_running
    }

    /// The completion of each peer that was added, by ID.
    pub closed spec fn spec_status(&self) -> Map<ClientId, bool> {
        status_map(self.peer_restore_status@)
    }

    /// The `add_peer` calls, as `(peer, false)`, and `complete_peer` calls, as
    /// `(peer, true)`, made since the state was made or last reset, oldest first.
    pub closed spec fn spec_calls(&self) -> Seq<(ClientId, bool)> {
        self.calls@
    }

    /// A state with no restore running and no peers.
    pub fn new() -> (r: Self)
        ensures
            !r.spec_running(),
            r.spec_status() == Map::<ClientId, bool>::empty(),
            r.spec_calls() == Seq::<(ClientId, bool)>::empty(),
    {
        RestoreOrchestrator {
            restore_running: false,
            peer_restore_status: Vec::new(),
            calls: Ghost(Seq::empty()),
        }
    }

    /// Prepares for a new restore: fails when one is running, otherwise forgets the peers.
    pub fn reset_for_restore(&mut self) -> (r: Result<(), OrchestratorError>)
        ensures
            old(self).spec_running() ==> r == Err::<(), OrchestratorError>(
                OrchestratorError::RestoreRunning,
            ) && final(self).spec_status() == old(self).spec_status() && final(self).spec_running(),
            !old(self).spec_running() ==> r is Ok && final(self).spec_status() == Map::<
                ClientId,
                bool,
            >::empty() && !final(self).spec_running() && final(self).spec_calls() == Seq::<
                (ClientId, bool),
            >::empty(),
            old(self).spec_running() ==> final(self).spec_calls() == old(self).spec_calls(),
    {
        if self.restore_running {
            return Err(OrchestratorError::RestoreRunning);
        }
        *self = RestoreOrchestrator::new();
        Ok(())
    }

    /// Sets the restore as started, unless a backup is running.
    pub fn set_started(&mut self, backup_running: bool) -> (r: Result<(), OrchestratorError>)
        ensures
            backup_running ==> r == Err::<(), OrchestratorError>(OrchestratorError::BackupRunning)
                && final(self).spec_running() == old(self).spec_running(),
            !backup_running ==> r is Ok && final(self).spec_running(),
            final(self).spec_status() == old(self).spec_status(),
            final(self).spec_calls() == old(self).spec_calls(),
    {
        proof {
            use_type_invariant(&*self);
        }
        if backup_running {
            return Err(OrchestratorError::BackupRunning);
        }
        self.restore_running = true;
        Ok(())
    }

    /// Sets the restore as finished.
    pub fn set_finished(&mut self)
        ensures
            !final(self).spec_running(),
            final(self).spec_status() == old(self).spec_status(),
            final(self).spec_calls() == old(self).spec_calls(),
    {
        proof {
            use_type_invariant(&*self);
        }
        self.restore_running = false;
    }

    /// Whether a restore runs.
    pub fn is_running(&self) -> (r: bool)
        ensures
            r == self.spec_running(),
    {
        self.restore_running
    }

    /// Sets the completion of a peer, recording the call.
    fn set_peer(&mut self, client_id: ClientId, done: bool)
        ensures
            final(self).spec_status() == old(self).spec_status().insert(client_id, done),
            final(self).spec_running() == old(self).spec_running(),
            final(self).spec_calls() == old(self).spec_calls().push((client_id, done)),
    {
        proof {
            use_type_invariant(&*self);
        }
        let mut taken = RestoreOrchestrator::new();
        std::mem::swap(&mut taken, self);
        proof {
            use_type_invariant(&taken);
        }
        let RestoreOrchestrator { restore_running, peer_restore_status: mut v, calls } = taken;
        let ghost old_v = v@;
        let ghost new_calls = calls@.push((client_id, done));
        assert(new_calls.drop_last() =~= calls@);
        assert(status_map(new_calls) == status_map(calls@).insert(client_id, done));
        let n = v.len();
        let mut i: usize = 0;
        while i < n
            invariant
                n == v@.len(),
                v@ == old_v,
                peers_distinct(old_v),
                old_v == old(self).peer_restore_status@,
                restore_running == old(self).restore_running,
                status_map(old_v) == status_map(calls@),
                status_map(new_calls) == status_map(calls@).insert(client_id, done),
                new_calls == old(self).calls@.push((client_id, done)),
                i <= n,
                forall|j: int| 0 <= j < i ==> v@[j].0 != client_id,
            decreases n - i,
        {
            if ids_equal(&v[i].0, &client_id) {
                v.set(i, (client_id, done));
                proof {
                    lemma_status_map_update(old_v, i as int, client_id, done);
                    assert forall|a: int, b: int| 0 <= a < b < v@.len() implies (#[trigger] v@[a]).0
                        != (#[trigger] v@[b]).0 by {
                        assert(v@[a].0 == old_v[a].0);
                        assert(v@[b].0 == old_v[b].0);
                    }
                }
                *self = RestoreOrchestrator {
                    restore_running,
                    peer_restore_status: v,
                    calls: Ghost(new_calls),
                };
                return;
            }
            i = i + 1;
        }
        v.push((client_id, done));
        proof {
            assert(v@.drop_last() =~= old_v);
            assert forall|a: int, b: int| 0 <= a < b < v@.len() implies (#[trigger] v@[a]).0 != (
            #[trigger] v@[b]).0 by {
                if b == v@.len() - 1 {
                    assert(old_v[a].0 != client_id);
                } else {
                    assert(v@[a] == old_v[a]);
                    assert(v@[b] == old_v[b]);
                }
            }
        }
        *self = RestoreOrchestrator { restore_running, peer_restore_status: v, calls: Ghost(new_calls) };
    }

    /// Adds a peer that is to send back its data.
    pub fn add_peer(&mut self, client_id: ClientId)
        ensures
            final(self).spec_status() == old(self).spec_status().insert(client_id, false),
            final(self).spec_running() == old(self).spec_running(),
            final(self).spec_calls() == old(self).spec_calls().push((client_id, false)),
    {
        self.set_peer(client_id, false);
    }

    /// Marks a peer as completed.
    pub fn complete_peer(&mut self, client_id: ClientId)
        ensures
            final(self).spec_status() == old(self).spec_status().insert(client_id, true),
            final(self).spec_running() == old(self).spec_running(),
            final(self).spec_calls() == old(self).spec_calls().push((client_id, true)),
    {
        self.set_peer(client_id, true);
    }

    /// Whether all peers have completed.
    pub fn all_peers_completed(&self) -> (r: bool)
        ensures
            r == forall|k: ClientId| #[trigger] self.spec_status().contains_key(k) ==> self.spec_status()[k],
            r == forall|p: ClientId|
                #[trigger] last_call_on(self.spec_calls(), p) is Some ==> last_call_on(
                    self.spec_calls(),
                    p,
                ) == Some(true),
    {
        proof {
            use_type_invariant(self);
            lemma_status_follows_last_call(self.calls@);
        }
        let ghost s = self.peer_restore_status@;
        let n = self.peer_restore_status.len();
        let mut i: usize = 0;
        while i < n
            invariant
                n == s.len(),
                s == self.peer_restore_status@,
                peers_distinct(s),
                status_map(s) == status_map(self.calls@),
                i <= n,
                forall|j: int| 0 <= j < i ==> (#[trigger] s[j]).1,
            decreases n - i,
        {
            if !self.peer_restore_status[i].1 {
                proof {
                    lemma_status_map_lookup(s, i as int);
                    assert(self.spec_status().contains_key(s[i as int].0));
                    assert(!self.spec_status()[s[i as int].0]);
                    assert(status_map(self.calls@).contains_key(s[i as int].0));
                    assert(!(forall|k: ClientId| #[trigger] status_map(self.calls@).contains_key(k)
                        ==> status_map(self.calls@)[k]));
                    lemma_status_follows_last_call(self.calls@);
                }
                return false;
            }
            i = i + 1;
        }
        proof {
            assert forall|k: ClientId| #[trigger] status_map(s).contains_key(k) implies status_map(s)[k] by {
                lemma_status_map_member(s, k);
                let j = choose|j: int| 0 <= j < s.len() && s[j].0 == k && status_map(s)[k] == s[j].1;
                assert(s[j].1);
            }
        }
        true
    }
}

proof fn lemma_status_map_lookup(s: Seq<(ClientId, bool)>, i: int)
    requires
        peers_distinct(s),
        0 <= i < s.len(),
    ensures
        status_map(s).contains_key(s[i].0),
        status_map(s)[s[i].0] == s[i].1,
    decreases s.len(),
{
    let t = s.drop_last();
    assert forall|a: int, b: int| 0 <= a < b < t.len() implies (#[trigger] t[a]).0 != (
    #[trigger] t[b]).0 by {
        assert(t[a] == s[a]);
        assert(t[b] == s[b]);
    }
    if i < s.len() - 1 {
        lemma_status_map_lookup(t, i);
        assert(t[i] == s[i]);
        assert(s.last() == s[s.len() - 1]);
    }
}

proof fn lemma_status_map_member(s: Seq<(ClientId, bool)>, k: ClientId)
    requires
        status_map(s).contains_key(k),
    ensures
        exists|j: int| 0 <= j < s.len() && s[j].0 == k && status_map(s)[k] == s[j].1,
    decreases s.len(),
{
    if s.len() > 0 {
        let t = s.drop_last();
        if s.last().0 == k {
            assert(s[s.len() - 1].0 == k);
        } else {
            lemma_status_map_member(t, k);
            let j = choose|j: int| 0 <= j < t.len() && t[j].0 == k && status_map(t)[k] == t[j].1;
            assert(s[j] == t[j]);
        }
    }
}

proof fn lemma_status_map_update(s: Seq<(ClientId, bool)>, i: int, k: ClientId, v: bool)
    requires
        peers_distinct(s),
        0 <= i < s.len(),
        s[i].0 == k,
    ensures
        status_map(s.update(i, (k, v))) == status_map(s).insert(k, v),
    decreases s.len(),
{
    let u = s.update(i, (k, v));
    let t = s.drop_last();
    assert forall|a: int, b: int| 0 <= a < b < t.len() implies (#[trigger] t[a]).0 != (
    #[trigger] t[b]).0 by {
        assert(t[a] == s[a]);
        assert(t[b] == s[b]);
    }
    if i == s.len() - 1 {
        assert(u.drop_last() =~= t);
        assert forall|j: int| 0 <= j < t.len() implies (#[trigger] t[j]).0 != k by {
            assert(s[j].0 != s[i].0);
        }
        lemma_status_map_absent(t, k);
        assert(status_map(u) =~= status_map(s).insert(k, v));
    } else {
        lemma_status_map_update(t, i, k, v);
        assert(u.drop_last() =~= t.update(i, (k, v)));
        assert(u.last() == s.last());
        assert(s.last().0 != k) by {
            assert(s[s.len() - 1].0 != s[i].0);
        }
        assert(status_map(u) =~= status_map(s).insert(k, v));
    }
}

proof fn lemma_status_map_absent(s: Seq<(ClientId, bool)>, k: ClientId)
    requires
        forall|j: int| 0 <= j < s.len() ==> (#[trigger] s[j]).0 != k,
    ensures
        !status_map(s).contains_key(k),
    decreases s.len(),
{
    if s.len() > 0 {
        let t = s.drop_last();
        assert forall|j: int| 0 <= j < t.len() implies (#[trigger] t[j]).0 != k by {
            assert(t[j] == s[j]);
        }
        lemma_status_map_absent(t, k);
        assert(s.last() == s[s.len() - 1]);
    }
}

/// The last of the calls `calls` that names the peer `p`: `(p, false)` for adding it,
/// `(p, true)` for marking it completed. `None` when no call names it.
pub open spec fn last_call_on(calls: Seq<(ClientId, bool)>, p: ClientId) -> Option<bool>
    decreases calls.len(),
{
    if calls.len() == 0 {
        None
    } else if calls.last().0 == p {
        Some(calls.last().1)
    } else {
        last_call_on(calls.drop_last(), p)
    }
}

/// After a restore is reset, `add_peer` and `complete_peer` insert `(p, false)` and
/// `(p, true)` into the status, so the status after the calls `calls` is `status_map(calls)`.
/// A peer has a status exactly when some call named it, and its status is that of the last
/// call naming it; all peers are completed exactly when the last call on every named peer
/// marked it completed (so, in particular, when no peer was named).
pub proof fn lemma_status_follows_last_call(calls: Seq<(ClientId, bool)>)
    ensures
        forall|p: ClientId| #[trigger] status_map(calls).contains_key(p) <==> last_call_on(calls, p) is Some,
        forall|p: ClientId| #[trigger] status_map(calls).contains_key(p) ==> Some(status_map(calls)[p])
            == last_call_on(calls, p),
        (forall|k: ClientId| #[trigger] status_map(calls).contains_key(k) ==> status_map(calls)[k]) <==> (
        forall|p: ClientId| #[trigger] last_call_on(calls, p) is Some ==> last_call_on(calls, p) == Some(
            true,
        )),
    decreases calls.len(),
{
    if calls.len() > 0 {
        lemma_status_follows_last_call(calls.drop_last());
    }
    let m = status_map(calls);
    assert forall|p: ClientId| #[trigger] m.contains_key(p) implies Some(m[p]) == last_call_on(calls, p)
        by {
        if calls.len() > 0 {
            let prev = status_map(calls.drop_last());
            if calls.last().0 != p {
                assert(prev.contains_key(p) == m.contains_key(p));
            }
        }
    }
    assert forall|p: ClientId| #[trigger] m.contains_key(p) <==> last_call_on(calls, p) is Some by {
        if calls.len() > 0 {
            let prev = status_map(calls.drop_last());
            if calls.last().0 != p {
                assert(prev.contains_key(p) == m.contains_key(p));
            }
        }
    }
    if forall|k: ClientId| #[trigger] m.contains_key(k) ==> m[k] {
        assert forall|p: ClientId| #[trigger] last_call_on(calls, p) is Some implies last_call_on(
            calls,
            p,
        ) == Some(true) by {
            assert(m.contains_key(p));
        }
    }
    if forall|p: ClientId| #[trigger] last_call_on(calls, p) is Some ==> last_call_on(calls, p) == Some(
        true,
    ) {
        assert forall|k: ClientId| #[trigger] m.contains_key(k) implies m[k] by {
            assert(last_call_on(calls, k) is Some);
        }
    }
}

} // verus!
