//! The state behind the status messages of the user interface: progress counters, their
//! debouncing, the peers seen during a backup, and how a peer's ID is shown.
use vstd::prelude::*;
use vstd::string::{StringExecFns, StringSliceAdditionalSpecFns};
use vstd::utf8::{encode_utf8, is_ascii_chars, is_ascii_chars_encode_utf8};

use crate::defaults::SERVER_ADDR;
use crate::file_utils::{hex_encode, hex_lower, lemma_hex_digit_bytes};
use crate::orchestrator::ids_equal;
use crate::text::ascii_to_string;
use crate::types::ClientId;

verus! {

/// A progress update of a backup or restore.
#[derive(Clone, Debug)]
pub struct Progress {
    pub current: u64,
    pub total: u64,
    pub failed: u64,
    pub file: String,
    pub size_estimate: u64,
    pub bytes_on_disk: u64,
    pub bytes_transmitted: u64,
    pub pack_running: bool,
    pub backup_running: bool,
    pub restore_running: bool,
    pub peers: Option<Vec<String>>,
}

/// Progress details of a backup.
#[derive(Clone, Copy, Debug)]
pub struct BackupProgress {}

/// Progress details of a restore.
#[derive(Clone, Copy, Debug)]
pub struct RestoreProgress {}

/// A peer as the user interface shows it.
#[derive(Clone, Debug)]
pub struct Peer {
    pub id: String,
    pub transmitted: i64,
    pub negotiated: i64,
    pub connected: bool,
}

/// The URL of the server endpoint `s`.
pub fn url(s: &str) -> (r: String)
    ensures
        r@ == "http://"@ + SERVER_ADDR@ + "/"@ + s@,
{
    String::from_str("http://").concat(SERVER_ADDR).concat("/").concat(s)
}

/// How a peer's ID is shown: its lowercase hexadecimal text in pairs of digits separated by
/// colons, like an IPv6 address.
pub open spec fn peer_id_display_spec(id: Seq<u8>) -> Seq<char> {
    Seq::new(
        (3 * id.len() - 1) as nat,
        |p: int| if p % 3 == 2 { ':' } else { hex_lower(id)[2 * (p / 3) + p % 3] },
    )
}

/// Shows a peer's ID, see `peer_id_display_spec`.
pub fn peer_id_display(id: &ClientId) -> (r: String)
    ensures
        r@ == peer_id_display_spec(id@),
{
    let h = hex_encode(id);
    let ghost hc = h@;
    proof {
        assert forall|i: int| 0 <= i < hc.len() implies '\0' <= #[trigger] hc[i] <= '\u{7f}' by {
            if i % 2 == 0 {
                lemma_hex_digit_bytes((id@[i / 2] / 16) as nat);
            } else {
                lemma_hex_digit_bytes((id@[i / 2] % 16) as nat);
            }
        }
        assert(is_ascii_chars(hc));
        is_ascii_chars_encode_utf8(hc);
    }
    let hb = h.as_str().as_bytes();
    assert(hb@ == encode_utf8(hc));
    let mut out: Vec<u8> = Vec::new();
    let mut i: usize = 0;
    while i < 64
        invariant
            hb@.len() == 64,
            hc.len() == 64,
            forall|k: int| 0 <= k < 64 ==> hb@[k] == hc[k] as u8 && (hc[k] as u8) < 128,
            i <= 64,
            i % 2 == 0,
            out@.len() == if i == 0 {
                0
            } else {
                3 * (i / 2) - 1
            },
            forall|p: int|
                0 <= p < out@.len() ==> #[trigger] out@[p] == if p % 3 == 2 {
                    58u8
                } else {
                    hc[2 * (p / 3) + p % 3] as u8
                },
        decreases 64 - i,
    {
        if i > 0 {
            out.push(58u8);
        }
        out.push(hb[i]);
        out.push(hb[i + 1]);
        i = i + 2;
    }
    proof {
        assert forall|p: int| 0 <= p < out@.len() implies out@[p] < 128 by {
            if p % 3 != 2 {
                assert(hb@[2 * (p / 3) + p % 3] == hc[2 * (p / 3) + p % 3] as u8);
            }
        }
    }
    let ghost bytes = out@;
    let r = ascii_to_string(out);
    proof {
        assert forall|p: int| 0 <= p < r@.len() implies r@[p] == peer_id_display_spec(id@)[p] by {
            assert(r@[p] == bytes[p] as char);
            if p % 3 != 2 {
                let k = 2 * (p / 3) + p % 3;
                if k % 2 == 0 {
                    lemma_hex_digit_bytes((id@[k / 2] / 16) as nat);
                } else {
                    lemma_hex_digit_bytes((id@[k / 2] % 16) as nat);
                }
            }
        }
        assert(r@ =~= peer_id_display_spec(id@));
    }
    r
}

/// What to send when a file was processed: the peers seen (when enough time passed since
/// they were last sent), and a progress update with the count of processed files (when
/// enough time passed since the last update).
#[derive(Clone, Copy, Debug)]
pub struct NotifyDecision {
    pub send_peers: bool,
    pub send_progress: Option<u64>,
}

/// The state of the status messages: progress counters and what runs.
pub struct Messenger {
    current: u64,
    failed: u64,
    total: u64,
    last_sent: u64,
    last_sent_peers: u64,
    backup_running: bool,
    restore_running: bool,
    pack_running: bool,
    peers: Vec<ClientId>,
}

/// The mathematical content of the status state.
pub struct MessengerModel {
    pub current: u64,
    pub failed: u64,
    pub total: u64,
    pub last_sent: u64,
    pub last_sent_peers: u64,
    pub backup_running: bool,
    pub restore_running: bool,
    pub pack_running: bool,
    pub peers: Set<ClientId>,
}

impl View for Messenger {
    type V = MessengerModel;

    closed spec fn view(&self) -> MessengerModel {
        MessengerModel {
            current: self.current,
            failed: self.failed,
            total: self.total,
            last_sent: self.last_sent,
            last_sent_peers: self.last_sent_peers,
            backup_running: self.backup_running,
            restore_running: self.restore_running,
            pack_running: self.pack_running,
            peers: self.peers@.to_set(),
        }
    }
}

/// Debouncing interval of progress updates, in milliseconds.
pub const PROGRESS_INTERVAL_MS: u64 = 100;

/// Interval of peer list updates, in milliseconds.
pub const PEERS_INTERVAL_MS: u64 = 250;

impl Messenger {
    /// A state with all counters at zero, nothing running and no peers.
    pub fn new() -> (r: Self)
        ensures
            r@ == (MessengerModel {
                current: 0,
                failed: 0,
                total: 0,
                last_sent: 0,
                last_sent_peers: 0,
                backup_running: false,
                restore_running: false,
                pack_running: false,
                peers: Set::empty(),
            }),
    {
        let r = Messenger {
            current: 0,
            failed: 0,
            total: 0,
            last_sent: 0,
            last_sent_peers: 0,
            backup_running: false,
            restore_running: false,
            pack_running: false,
            peers: Vec::new(),
        };
        assert(r.peers@.to_set() =~= Set::<ClientId>::empty());
        r
    }

    /// Adds a peer to the peers seen during the current backup.
    pub fn progress_add_peer(&mut self, id: ClientId)
        ensures
            final(self)@ == (MessengerModel { peers: old(self)@.peers.insert(id), ..old(self)@ }),
    {
        let n = self.peers.len();
        let mut i: usize = 0;
        while i < n
            invariant
                n == self.peers@.len(),
                i <= n,
                forall|j: int| 0 <= j < i ==> self.peers@[j] != id,
            decreases n - i,
        {
            if ids_equal(&self.peers[i], &id) {
                assert(self.peers@.to_set() =~= self.peers@.to_set().insert(id));
                return;
            }
            i = i + 1;
        }
        let ghost before = self.peers@;
        self.peers.push(id);
        proof {
            let a = self.peers@;
            assert forall|x: ClientId| a.contains(x) <==> (before.contains(x) || x == id) by {
                if a.contains(x) {
                    let k = choose|k: int| 0 <= k < a.len() && a[k] == x;
                    if k < before.len() {
                        assert(before[k] == x);
                    }
                }
                if before.contains(x) {
                    let k = choose|k: int| 0 <= k < before.len() && before[k] == x;
                    assert(a[k] == x);
                }
                if x == id {
                    assert(a[before.len() as int] == x);
                }
            }
            assert(a.to_set() =~= before.to_set().insert(id));
        }
    }

    /// The peers seen during the current backup.
    pub fn peers(&self) -> (r: Vec<ClientId>)
        ensures
            r@.to_set() == self@.peers,
    {
        let n = self.peers.len();
        let mut out: Vec<ClientId> = Vec::new();
        let mut i: usize = 0;
        while i < n
            invariant
                n == self.peers@.len(),
                i <= n,
                out@ == self.peers@.subrange(0, i as int),
            decreases n - i,
        {
            out.push(self.peers[i]);
            assert(out@ =~= self.peers@.subrange(0, i + 1));
            i = i + 1;
        }
        assert(out@ =~= self.peers@);
        out
    }

    /// Sets the total number of files to be backed up.
    pub fn progress_set_total(&mut self, total: u64)
        ensures
            final(self)@ == (MessengerModel { total, ..old(self)@ }),
    {
        self.total = total;
    }

    /// Counts a file that failed to be backed up, wrapping around as an atomic counter does.
    pub fn progress_increment_failed(&mut self)
        ensures
            final(self)@ == (MessengerModel {
                failed: ((old(self)@.failed + 1) % 0x1_0000_0000_0000_0000) as u64,
                ..old(self)@
            }),
    {
        self.failed = self.failed.wrapping_add(1);
    }

    /// Counts a processed file at `now` (milliseconds since the Unix epoch) and decides what
    /// to send: the peers at most every `PEERS_INTERVAL_MS`, and a progress update, with
    /// the count before this file, at most every `PROGRESS_INTERVAL_MS`.
    pub fn progress_notify_increment(&mut self, now: u64) -> (r: NotifyDecision)
        requires
            old(self)@.last_sent_peers <= now,
            old(self)@.last_sent <= now,
        ensures
            r.send_peers == (now - old(self)@.last_sent_peers >= PEERS_INTERVAL_MS),
            final(self)@.last_sent_peers == if r.send_peers {
                now
            } else {
                old(self)@.last_sent_peers
            },
            (now - old(self)@.last_sent >= PROGRESS_INTERVAL_MS) ==> r.send_progress == Some(
                old(self)@.current,
            ) && final(self)@.last_sent == now,
            (now - old(self)@.last_sent < PROGRESS_INTERVAL_MS) ==> r.send_progress is None
                && final(self)@.last_sent == old(self)@.last_sent,
            final(self)@.current == (old(self)@.current + 1) % 0x1_0000_0000_0000_0000,
            final(self)@.failed == old(self)@.failed,
            final(self)@.total == old(self)@.total,
            final(self)@.backup_running == old(self)@.backup_running,
            final(self)@.restore_running == old(self)@.restore_running,
            final(self)@.pack_running == old(self)@.pack_running,
            final(self)@.peers == old(self)@.peers,
    {
        let send_peers = now - self.last_sent_peers >= PEERS_INTERVAL_MS;
        if send_peers {
            self.last_sent_peers = now;
        }
        let previous = self.current;
        self.current = self.current.wrapping_add(1);
        if now - self.last_sent >= PROGRESS_INTERVAL_MS {
            self.last_sent = now;
            NotifyDecision { send_peers, send_progress: Some(previous) }
        } else {
            NotifyDecision { send_peers, send_progress: None }
        }
    }

    /// The progress update to send now, given the backup's size estimate and byte counts:
    /// the backup's progress while a backup runs, a restore's progress (with no byte counts)
    /// while a restore runs, otherwise none.
    pub fn progress(&self, size_estimate: u64, bytes_on_disk: u64, bytes_transmitted: u64) -> (r:
        Option<Progress>)
        ensures
            self@.backup_running ==> (r matches Some(p) && p.size_estimate == size_estimate
                && p.bytes_on_disk == bytes_on_disk && p.bytes_transmitted == bytes_transmitted
                && progress_counts(p, self@)),
            !self@.backup_running && self@.restore_running ==> (r matches Some(p) && p.size_estimate
                == 0 && p.bytes_on_disk == 0 && p.bytes_transmitted == 0 && progress_counts(p, self@)),
            !self@.backup_running && !self@.restore_running ==> r is None,
    {
        if self.backup_running {
            Some(self.make_progress(size_estimate, bytes_on_disk, bytes_transmitted))
        } else if self.restore_running {
            Some(self.make_progress(0, 0, 0))
        } else {
            None
        }
    }

    fn make_progress(&self, size_estimate: u64, bytes_on_disk: u64, bytes_transmitted: u64) -> (r: Progress)
        ensures
            r.size_estimate == size_estimate,
            r.bytes_on_disk == bytes_on_disk,
            r.bytes_transmitted == bytes_transmitted,
            progress_counts(r, self@),
    {
        Progress {
            current: self.current,
            total: self.total,
            failed: self.failed,
            file: String::from_str("..."),
            size_estimate,
            bytes_on_disk,
            bytes_transmitted,
            pack_running: self.pack_running,
            backup_running: self.backup_running,
            restore_running: self.restore_running,
            peers: None,
        }
    }

    /// Records that a backup started: it runs and packs.
    pub fn send_backup_started(&mut self)
        ensures
            final(self)@ == (MessengerModel { backup_running: true, pack_running: true, ..old(self)@ }),
    {
        self.backup_running = true;
        self.pack_running = true;
    }

    /// Records that a backup finished: the counters are reset and it no longer runs.
    pub fn send_backup_finished(&mut self)
        ensures
            final(self)@ == (MessengerModel {
                total: 0,
                current: 0,
                failed: 0,
                backup_running: false,
                ..old(self)@
            }),
    {
        self.total = 0;
        self.current = 0;
        self.failed = 0;
        self.backup_running = false;
    }

    /// Sets whether packing runs.
    pub fn set_pack_running(&mut self, running: bool)
        ensures
            final(self)@ == (MessengerModel { pack_running: running, ..old(self)@ }),
    {
        self.pack_running = running;
    }

    /// Records that a restore started.
    pub fn send_restore_started(&mut self)
        ensures
            final(self)@ == (MessengerModel { restore_running: true, ..old(self)@ }),
    {
        self.restore_running = true;
    }

    /// Records that a restore finished.
    pub fn send_restore_finished(&mut self)
        ensures
            final(self)@ == (MessengerModel { restore_running: false, ..old(self)@ }),
    {
        self.restore_running = false;
    }
}

/// The progress update `p` carries the counters and running states of `m`, the file
/// placeholder "..." and no peers.
pub open spec fn progress_counts(p: Progress, m: MessengerModel) -> bool {
    &&& p.current == m.current
    &&& p.total == m.total
    &&& p.failed == m.failed
    &&& p.file@ == "..."@
    &&& p.pack_running == m.pack_running
    &&& p.backup_running == m.backup_running
    &&& p.restore_running == m.restore_running
    &&& p.peers is None
}

} // verus!
