use backuwup::config::{generate_obfuscation_key, is_peer_allowed_to_send_data, obfuscation_key_bytes, parse_obfuscation_key, use_tls_setting, EventType, ObfuscationKeyError, PeerInfo};
use backuwup::file_utils::{get_index_path, get_packfile_path, index_file_name, packfile_dir_name, packfile_name, parse_index_name, parse_index_path_into_id, parse_packfile_name, parse_packfile_path_into_id, PathError};
use backuwup::key_manager::KeyManager;
use backuwup::net::{auth_header_value, connect_action, token_action, ConnectAction, ConnectOutcome, TokenAction};
use backuwup::obfuscation::{obfuscate_data, obfuscate_data_impl};
use backuwup::orchestrator::{check_restore_throttle, estimate_storage_request_size, pick_peer_with_session, size_estimate_from_difference, storage_request_due, BackupOrchestrator, OrchestratorError, RestoreOrchestrator, SendSession};
use backuwup::auth::{check_token, ClientAuthManager};
use backuwup::server::{parse_session_token, BackupMatched, Fulfillment, FulfillStart, HandlerError, MatchStep, Request, TokenError, ErrorType};
use backuwup::text::format_padded10;
use backuwup::transport::{Header, ReplayGuard, SendCounter};
use backuwup::ui::{peer_id_display, url, Messenger};
use std::path::Path;
use backuwup::connection_requests::{check_initiation, validate_encapsulated_signature, ConnectionRequestError, InitiationError, P2PConnectionManager, RequestType};
use backuwup::transport::{parse_incoming_ack, validate_incoming_message, MessageError};

#[test]
fn packfile_names_roundtrip() {
    let id = [0xab, 0x01, 2, 3, 4, 5, 6, 7, 8, 9, 10, 0xff];
    assert_eq!(packfile_name(&id), "ab0102030405060708090aff");
    assert_eq!(packfile_dir_name(&id), "ab");
    assert_eq!(parse_packfile_name("ab0102030405060708090aff").unwrap(), id);
    assert_eq!(parse_packfile_name("AB0102030405060708090AFF").unwrap(), id);
    assert_eq!(parse_packfile_name("zz").unwrap_err(), PathError::InvalidHex);
    assert_eq!(parse_packfile_name("abc").unwrap_err(), PathError::InvalidHex);
    assert_eq!(parse_packfile_name("abcd").unwrap_err(), PathError::InvalidLength);
}

#[test]
fn paths() {
    let id = [1u8; 12];
    let p = get_packfile_path(Path::new("/data"), id);
    assert_eq!(p, Path::new("/data/pack/01/010101010101010101010101"));
    assert_eq!(parse_packfile_path_into_id(&p).unwrap(), id);
    let i = get_index_path(Path::new("/data"), 42);
    assert_eq!(i, Path::new("/data/index/0000000042"));
    assert_eq!(parse_index_path_into_id(&i).unwrap(), 42);
    assert_eq!(parse_index_path_into_id(Path::new("/")).unwrap_err(), PathError::NoFileName);
    assert_eq!(parse_index_path_into_id(Path::new("/x/abc")).unwrap_err(), PathError::InvalidNumber);
    assert_eq!(parse_index_name("17").unwrap(), 17);
    assert_eq!(index_file_name(17), "0000000017");
    assert_eq!(format_padded10(u32::MAX), "4294967295");
}

#[test]
fn obfuscation() {
    let mut data = [0x42u8, 0x00, 0xff];
    assert_eq!(obfuscate_data(&mut data), &[0x00, 0x42, 0xbd]);
    let mut d2 = [1u8, 2, 3, 4, 5];
    assert_eq!(obfuscate_data_impl(&mut d2, [1, 2, 3, 4]), &[0, 0, 0, 0, 4]);
}

#[test]
fn keys_and_signatures() {
    let a = KeyManager::from_secret([3u8; 32]).unwrap();
    let b = KeyManager::from_secret([3u8; 32]).unwrap();
    assert_eq!(a.get_pubkey(), b.get_pubkey());
    assert_eq!(a.get_root_secret(), [3u8; 32]);
    assert_eq!(a.derive_backup_key(b"header"), b.derive_backup_key(b"header"));
    assert_ne!(a.derive_backup_key(b"header"), a.derive_backup_key(b"index"));
    let generated = KeyManager::generate().unwrap();
    assert_ne!(generated.get_root_secret(), [0u8; 32]);
}

#[test]
fn storage_matching() {
    let me = [1u8; 32];
    let other = [2u8; 32];
    assert!(matches!(Fulfillment::begin(Request { storage_required: 0, client_id: me }, 1000), FulfillStart::Nothing));
    assert!(matches!(Fulfillment::begin(Request { storage_required: 1001, client_id: me }, 1000), FulfillStart::Refused(HandlerError::BadRequest)));
    let mut f = match Fulfillment::begin(Request { storage_required: 100, client_id: me }, 1000) {
        FulfillStart::Matching(f) => f,
        _ => panic!("expected matching"),
    };
    assert!(!f.accepts(&Request { storage_required: 10, client_id: me }));
    let dest = Request { storage_required: 60, client_id: other };
    assert!(f.accepts(&dest));
    let m: BackupMatched = f.destination_message();
    assert_eq!((m.storage_available, m.destination_id), (100, me));
    let m2 = Fulfillment::requester_message(&dest);
    assert_eq!((m2.storage_available, m2.destination_id), (60, other));
    assert!(matches!(f.matched(&dest), MatchStep::Continue));
    let r = f.remainder().unwrap();
    assert_eq!((r.storage_required, r.client_id), (40, me));
    assert!(matches!(f.matched(&Request { storage_required: 40, client_id: other }), MatchStep::Stop(None)));
    let mut g = match Fulfillment::begin(Request { storage_required: 30, client_id: me }, 1000) {
        FulfillStart::Matching(f) => f,
        _ => panic!("expected matching"),
    };
    match g.matched(&Request { storage_required: 50, client_id: other }) {
        MatchStep::Stop(Some(back)) => assert_eq!((back.storage_required, back.client_id), (20, other)),
        _ => panic!("expected the queued request back"),
    }
    assert!(g.remainder().is_none());
}

/// Runs the matching loop of the server's queue, every notification going through.
fn fulfill(queue: &mut std::collections::VecDeque<Request>, request: Request) {
    let mut f = match Fulfillment::begin(request, 1 << 40) {
        FulfillStart::Matching(f) => f,
        _ => return,
    };
    while let Some(destination) = queue.pop_front() {
        if !f.accepts(&destination) {
            continue;
        }
        match f.matched(&destination) {
            MatchStep::Continue => continue,
            MatchStep::Stop(back) => {
                if let Some(b) = back {
                    queue.push_back(b);
                }
                break;
            }
        }
    }
    if let Some(r) = f.remainder() {
        queue.push_back(r);
    }
}

fn queue_contents(queue: &std::collections::VecDeque<Request>) -> Vec<(u64, [u8; 32])> {
    queue.iter().map(|r| (r.storage_required, r.client_id)).collect()
}

#[test]
fn smaller_request_fully_matched() {
    let (a, b) = ([1u8; 32], [2u8; 32]);
    let mut q = std::collections::VecDeque::new();
    fulfill(&mut q, Request { storage_required: 10, client_id: a });
    assert_eq!(queue_contents(&q), vec![(10, a)]);
    fulfill(&mut q, Request { storage_required: 4, client_id: b });
    assert_eq!(queue_contents(&q), vec![(6, a)]);
}

#[test]
fn equal_requests_both_discarded() {
    let (a, b) = ([1u8; 32], [2u8; 32]);
    let mut q = std::collections::VecDeque::new();
    fulfill(&mut q, Request { storage_required: 5, client_id: a });
    fulfill(&mut q, Request { storage_required: 5, client_id: b });
    assert!(q.is_empty());
}

#[test]
fn larger_request_consumes_queue() {
    let (a, b, c) = ([1u8; 32], [2u8; 32], [3u8; 32]);
    let mut q = std::collections::VecDeque::new();
    fulfill(&mut q, Request { storage_required: 10, client_id: a });
    fulfill(&mut q, Request { storage_required: 4, client_id: b });
    fulfill(&mut q, Request { storage_required: 8, client_id: c });
    assert_eq!(queue_contents(&q), vec![(2, c)]);
}

#[test]
fn handler_errors() {
    assert_eq!(HandlerError::Unauthorized.status(), 401);
    assert_eq!(HandlerError::ClientExists(me()).status(), 409);
    assert_eq!(HandlerError::Database.status(), 500);
    assert_eq!(HandlerError::Io.status(), 404);
    assert_eq!(HandlerError::Crypto.error_type(), ErrorType::BadRequest(String::from("Crypto error")));
    assert_eq!(HandlerError::ChallengeNotFound.error_type(), ErrorType::Retry);
    assert_eq!(HandlerError::NoBackupsAvailable.error_type(), ErrorType::NoBackups);
    assert_eq!(parse_session_token("000102030405060708090a0b0c0d0e0f").unwrap(), [0, 1, 2, 3, 4, 5, 6, 7, 8, 9, 10, 11, 12, 13, 14, 15]);
    assert_eq!(parse_session_token("0001").unwrap_err(), TokenError::InvalidLength);
    assert_eq!(parse_session_token("xyz!").unwrap_err(), TokenError::InvalidHex);
}

fn me() -> [u8; 32] {
    [1u8; 32]
}

#[test]
fn backup_orchestration() {
    let mut o = BackupOrchestrator::new(String::from("/dest"));
    o.update_packfile_bytes_written(100);
    o.increment_packfile_bytes_sent(30);
    assert_eq!(o.available_packfile_bytes(), 70);
    o.increment_packfile_bytes_sent(100);
    assert_eq!(o.available_packfile_bytes(), 0);
    o.set_size_estimate(12345);
    assert_eq!(estimate_storage_request_size(&o), 12345);
    o.set_backup_started();
    assert_eq!(o.reset_for_backup(), Err(OrchestratorError::BackupRunning));
    o.set_backup_finished();
    assert_eq!(o.reset_for_backup(), Ok(()));
    assert_eq!(o.get_packfile_bytes_written(), 0);
    o.pause();
    assert!(!o.should_continue());
    o.resume();
    assert!(o.should_continue());
    assert_eq!(size_estimate_from_difference(500, Some(0)), 0);
    assert_eq!(size_estimate_from_difference(500, Some(-3)), 500);
    assert_eq!(size_estimate_from_difference(500, Some(40)), 40);
    assert_eq!(size_estimate_from_difference(500, None), 500);
    assert!(storage_request_due(100, 89));
    assert!(!storage_request_due(100, 90));
}

#[test]
fn send_session() {
    let mut s = SendSession::new(0, 0);
    assert!(!s.should_send_packfiles(0, 0, false));
    assert!(s.should_send_packfiles(1, 0, false));
    assert!(s.should_send_packfiles(0, 0, true));
    s.packfiles_sent(5, 7);
    assert!(!s.should_send_packfiles(5, 7, false));
    assert!(SendSession::should_pause(100 * 1024 * 1024 + 1));
    assert!(SendSession::should_resume(0, true));
    assert!(!SendSession::should_resume(60 * 1024 * 1024, true));
    s.check_packfiles_done(true, 10);
    assert!(!s.should_send_index());
    s.check_packfiles_done(true, 0);
    assert!(s.should_send_index());
    s.index_sent();
    assert!(s.is_finished());
    let peers = vec![[1u8; 32], [2u8; 32], [3u8; 32]];
    assert_eq!(pick_peer_with_session(&peers, &vec![[3u8; 32], [2u8; 32]]), Some(1));
    assert_eq!(pick_peer_with_session(&peers, &vec![]), None);
}

#[test]
fn restore_orchestration() {
    let mut r = RestoreOrchestrator::new();
    assert_eq!(r.set_started(true), Err(OrchestratorError::BackupRunning));
    assert_eq!(r.set_started(false), Ok(()));
    assert_eq!(r.reset_for_restore(), Err(OrchestratorError::RestoreRunning));
    r.add_peer([1; 32]);
    r.add_peer([2; 32]);
    assert!(!r.all_peers_completed());
    r.complete_peer([1; 32]);
    assert!(!r.all_peers_completed());
    r.complete_peer([2; 32]);
    assert!(r.all_peers_completed());
    r.set_finished();
    assert!(!r.is_running());
    assert_eq!(check_restore_throttle(None, 1000), Ok(()));
    assert_eq!(check_restore_throttle(Some(990), 1000), Err(50));
    assert_eq!(check_restore_throttle(Some(940), 1000), Ok(()));
}

#[test]
fn replay_protection() {
    let nonce = [4u8; 16];
    let mut guard = ReplayGuard::new(nonce, 1);
    let counter = SendCounter::new(nonce);
    let h = counter.header();
    assert!(guard.accept(&h));
    assert!(!guard.accept(&h));
    assert!(!guard.accept(&Header { sequence_number: 2, session_nonce: [5u8; 16] }));
    assert!(guard.accept(&Header { sequence_number: 2, session_nonce: nonce }));
    let mut c = SendCounter::new(nonce);
    assert!(c.is_ack_for_current(1));
    c.acknowledged();
    assert_eq!(c.header().sequence_number, 2);
}

#[test]
fn peer_permissions_and_settings() {
    let peer = |negotiated: i64, received: i64| PeerInfo {
        pubkey: [0; 32],
        bytes_transmitted: 0,
        bytes_received: received,
        bytes_negotiated: negotiated,
        first_seen: 0,
        last_seen: 0,
    };
    assert!(is_peer_allowed_to_send_data(&peer(100, 50)));
    assert!(is_peer_allowed_to_send_data(&peer(100, 100 + 16 * 1024 * 1024 - 1)));
    assert!(!is_peer_allowed_to_send_data(&peer(100, 100 + 16 * 1024 * 1024)));
    assert_eq!(EventType::from_id(0), Some(EventType::RestoreRequest));
    assert_eq!(EventType::from_id(2), None);
    assert_eq!(EventType::Backup.to_id(), 1);
    assert!(use_tls_setting(Some("1")));
    assert!(!use_tls_setting(Some("0")));
    assert!(use_tls_setting(Some("yes")));
    assert!(use_tls_setting(None));
    assert_eq!(obfuscation_key_bytes(0x04030201), [1, 2, 3, 4]);
    assert_eq!(parse_obfuscation_key(&[1, 2, 3, 4]).unwrap(), 0x04030201);
    assert_eq!(parse_obfuscation_key(&[1, 2, 3]).unwrap_err(), ObfuscationKeyError::InvalidKey);
    let k = generate_obfuscation_key().unwrap();
    assert_eq!(parse_obfuscation_key(&obfuscation_key_bytes(k)).unwrap(), k);
}

#[test]
fn ui_and_network_decisions() {
    assert_eq!(url("register/begin"), "http://127.0.0.1:9999/register/begin");
    let mut id = [0u8; 32];
    id[0] = 0xab;
    id[1] = 0x01;
    let shown = peer_id_display(&id);
    assert!(shown.starts_with("ab:01:00:"));
    assert_eq!(shown.len(), 95);
    let mut m = Messenger::new();
    let d = m.progress_notify_increment(1000);
    assert!(d.send_peers);
    assert_eq!(d.send_progress, Some(0));
    let d = m.progress_notify_increment(1050);
    assert!(!d.send_peers);
    assert_eq!(d.send_progress, None);
    let d = m.progress_notify_increment(1100);
    assert_eq!(d.send_progress, Some(2));
    assert!(m.progress(1, 2, 3).is_none());
    m.send_backup_started();
    let p = m.progress(1, 2, 3).unwrap();
    assert_eq!((p.current, p.size_estimate, p.bytes_on_disk, p.bytes_transmitted), (3, 1, 2, 3));
    m.progress_add_peer([1; 32]);
    m.progress_add_peer([1; 32]);
    assert_eq!(m.peers().len(), 1);
    assert_eq!(auth_header_value(&[0xff; 16]), "ffffffffffffffffffffffffffffffff");
    assert_eq!(token_action(None), TokenAction::Login);
    assert_eq!(token_action(Some([0; 16])), TokenAction::SendToken);
    assert_eq!(connect_action(ConnectOutcome::Connected), ConnectAction::Done);
    assert_eq!(connect_action(ConnectOutcome::HttpStatus(401)), ConnectAction::ForgetTokenAndRetry);
    assert_eq!(connect_action(ConnectOutcome::HttpStatus(500)), ConnectAction::WaitAndRetry);
    assert_eq!(connect_action(ConnectOutcome::Failed), ConnectAction::WaitAndRetry);
}

#[test]
fn login_challenge_is_single_use() {
    let keys = KeyManager::from_secret([3u8; 32]).unwrap();
    let pk = keys.get_pubkey();
    let mut auth = ClientAuthManager::new();
    assert!(matches!(auth.challenge_verify(pk, &[0u8; 64], 1000), Err(HandlerError::ChallengeNotFound)));
    let nonce = auth.challenge_begin(pk, 1000).unwrap();
    // a signature of another message is refused, and the challenge stays
    let wrong = keys.sign(&[6u8; 32]);
    assert!(matches!(auth.challenge_verify(pk, &wrong, 1000), Err(HandlerError::Crypto)));
    let sig = keys.sign(&nonce);
    assert!(auth.challenge_verify(pk, &sig, 1000).is_ok());
    assert!(matches!(auth.challenge_verify(pk, &sig, 1000), Err(HandlerError::ChallengeNotFound)));
}

#[test]
fn new_challenge_replaces_old() {
    let keys = KeyManager::from_secret([4u8; 32]).unwrap();
    let pk = keys.get_pubkey();
    let mut auth = ClientAuthManager::new();
    let first = auth.challenge_begin(pk, 1000).unwrap();
    let second = auth.challenge_begin(pk, 1000).unwrap();
    assert_ne!(first, second);
    assert!(matches!(auth.challenge_verify(pk, &keys.sign(&first), 1000), Err(HandlerError::Crypto)));
    assert!(auth.challenge_verify(pk, &keys.sign(&second), 1000).is_ok());
}

#[test]
fn sessions_and_tokens() {
    let mut auth = ClientAuthManager::new();
    let alice = [7u8; 32];
    let bob = [8u8; 32];
    let ta = auth.session_start(alice, 1000).unwrap();
    let tb = auth.session_start(bob, 1000).unwrap();
    assert_eq!(auth.get_session(ta, 1000), Some(alice));
    assert_eq!(auth.get_session(tb, 1000), Some(bob));
    assert_eq!(auth.get_session([0u8; 16], 1000), None);
    let text: String = ta.iter().map(|b| format!("{:02x}", b)).collect();
    assert_eq!(check_token(&auth, &text, 1000).unwrap(), alice);
    assert!(matches!(check_token(&auth, "00112233445566778899aabbccddeeff", 1000), Err(HandlerError::Unauthorized)));
    assert!(matches!(check_token(&auth, "0011", 1000), Err(HandlerError::Unauthorized)));
    assert!(matches!(check_token(&auth, "not hex", 1000), Err(HandlerError::Unauthorized)));
}

#[test]
fn connection_requests_answered_once() {
    let mut manager = P2PConnectionManager::new();
    let peer = [9u8; 32];
    assert_eq!(manager.finalize_request(peer, 1010).unwrap_err(), ConnectionRequestError::Unsolicited);
    let nonce = manager.add_request(peer, RequestType::Transport, 1000).unwrap();
    let other = manager.add_request([10u8; 32], RequestType::RestoreAll, 1000).unwrap();
    let req = manager.finalize_request(peer, 1010).unwrap();
    assert_eq!(req.session_nonce, nonce);
    assert_eq!(req.purpose, RequestType::Transport);
    assert_eq!(manager.finalize_request(peer, 1010).unwrap_err(), ConnectionRequestError::Unsolicited);
    let req2 = manager.finalize_request([10u8; 32], 1010).unwrap();
    assert_eq!(req2.session_nonce, other);
    assert_eq!(req2.purpose, RequestType::RestoreAll);
}

#[test]
fn initiation_message_checks() {
    let keys = KeyManager::from_secret([5u8; 32]).unwrap();
    let pk = keys.get_pubkey();
    let body = b"initiation body".to_vec();
    let sig = keys.sign(&body).to_vec();
    let nonce = [3u8; 16];
    assert!(validate_encapsulated_signature(&pk, &body, &sig).is_ok());
    assert_eq!(validate_encapsulated_signature(&pk, &body, &sig[..63]).unwrap_err(), InitiationError::BadSignature);
    assert_eq!(validate_encapsulated_signature(&pk, b"other", &sig).unwrap_err(), InitiationError::BadSignature);
    let good = Header { sequence_number: 0, session_nonce: nonce };
    assert_eq!(check_initiation(&pk, &nonce, &body, &sig, &good, RequestType::RestoreAll).unwrap(), RequestType::RestoreAll);
    let late = Header { sequence_number: 1, session_nonce: nonce };
    assert_eq!(check_initiation(&pk, &nonce, &body, &sig, &late, RequestType::Transport).unwrap_err(), InitiationError::BadHeader);
    let foreign = Header { sequence_number: 0, session_nonce: [4u8; 16] };
    assert_eq!(check_initiation(&pk, &nonce, &body, &sig, &foreign, RequestType::Transport).unwrap_err(), InitiationError::BadHeader);
    assert_eq!(check_initiation(&[1u8; 32], &nonce, &body, &sig, &good, RequestType::Transport).unwrap_err(), InitiationError::BadSignature);
}

#[test]
fn acknowledgements_checked_in_order() {
    let keys = KeyManager::from_secret([6u8; 32]).unwrap();
    let pk = keys.get_pubkey();
    let nonce = [8u8; 16];
    let mut guard = ReplayGuard::new(nonce, 0);
    let body = b"ack body".to_vec();
    let sig = keys.sign(&body).to_vec();
    let first = Header { sequence_number: 0, session_nonce: nonce };
    assert_eq!(parse_incoming_ack(&pk, &mut guard, &body, &[0u8; 64], &first, 1), Err(MessageError::BadSignature));
    assert_eq!(parse_incoming_ack(&pk, &mut guard, &body, &sig, &first, 1), Ok(1));
    // the same acknowledgement again is a replay
    assert_eq!(parse_incoming_ack(&pk, &mut guard, &body, &sig, &first, 1), Err(MessageError::BadHeader));
    let second = Header { sequence_number: 1, session_nonce: nonce };
    assert_eq!(parse_incoming_ack(&pk, &mut guard, &body, &sig, &second, 2), Ok(2));
}

#[test]
fn data_messages_checked_in_order() {
    let keys = KeyManager::from_secret([7u8; 32]).unwrap();
    let pk = keys.get_pubkey();
    let nonce = [2u8; 16];
    let mut guard = ReplayGuard::new(nonce, 1);
    let body = b"file body".to_vec();
    let sig = keys.sign(&body).to_vec();
    let initiation = Header { sequence_number: 0, session_nonce: nonce };
    assert_eq!(validate_incoming_message(&pk, &mut guard, &body, &sig, &initiation), Err(MessageError::BadHeader));
    let first = Header { sequence_number: 1, session_nonce: nonce };
    assert_eq!(validate_incoming_message(&pk, &mut guard, b"tampered", &sig, &first), Err(MessageError::BadSignature));
    assert_eq!(validate_incoming_message(&pk, &mut guard, &body, &sig, &first), Ok(1));
    assert_eq!(validate_incoming_message(&pk, &mut guard, &body, &sig, &first), Err(MessageError::BadHeader));
}

#[test]
fn challenges_sessions_and_requests_expire() {
    let keys = KeyManager::from_secret([11u8; 32]).unwrap();
    let pk = keys.get_pubkey();
    let mut auth = ClientAuthManager::new();
    let nonce = auth.challenge_begin(pk, 100).unwrap();
    let sig = keys.sign(&nonce);
    // 30 seconds later the challenge is gone
    assert!(matches!(auth.challenge_verify(pk, &sig, 130), Err(HandlerError::ChallengeNotFound)));
    assert!(auth.challenge_verify(pk, &sig, 129).is_ok());
    let t = auth.session_start(pk, 100).unwrap();
    assert_eq!(auth.get_session(t, 100 + 86_399), Some(pk));
    assert_eq!(auth.get_session(t, 100 + 86_400), None);
    let mut manager = P2PConnectionManager::new();
    manager.add_request([1u8; 32], RequestType::Transport, 100).unwrap();
    assert_eq!(manager.finalize_request([1u8; 32], 160).unwrap_err(), ConnectionRequestError::Unsolicited);
    manager.add_request([1u8; 32], RequestType::Transport, 100).unwrap();
    assert!(manager.finalize_request([1u8; 32], 159).is_ok());
}

#[test]
fn index_names_sort_like_numbers() {
    let nums = [0u32, 7, 9, 10, 99, 100, 12345, 999_999_999, 1_000_000_000, u32::MAX];
    for w in nums.windows(2) {
        let (a, b) = (format_padded10(w[0]), format_padded10(w[1]));
        assert_eq!(a.len(), 10);
        assert!(a.chars().all(|c| c.is_ascii_digit()));
        assert!(a < b);
    }
}

#[test]
fn restore_completion_follows_last_call() {
    let mut r = RestoreOrchestrator::new();
    assert!(r.all_peers_completed());
    r.add_peer([1u8; 32]);
    r.add_peer([2u8; 32]);
    r.complete_peer([1u8; 32]);
    assert!(!r.all_peers_completed());
    r.complete_peer([2u8; 32]);
    assert!(r.all_peers_completed());
    r.add_peer([1u8; 32]);
    assert!(!r.all_peers_completed());
    r.complete_peer([1u8; 32]);
    assert!(r.all_peers_completed());
}

#[test]
fn restored_payload_is_the_stored_data() {
    let key = [0x12u8, 0x34, 0x56, 0x78];
    let original: Vec<u8> = (0..50u8).collect();
    let mut stored = original.clone();
    obfuscate_data_impl(&mut stored, key);
    assert_ne!(stored, original);
    let mut sent = stored.clone();
    obfuscate_data_impl(&mut sent, key);
    assert_eq!(sent, original);
}

#[test]
fn backup_start_refusals() {
    assert_eq!(backuwup::orchestrator::backup_start_check(true, true), Err(OrchestratorError::RestoreRunning));
    assert_eq!(backuwup::orchestrator::backup_start_check(false, false), Err(OrchestratorError::BackupPathNotSet));
    assert_eq!(backuwup::orchestrator::backup_start_check(false, true), Ok(()));
}
