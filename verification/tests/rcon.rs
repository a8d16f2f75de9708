use std::collections::VecDeque;

use cs2_addons::rcon::{
    authenticate, encode_packet, execute, try_parse_packet, AuthOutcome, RecvChunk, Session, Wire,
    TYPE_AUTH_RESPONSE, TYPE_RESPONSE_VALUE,
};

/// Wire fed from a script of receive chunks; sends are recorded.
#[derive(Default)]
struct ScriptedWire {
    sent: Vec<Vec<u8>>,
    chunks: VecDeque<Option<Vec<u8>>>, // None = timeout
}

impl ScriptedWire {
    fn push_packet(&mut self, id: i32, ptype: i32, body: &[u8]) {
        self.chunks.push_back(Some(encode_packet(id, ptype, body)));
    }
    fn push_timeout(&mut self) {
        self.chunks.push_back(None);
    }
    fn push_raw(&mut self, bytes: Vec<u8>) {
        self.chunks.push_back(Some(bytes));
    }
}

impl Wire for ScriptedWire {
    fn send(&mut self, data: &[u8]) -> Result<(), String> {
        self.sent.push(data.to_vec());
        Ok(())
    }
    fn recv(&mut self, _max: u32, _timeout: u32) -> Result<RecvChunk, String> {
        match self.chunks.pop_front() {
            Some(Some(data)) => Ok(RecvChunk { data, timeout: false }),
            Some(None) | None => Ok(RecvChunk { data: Vec::new(), timeout: true }),
        }
    }
}

#[test]
fn auth_bare_response() {
    let mut wire = ScriptedWire::default();
    wire.push_packet(7, TYPE_AUTH_RESPONSE, b"");
    let mut session = Session::default();
    assert_eq!(authenticate(&mut wire, &mut session, "pw", 7).expect("auth"), AuthOutcome::Accepted);
}

#[test]
fn auth_classic_pair() {
    let mut wire = ScriptedWire::default();
    wire.push_packet(7, TYPE_RESPONSE_VALUE, b"");
    wire.push_packet(7, TYPE_AUTH_RESPONSE, b"");
    let mut session = Session::default();
    assert_eq!(authenticate(&mut wire, &mut session, "pw", 7).expect("auth"), AuthOutcome::Accepted);
}

#[test]
fn auth_rejected() {
    let mut wire = ScriptedWire::default();
    wire.push_packet(7, TYPE_RESPONSE_VALUE, b"");
    wire.push_packet(-1, TYPE_AUTH_RESPONSE, b"");
    let mut session = Session::default();
    assert_eq!(authenticate(&mut wire, &mut session, "pw", 7).expect("auth"), AuthOutcome::BadPassword);
}

#[test]
fn exec_single_packet_with_marker() {
    let mut wire = ScriptedWire::default();
    wire.push_packet(10, TYPE_RESPONSE_VALUE, b"hello");
    wire.push_packet(11, TYPE_RESPONSE_VALUE, b"");
    let mut session = Session::default();
    let out = execute(&mut wire, &mut session, "echo", 10, 11).expect("exec");
    assert_eq!(out, "hello");
    assert_eq!(wire.sent.len(), 2, "command + marker");
}

#[test]
fn exec_multi_packet_reassembly() {
    let mut wire = ScriptedWire::default();
    wire.push_packet(10, TYPE_RESPONSE_VALUE, b"part1 ");
    wire.push_packet(10, TYPE_RESPONSE_VALUE, b"part2 ");
    wire.push_packet(10, TYPE_RESPONSE_VALUE, b"part3");
    wire.push_packet(11, TYPE_RESPONSE_VALUE, b"");
    let mut session = Session::default();
    let out = execute(&mut wire, &mut session, "meta list", 10, 11).expect("exec");
    assert_eq!(out, "part1 part2 part3");
}

#[test]
fn exec_skips_unsolicited_console_noise() {
    let mut wire = ScriptedWire::default();
    wire.push_packet(0, TYPE_RESPONSE_VALUE, b"[Server] console spam\n");
    wire.push_packet(10, TYPE_RESPONSE_VALUE, b"answer");
    wire.push_packet(0, TYPE_RESPONSE_VALUE, b"more spam\n");
    wire.push_packet(11, TYPE_RESPONSE_VALUE, b"");
    let mut session = Session::default();
    let out = execute(&mut wire, &mut session, "status", 10, 11).expect("exec");
    assert_eq!(out, "answer");
}

#[test]
fn exec_idle_gap_ends_response_without_marker() {
    let mut wire = ScriptedWire::default();
    wire.push_packet(10, TYPE_RESPONSE_VALUE, b"no marker support");
    wire.push_timeout();
    let mut session = Session::default();
    let out = execute(&mut wire, &mut session, "status", 10, 11).expect("exec");
    assert_eq!(out, "no marker support");
}

#[test]
fn exec_oversized_packet_ok() {
    // 100KB in one packet, far over the classic 4096 cap.
    let big = vec![b'x'; 100 * 1024];
    let mut wire = ScriptedWire::default();
    wire.push_packet(10, TYPE_RESPONSE_VALUE, &big);
    wire.push_packet(11, TYPE_RESPONSE_VALUE, b"");
    let mut session = Session::default();
    let out = execute(&mut wire, &mut session, "cvarlist", 10, 11).expect("exec");
    assert_eq!(out.len(), big.len());
}

#[test]
fn exec_handles_split_and_coalesced_frames() {
    // Two packets delivered as: half of A / rest of A + all of B.
    let a = encode_packet(10, TYPE_RESPONSE_VALUE, b"split");
    let b = encode_packet(11, TYPE_RESPONSE_VALUE, b"");
    let mut wire = ScriptedWire::default();
    wire.push_raw(a[..7].to_vec());
    let mut rest = a[7..].to_vec();
    rest.extend_from_slice(&b);
    wire.push_raw(rest);
    let mut session = Session::default();
    let out = execute(&mut wire, &mut session, "x", 10, 11).expect("exec");
    assert_eq!(out, "split");
}

#[test]
fn exec_marker_overtaking_output_still_collects() {
    let mut wire = ScriptedWire::default();
    wire.push_packet(11, TYPE_RESPONSE_VALUE, b"");
    wire.push_packet(10, TYPE_RESPONSE_VALUE, b"late ");
    wire.push_packet(10, TYPE_RESPONSE_VALUE, b"output");
    wire.push_timeout();
    let mut session = Session::default();
    let out = execute(&mut wire, &mut session, "meta version", 10, 11).expect("exec");
    assert_eq!(out, "late output");
}

#[test]
fn exec_marker_then_silence_is_empty_not_error() {
    let mut wire = ScriptedWire::default();
    wire.push_packet(11, TYPE_RESPONSE_VALUE, b"");
    wire.push_timeout();
    let mut session = Session::default();
    let out = execute(&mut wire, &mut session, "silent_cmd", 10, 11).expect("exec");
    assert_eq!(out, "");
}

#[test]
fn exec_no_response_errors() {
    let mut wire = ScriptedWire::default();
    wire.push_timeout();
    let mut session = Session::default();
    assert!(execute(&mut wire, &mut session, "x", 10, 11).is_err());
}

#[test]
fn garbage_size_field_errors() {
    let mut wire = ScriptedWire::default();
    wire.push_raw(vec![0xFF, 0xFF, 0xFF, 0xFF, 1, 2, 3]);
    let mut session = Session::default();
    assert!(execute(&mut wire, &mut session, "x", 10, 11).is_err());
}

#[test]
fn encoded_packet_has_the_documented_layout() {
    let bytes = encode_packet(5, 2, b"hi");
    assert_eq!(bytes, vec![12, 0, 0, 0, 5, 0, 0, 0, 2, 0, 0, 0, b'h', b'i', 0, 0]);
}

#[test]
fn a_packet_decodes_back_to_what_was_encoded() {
    let bytes = encode_packet(42, 0, b"status");
    let (packet, used) = try_parse_packet(&bytes).expect("valid").expect("complete");
    assert_eq!(packet.id, 42);
    assert_eq!(packet.ptype, 0);
    assert_eq!(packet.body, b"status".to_vec());
    assert_eq!(used, bytes.len());
}

#[test]
fn a_partial_packet_waits_for_more_bytes() {
    let bytes = encode_packet(1, 0, b"abc");
    assert!(try_parse_packet(&bytes[..bytes.len() - 1]).expect("valid").is_none());
}

#[test]
fn a_bad_size_field_is_named_in_the_error() {
    let err = try_parse_packet(&[5, 0, 0, 0, 1, 2]).err().expect("refused");
    assert_eq!(err, "invalid rcon packet size 5");
}

#[test]
fn request_ids_count_up_and_wrap_before_the_sign_bit() {
    assert_eq!(cs2_addons::rcon::next_request_id(100), 101);
    assert_eq!(cs2_addons::rcon::next_request_id(0x0FFF_FFF0), 0x0FFF_FFF1);
    assert_eq!(cs2_addons::rcon::next_request_id(0x0FFF_FFF1), 100);
}
