use proxy_lib::client::{control_of, process, ControlPacket, ProxySession, SessionState};
use proxy_lib::error::ProxyError;
use proxy_lib::packet_io::{encode_frame, PacketFrame};
use proxy_lib::packet_registry::{Packet, PacketRegistry, PacketSide, PacketState};
use proxy_lib::packets::HandshakeNextState;
use proxy_lib::varint::{read_varint, VarIntRead};
use std::io::Read;

fn entry(side: PacketSide, state: PacketState, id: i32, name: &'static str) -> Packet {
    Packet { side, state, id, timestamp: None, name, data: None }
}

fn known_packets() -> PacketRegistry {
    let mut registry = PacketRegistry::new();
    registry.register_all(vec![
        entry(PacketSide::Serverbound, PacketState::Handshaking, 0, "HandshakeC2S"),
        entry(PacketSide::Serverbound, PacketState::Status, 0, "QueryRequestC2S"),
        entry(PacketSide::Clientbound, PacketState::Status, 0, "QueryResponseS2C"),
        entry(PacketSide::Serverbound, PacketState::Login, 0, "LoginHelloC2S"),
        entry(PacketSide::Clientbound, PacketState::Login, 2, "LoginSuccessS2C"),
        entry(PacketSide::Clientbound, PacketState::Login, 3, "LoginCompressionS2C"),
        entry(PacketSide::Clientbound, PacketState::Play, 0x24, "ChunkDataS2C"),
    ]);
    registry
}

fn handshake(next_state: u8) -> PacketFrame {
    let mut body = vec![0xfb, 0x05, 0x09];
    body.extend_from_slice(b"localhost");
    body.extend_from_slice(&[0x63, 0xdd, next_state]);
    PacketFrame { id: 0, body }
}

fn login_hello() -> PacketFrame {
    let mut body = vec![0x05];
    body.extend_from_slice(b"Notch");
    body.push(0x00);
    PacketFrame { id: 0, body }
}

fn compression_notice(threshold_bytes: &[u8]) -> PacketFrame {
    PacketFrame { id: 3, body: threshold_bytes.to_vec() }
}

fn login_success() -> PacketFrame {
    let mut body = vec![0x11; 16];
    body.push(0x05);
    body.extend_from_slice(b"Notch");
    body.push(0x00);
    PacketFrame { id: 2, body }
}

fn body_of(len: usize) -> Vec<u8> {
    (0..len).map(|i| (i % 5) as u8).collect()
}

/// Feeds `wire` in direction `side` and relays the one frame in it.
fn relay(
    session: &mut ProxySession,
    registry: &PacketRegistry,
    side: PacketSide,
    wire: &[u8],
) -> (Packet, Vec<u8>) {
    assert_eq!(session.queue_bytes(side, wire), Ok(()));
    let relayed = match process(session, registry, side, Some(42)) {
        Ok(Some(relayed)) => relayed,
        Ok(None) => panic!("no whole frame"),
        Err(e) => panic!("relay failed: {:?}", e),
    };
    assert_eq!(session.waiting_len(side), 0);
    (relayed.packet, relayed.wire)
}

fn login_with_compression(session: &mut ProxySession, registry: &PacketRegistry) {
    let wire = encode_frame(&handshake(2), None).unwrap();
    relay(session, registry, PacketSide::Serverbound, &wire);
    let wire = encode_frame(&login_hello(), None).unwrap();
    relay(session, registry, PacketSide::Serverbound, &wire);
    let wire = encode_frame(&compression_notice(&[0x80, 0x02]), None).unwrap();
    relay(session, registry, PacketSide::Clientbound, &wire);
    let wire = encode_frame(&login_success(), Some(256)).unwrap();
    relay(session, registry, PacketSide::Clientbound, &wire);
}

#[test]
fn a_session_starts_handshaking_and_uncompressed() {
    let session = ProxySession::new();
    assert_eq!(session.state(), PacketState::Handshaking);
    assert_eq!(session.threshold(), None);
    assert_eq!(session.waiting_len(PacketSide::Serverbound), 0);
    assert_eq!(session.waiting_len(PacketSide::Clientbound), 0);
    assert_eq!(
        SessionState::new(),
        SessionState { state: PacketState::Handshaking, threshold: None }
    );
}

#[test]
fn scenario_plain_handshake_to_status() {
    let registry = known_packets();
    let mut session = ProxySession::new();

    let wire = encode_frame(&handshake(1), None).unwrap();
    let (packet, sent) = relay(&mut session, &registry, PacketSide::Serverbound, &wire);
    assert_eq!(sent, wire);
    assert_eq!(session.state(), PacketState::Status);
    assert_eq!(session.threshold(), None);
    assert_eq!(
        packet,
        Packet {
            side: PacketSide::Serverbound,
            state: PacketState::Handshaking,
            id: 0,
            timestamp: Some(42),
            name: "HandshakeC2S",
            data: Some(handshake(1).body),
        }
    );

    // Status request: an empty body.
    let request = vec![0x01, 0x00];
    let (packet, sent) = relay(&mut session, &registry, PacketSide::Serverbound, &request);
    assert_eq!(sent, request);
    assert_eq!(packet.name, "QueryRequestC2S");
    assert_eq!(packet.state, PacketState::Status);

    // Status response: a text.
    let json = b"{\"description\":\"A server\"}";
    let mut response = vec![(json.len() + 2) as u8, 0x00, json.len() as u8];
    response.extend_from_slice(json);
    let (packet, sent) = relay(&mut session, &registry, PacketSide::Clientbound, &response);
    assert_eq!(sent, response);
    assert_eq!(packet.name, "QueryResponseS2C");
    assert_eq!(packet.side, PacketSide::Clientbound);
    assert_eq!(packet.data, Some(response[2..].to_vec()));
    assert_eq!(session.state(), PacketState::Status);
}

#[test]
fn scenario_login_with_compression() {
    let registry = known_packets();
    let mut session = ProxySession::new();

    let wire = encode_frame(&handshake(2), None).unwrap();
    let (packet, sent) = relay(&mut session, &registry, PacketSide::Serverbound, &wire);
    assert_eq!(sent, wire);
    assert_eq!(packet.name, "HandshakeC2S");
    assert_eq!(session.state(), PacketState::Login);

    let wire = encode_frame(&login_hello(), None).unwrap();
    let (packet, sent) = relay(&mut session, &registry, PacketSide::Serverbound, &wire);
    assert_eq!(sent, wire);
    assert_eq!(packet.name, "LoginHelloC2S");
    assert_eq!(session.threshold(), None);

    // The notice itself travels uncompressed, to the client too.
    let wire = encode_frame(&compression_notice(&[0x80, 0x02]), None).unwrap();
    assert_eq!(wire, vec![0x03, 0x03, 0x80, 0x02]);
    let (packet, sent) = relay(&mut session, &registry, PacketSide::Clientbound, &wire);
    assert_eq!(sent, wire);
    assert_eq!(packet.name, "LoginCompressionS2C");
    assert_eq!(session.threshold(), Some(256));
    assert_eq!(session.state(), PacketState::Login);

    // From here on every frame has a data length.
    let wire = encode_frame(&login_success(), Some(256)).unwrap();
    assert_eq!(wire[1], 0x00);
    let (packet, sent) = relay(&mut session, &registry, PacketSide::Clientbound, &wire);
    assert_eq!(sent, wire);
    assert_eq!(packet.name, "LoginSuccessS2C");
    assert_eq!(packet.state, PacketState::Login);
    assert_eq!(session.state(), PacketState::Play);

    // A body of 300 bytes: compressed, behind its true length.
    let large = PacketFrame { id: 0x24, body: body_of(300) };
    let wire = encode_frame(&large, Some(256)).unwrap();
    let (packet, sent) = relay(&mut session, &registry, PacketSide::Clientbound, &wire);
    assert_eq!(packet.name, "ChunkDataS2C");
    assert_eq!(packet.state, PacketState::Play);
    assert_eq!(packet.data, Some(body_of(300)));
    let (_, a) = match read_varint(&sent) {
        VarIntRead::Value { value, len } => (value, len),
        other => panic!("{:?}", other),
    };
    let (data_len, b) = match read_varint(&sent[a..]) {
        VarIntRead::Value { value, len } => (value, len),
        other => panic!("{:?}", other),
    };
    assert_eq!(data_len, 301);
    let mut inflated = Vec::new();
    flate2::bufread::ZlibDecoder::new(&sent[a + b..]).read_to_end(&mut inflated).unwrap();
    assert_eq!(inflated[0], 0x24);
    assert_eq!(&inflated[1..], &body_of(300)[..]);
    assert!(sent.len() < 300);

    // A body of 50 bytes: as it is, behind a zero.
    let small = PacketFrame { id: 0x24, body: body_of(50) };
    let wire = encode_frame(&small, Some(256)).unwrap();
    let (packet, sent) = relay(&mut session, &registry, PacketSide::Clientbound, &wire);
    assert_eq!(packet.data, Some(body_of(50)));
    assert_eq!(&sent[..3], &[52, 0x00, 0x24]);
    assert_eq!(&sent[3..], &body_of(50)[..]);

    // The other direction works under the same threshold.
    let wire = encode_frame(&PacketFrame { id: 0x14, body: body_of(400) }, Some(256)).unwrap();
    let (packet, sent) = relay(&mut session, &registry, PacketSide::Serverbound, &wire);
    assert_eq!(sent, wire);
    assert_eq!(packet.name, "Unknown Packet");
    assert_eq!(packet.state, PacketState::Play);
    assert_eq!(packet.id, 0x14);
}

#[test]
fn scenario_mid_stream_disconnect() {
    let registry = known_packets();
    let mut session = ProxySession::new();
    login_with_compression(&mut session, &registry);
    assert_eq!(session.state(), PacketState::Play);

    // The server closes: the read from it gives nothing.
    assert_eq!(
        session.queue_bytes(PacketSide::Clientbound, &[]),
        Err(ProxyError::Disconnected)
    );
    assert!(ProxyError::Disconnected.is_disconnect());
    assert_eq!(session.state(), PacketState::Play);
    assert_eq!(session.threshold(), Some(256));

    // What the client sent meanwhile can still be relayed.
    let wire = encode_frame(&PacketFrame { id: 0x14, body: body_of(20) }, Some(256)).unwrap();
    let (packet, sent) = relay(&mut session, &registry, PacketSide::Serverbound, &wire);
    assert_eq!(sent, wire);
    assert_eq!(packet.id, 0x14);
}

#[test]
fn a_frame_in_pieces_is_relayed_once_it_is_whole() {
    let registry = known_packets();
    let mut session = ProxySession::new();
    let wire = encode_frame(&handshake(1), None).unwrap();
    for byte in &wire[..wire.len() - 1] {
        session.queue_bytes(PacketSide::Serverbound, &[*byte]).unwrap();
        assert!(matches!(process(&mut session, &registry, PacketSide::Serverbound, None), Ok(None)));
        assert_eq!(session.state(), PacketState::Handshaking);
    }
    session.queue_bytes(PacketSide::Serverbound, &wire[wire.len() - 1..]).unwrap();
    let relayed = process(&mut session, &registry, PacketSide::Serverbound, None).unwrap().unwrap();
    assert_eq!(relayed.wire, wire);
    assert_eq!(relayed.packet.timestamp, None);
    assert_eq!(session.state(), PacketState::Status);
}

#[test]
fn two_frames_in_one_read_are_relayed_in_order() {
    let registry = known_packets();
    let mut session = ProxySession::new();
    let first = encode_frame(&handshake(2), None).unwrap();
    let second = encode_frame(&login_hello(), None).unwrap();
    let mut both = first.clone();
    both.extend_from_slice(&second);
    session.queue_bytes(PacketSide::Serverbound, &both).unwrap();
    let relayed = process(&mut session, &registry, PacketSide::Serverbound, None).unwrap().unwrap();
    assert_eq!(relayed.wire, first);
    assert_eq!(session.waiting_len(PacketSide::Serverbound), second.len());
    let relayed = process(&mut session, &registry, PacketSide::Serverbound, None).unwrap().unwrap();
    assert_eq!(relayed.wire, second);
    assert!(matches!(process(&mut session, &registry, PacketSide::Serverbound, None), Ok(None)));
}

#[test]
fn notice_and_success_in_one_read_switch_mode_between_them() {
    let registry = known_packets();
    let mut session = ProxySession::new();
    let wire = encode_frame(&handshake(2), None).unwrap();
    relay(&mut session, &registry, PacketSide::Serverbound, &wire);
    let notice = encode_frame(&compression_notice(&[0x80, 0x02]), None).unwrap();
    let success = encode_frame(&login_success(), Some(256)).unwrap();
    let mut both = notice.clone();
    both.extend_from_slice(&success);
    session.queue_bytes(PacketSide::Clientbound, &both).unwrap();
    let relayed = process(&mut session, &registry, PacketSide::Clientbound, None).unwrap().unwrap();
    assert_eq!(relayed.wire, notice);
    assert_eq!(session.threshold(), Some(256));
    let relayed = process(&mut session, &registry, PacketSide::Clientbound, None).unwrap().unwrap();
    assert_eq!(relayed.wire, success);
    assert_eq!(session.state(), PacketState::Play);
}

#[test]
fn a_malformed_frame_ends_the_relay_and_changes_nothing() {
    let registry = known_packets();
    let mut session = ProxySession::new();
    session.queue_bytes(PacketSide::Serverbound, &[0xff, 0xff, 0xff, 0xff, 0x0f]).unwrap();
    assert!(matches!(
        process(&mut session, &registry, PacketSide::Serverbound, None),
        Err(ProxyError::ProtocolDesync)
    ));
    assert_eq!(session.waiting_len(PacketSide::Serverbound), 5);
    assert_eq!(session.state(), PacketState::Handshaking);
}

#[test]
fn frames_of_an_encrypted_session_do_not_parse() {
    let registry = known_packets();
    let mut session = ProxySession::new();
    let wire = encode_frame(&handshake(2), None).unwrap();
    relay(&mut session, &registry, PacketSide::Serverbound, &wire);
    // What follows a key exchange looks like noise.
    session.queue_bytes(PacketSide::Clientbound, &[0x9c, 0xf3, 0xa1, 0xe7, 0xd2, 0x8b]).unwrap();
    assert!(process(&mut session, &registry, PacketSide::Clientbound, None).is_err());
}

#[test]
fn the_state_never_goes_back() {
    let mut shared = SessionState::new();
    // Frames from the server do nothing while handshaking.
    shared.observe(PacketSide::Clientbound, &login_success());
    shared.observe(PacketSide::Clientbound, &compression_notice(&[0x80, 0x02]));
    assert_eq!(shared, SessionState { state: PacketState::Handshaking, threshold: None });
    shared.observe(PacketSide::Serverbound, &handshake(2));
    assert_eq!(shared.state, PacketState::Login);
    // A second handshake, for status, is only a frame with id zero now.
    shared.observe(PacketSide::Serverbound, &handshake(1));
    assert_eq!(shared.state, PacketState::Login);
    // A login success from the client is none.
    shared.observe(PacketSide::Serverbound, &login_success());
    assert_eq!(shared.state, PacketState::Login);
    shared.observe(PacketSide::Clientbound, &login_success());
    assert_eq!(shared.state, PacketState::Play);
    for frame in [handshake(1), handshake(2), login_success(), compression_notice(&[0x01])] {
        shared.observe(PacketSide::Serverbound, &frame);
        shared.observe(PacketSide::Clientbound, &frame);
        assert_eq!(shared, SessionState { state: PacketState::Play, threshold: None });
    }
}

#[test]
fn status_is_final() {
    let mut shared = SessionState::new();
    shared.observe(PacketSide::Serverbound, &handshake(1));
    assert_eq!(shared.state, PacketState::Status);
    for frame in [handshake(2), login_success(), compression_notice(&[0x01])] {
        shared.observe(PacketSide::Serverbound, &frame);
        shared.observe(PacketSide::Clientbound, &frame);
        assert_eq!(shared, SessionState { state: PacketState::Status, threshold: None });
    }
}

#[test]
fn the_threshold_is_set_once() {
    let mut shared = SessionState { state: PacketState::Login, threshold: None };
    shared.observe(PacketSide::Clientbound, &compression_notice(&[0x80, 0x02]));
    assert_eq!(shared.threshold, Some(256));
    // A replayed notice, a different one and a malformed one change nothing.
    shared.observe(PacketSide::Clientbound, &compression_notice(&[0x80, 0x02]));
    assert_eq!(shared.threshold, Some(256));
    shared.observe(PacketSide::Clientbound, &compression_notice(&[0x40]));
    assert_eq!(shared.threshold, Some(256));
    shared.observe(PacketSide::Clientbound, &compression_notice(&[0x80]));
    assert_eq!(shared.threshold, Some(256));
    shared.observe(PacketSide::Clientbound, &login_success());
    shared.observe(PacketSide::Clientbound, &compression_notice(&[0x40]));
    assert_eq!(shared, SessionState { state: PacketState::Play, threshold: Some(256) });
}

#[test]
fn a_negative_threshold_sets_nothing() {
    let mut shared = SessionState { state: PacketState::Login, threshold: None };
    shared.observe(PacketSide::Clientbound, &compression_notice(&[0xff, 0xff, 0xff, 0xff, 0x0f]));
    assert_eq!(shared.threshold, None);
    // A later notice still counts.
    shared.observe(PacketSide::Clientbound, &compression_notice(&[0x00]));
    assert_eq!(shared.threshold, Some(0));
}

#[test]
fn a_notice_counts_only_from_the_server_while_logging_in() {
    for state in [PacketState::Handshaking, PacketState::Status, PacketState::Play] {
        let mut shared = SessionState { state, threshold: None };
        shared.observe(PacketSide::Clientbound, &compression_notice(&[0x40]));
        assert_eq!(shared, SessionState { state, threshold: None });
    }
    let mut shared = SessionState { state: PacketState::Login, threshold: None };
    shared.observe(PacketSide::Serverbound, &compression_notice(&[0x40]));
    assert_eq!(shared.threshold, None);
}

#[test]
fn a_frame_that_only_looks_like_a_handshake_changes_nothing() {
    let mut shared = SessionState::new();
    shared.observe(PacketSide::Serverbound, &PacketFrame { id: 0, body: vec![0x01] });
    shared.observe(PacketSide::Serverbound, &PacketFrame { id: 1, body: handshake(2).body });
    shared.observe(PacketSide::Serverbound, &handshake(3));
    assert_eq!(shared.state, PacketState::Handshaking);
}

#[test]
fn every_row_of_the_transition_table() {
    let states =
        [PacketState::Handshaking, PacketState::Status, PacketState::Login, PacketState::Play];
    let controls = [
        ControlPacket::Handshake(HandshakeNextState::Status),
        ControlPacket::Handshake(HandshakeNextState::Login),
        ControlPacket::LoginCompression(256),
        ControlPacket::LoginCompression(0),
        ControlPacket::LoginCompression(-1),
        ControlPacket::LoginSuccess,
    ];
    for state in states {
        for threshold in [None, Some(64u32)] {
            for control in controls {
                let mut shared = SessionState { state, threshold };
                shared.apply(control);
                let expected = match (state, control) {
                    (PacketState::Handshaking, ControlPacket::Handshake(next)) => SessionState {
                        state: match next {
                            HandshakeNextState::Status => PacketState::Status,
                            HandshakeNextState::Login => PacketState::Login,
                        },
                        threshold,
                    },
                    (PacketState::Login, ControlPacket::LoginCompression(t))
                        if t >= 0 && threshold.is_none() =>
                    {
                        SessionState { state, threshold: Some(t as u32) }
                    }
                    (PacketState::Login, ControlPacket::LoginSuccess) => {
                        SessionState { state: PacketState::Play, threshold }
                    }
                    _ => SessionState { state, threshold },
                };
                assert_eq!(shared, expected, "{:?} {:?} {:?}", state, threshold, control);
            }
        }
    }
}

#[test]
fn the_largest_threshold() {
    let mut shared = SessionState { state: PacketState::Login, threshold: None };
    shared.apply(ControlPacket::LoginCompression(i32::MAX));
    assert_eq!(shared.threshold, Some(2147483647));
}

#[test]
fn a_frame_means_something_only_in_its_state_and_direction() {
    let states =
        [PacketState::Handshaking, PacketState::Status, PacketState::Login, PacketState::Play];
    for state in states {
        for side in [PacketSide::Serverbound, PacketSide::Clientbound] {
            let expected = if state == PacketState::Handshaking && side == PacketSide::Serverbound
            {
                Some(ControlPacket::Handshake(HandshakeNextState::Login))
            } else {
                None
            };
            assert_eq!(control_of(state, side, &handshake(2)), expected);
            let logging_in = state == PacketState::Login && side == PacketSide::Clientbound;
            assert_eq!(
                control_of(state, side, &compression_notice(&[0x80, 0x02])),
                if logging_in { Some(ControlPacket::LoginCompression(256)) } else { None }
            );
            assert_eq!(
                control_of(state, side, &login_success()),
                if logging_in { Some(ControlPacket::LoginSuccess) } else { None }
            );
            assert_eq!(control_of(state, side, &PacketFrame { id: 9, body: vec![1, 2] }), None);
        }
    }
}
