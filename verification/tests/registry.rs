use proxy_lib::logger::Logger;
use proxy_lib::packet_io::PacketFrame;
use proxy_lib::packet_registry::{truncated, Packet, PacketRegistry, PacketSide, PacketState};

fn entry(side: PacketSide, state: PacketState, id: i32, name: &'static str) -> Packet {
    Packet { side, state, id, timestamp: None, name, data: None }
}

fn sample_registry() -> PacketRegistry {
    let mut registry = PacketRegistry::new();
    registry.register(entry(PacketSide::Serverbound, PacketState::Handshaking, 0, "HandshakeC2S"));
    registry.register_all(vec![
        entry(PacketSide::Serverbound, PacketState::Status, 0, "QueryRequestC2S"),
        entry(PacketSide::Serverbound, PacketState::Status, 1, "QueryPingC2S"),
        entry(PacketSide::Clientbound, PacketState::Status, 0, "QueryResponseS2C"),
        entry(PacketSide::Clientbound, PacketState::Login, 2, "LoginSuccessS2C"),
        entry(PacketSide::Clientbound, PacketState::Login, 3, "LoginCompressionS2C"),
    ]);
    registry
}

#[test]
fn registry_keeps_entries_in_order() {
    let registry = sample_registry();
    assert_eq!(registry.len(), 6);
    assert_eq!(registry.packets[0].name, "HandshakeC2S");
    assert_eq!(registry.packets[1].name, "QueryRequestC2S");
    assert_eq!(registry.packets[5].name, "LoginCompressionS2C");
    assert_eq!(PacketRegistry::new().len(), 0);
}

#[test]
fn lookup_finds_the_entry_for_side_state_and_id() {
    let registry = sample_registry();
    assert_eq!(
        registry.get_specific_packet(PacketSide::Serverbound, PacketState::Status, 1),
        entry(PacketSide::Serverbound, PacketState::Status, 1, "QueryPingC2S")
    );
    assert_eq!(
        registry.get_specific_packet(PacketSide::Clientbound, PacketState::Status, 0),
        entry(PacketSide::Clientbound, PacketState::Status, 0, "QueryResponseS2C")
    );
    assert_eq!(
        registry.get_specific_packet(PacketSide::Serverbound, PacketState::Handshaking, 0),
        entry(PacketSide::Serverbound, PacketState::Handshaking, 0, "HandshakeC2S")
    );
}

#[test]
fn lookup_of_an_unknown_packet_keeps_what_was_asked() {
    let registry = sample_registry();
    for (side, state, id) in [
        (PacketSide::Clientbound, PacketState::Play, 0x24),
        (PacketSide::Serverbound, PacketState::Status, 2),
        (PacketSide::Clientbound, PacketState::Handshaking, 0),
        (PacketSide::Serverbound, PacketState::Login, -1),
    ] {
        assert_eq!(
            registry.get_specific_packet(side, state, id),
            entry(side, state, id, "Unknown Packet")
        );
    }
    assert_eq!(
        PacketRegistry::new().get_specific_packet(PacketSide::Serverbound, PacketState::Play, 7),
        entry(PacketSide::Serverbound, PacketState::Play, 7, "Unknown Packet")
    );
}

#[test]
fn lookup_takes_the_first_of_two_entries() {
    let mut registry = sample_registry();
    registry.register(entry(PacketSide::Serverbound, PacketState::Status, 1, "Later"));
    assert_eq!(
        registry.get_specific_packet(PacketSide::Serverbound, PacketState::Status, 1).name,
        "QueryPingC2S"
    );
}

#[test]
fn process_builds_the_observed_packet() {
    let registry = sample_registry();
    let frame = PacketFrame { id: 3, body: vec![0x80, 0x02] };
    let packet = registry.process(
        PacketSide::Clientbound,
        PacketState::Login,
        None,
        &frame,
        Some(1_700_000_000_000_000_000),
    );
    assert_eq!(
        packet,
        Packet {
            side: PacketSide::Clientbound,
            state: PacketState::Login,
            id: 3,
            timestamp: Some(1_700_000_000_000_000_000),
            name: "LoginCompressionS2C",
            data: Some(vec![0x80, 0x02]),
        }
    );
}

#[test]
fn process_of_an_unknown_frame() {
    let registry = sample_registry();
    let frame = PacketFrame { id: 0x6f, body: vec![] };
    let packet = registry.process(PacketSide::Clientbound, PacketState::Play, Some(256), &frame, None);
    assert_eq!(
        packet,
        Packet {
            side: PacketSide::Clientbound,
            state: PacketState::Play,
            id: 0x6f,
            timestamp: None,
            name: "Unknown Packet",
            data: Some(vec![]),
        }
    );
}

#[test]
fn duplicate_copies_every_field() {
    let packet = Packet {
        side: PacketSide::Serverbound,
        state: PacketState::Play,
        id: 9,
        timestamp: Some(-5),
        name: "Nine",
        data: Some(vec![1, 2, 3]),
    };
    assert_eq!(packet.duplicate(), packet);
    assert!(packet.is(PacketSide::Serverbound, PacketState::Play, 9));
    assert!(!packet.is(PacketSide::Clientbound, PacketState::Play, 9));
    assert!(!packet.is(PacketSide::Serverbound, PacketState::Login, 9));
    assert!(!packet.is(PacketSide::Serverbound, PacketState::Play, 8));
}

#[test]
fn truncated_keeps_short_text() {
    assert_eq!(truncated("hello".to_string(), 5), "hello");
    assert_eq!(truncated("hello".to_string(), 512), "hello");
    assert_eq!(truncated(String::new(), 0), "");
}

#[test]
fn truncated_cuts_long_text_and_marks_it() {
    assert_eq!(truncated("hello world".to_string(), 5), "hello...");
    assert_eq!(truncated("hello".to_string(), 4), "hell...");
    assert_eq!(truncated("hello".to_string(), 0), "...");
    let long = "x".repeat(600);
    let cut = truncated(long, 512);
    assert_eq!(cut.len(), 515);
    assert_eq!(cut, format!("{}...", "x".repeat(512)));
}

#[test]
fn truncated_counts_bytes_not_characters() {
    // Two bytes for each of the three letters.
    assert_eq!(truncated("äöü".to_string(), 6), "äöü");
    assert_eq!(truncated("äöü".to_string(), 4), "äö...");
    assert_eq!(truncated("äöü".to_string(), 2), "ä...");
}

#[test]
fn logger_keeps_every_frame_in_order() {
    let mut logger = Logger::new();
    assert_eq!(logger.len(), 0);
    logger.log(
        "HandshakeC2S".to_string(),
        PacketSide::Serverbound,
        PacketFrame { id: 0, body: vec![1] },
    );
    logger.log(
        "Unknown Packet".to_string(),
        PacketSide::Clientbound,
        PacketFrame { id: 9, body: vec![] },
    );
    assert_eq!(logger.len(), 2);
    assert_eq!(
        logger.packets[0],
        ("HandshakeC2S".to_string(), PacketSide::Serverbound, PacketFrame { id: 0, body: vec![1] })
    );
    assert_eq!(
        logger.packets[1],
        ("Unknown Packet".to_string(), PacketSide::Clientbound, PacketFrame { id: 9, body: vec![] })
    );
}
