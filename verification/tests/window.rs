use proxy_lib::packet_registry::{Packet, PacketRegistry, PacketSide, PacketState};
use proxy_lib::shared_state::{Event, SharedState};
use proxy_lib::tabs::{About, Connection, Filter, HexView, JsonView, PacketList, Tab};
use proxy_lib::time_text::systemtime_strftime;

fn entry(side: PacketSide, state: PacketState, id: i32, name: &'static str) -> Packet {
    Packet { side, state, id, timestamp: None, name, data: None }
}

fn known_packets() -> PacketRegistry {
    let mut registry = PacketRegistry::new();
    registry.register_all(vec![
        entry(PacketSide::Serverbound, PacketState::Handshaking, 0, "HandshakeC2S"),
        entry(PacketSide::Serverbound, PacketState::Status, 0, "QueryRequestC2S"),
        entry(PacketSide::Clientbound, PacketState::Status, 0, "QueryResponseS2C"),
    ]);
    registry
}

#[test]
fn tabs_have_their_names() {
    assert_eq!(About::new().name(), "About");
    assert_eq!(Connection::new().name(), "Connection");
    assert_eq!(Filter::new().name(), "Filters");
    assert_eq!(HexView::new().name(), "Hex Viewer");
    assert_eq!(JsonView::new().name(), "Json Viewer");
    assert_eq!(PacketList::new().name(), "Packets");
}

#[test]
fn a_new_window_lists_every_known_packet() {
    let state = SharedState::new(&known_packets());
    assert_eq!(state.listener_addr, "127.0.0.1:25566");
    assert_eq!(state.server_addr, "127.0.0.1:25565");
    assert!(!state.is_listening);
    assert_eq!(state.selected_packet, None);
    assert!(state.packets.is_empty());
    assert_eq!(
        state.packet_filter,
        vec![
            (entry(PacketSide::Serverbound, PacketState::Handshaking, 0, "HandshakeC2S"), true),
            (entry(PacketSide::Serverbound, PacketState::Status, 0, "QueryRequestC2S"), true),
            (entry(PacketSide::Clientbound, PacketState::Status, 0, "QueryResponseS2C"), true),
        ]
    );
}

#[test]
fn events_switch_listening() {
    let mut state = SharedState::new(&known_packets());
    state.apply_event(Event::PacketReceived);
    assert!(!state.is_listening);
    state.apply_event(Event::StartListening);
    assert!(state.is_listening);
    state.apply_event(Event::StartListening);
    assert!(state.is_listening);
    state.apply_event(Event::PacketReceived);
    assert!(state.is_listening);
    state.apply_event(Event::StopListening);
    assert!(!state.is_listening);
    state.apply_event(Event::StopListening);
    assert!(!state.is_listening);
}

#[test]
fn merge_keeps_what_was_chosen_and_lists_what_is_new() {
    let mut saved = SharedState::new(&PacketRegistry::new());
    saved.listener_addr = "0.0.0.0:1".to_string();
    saved.server_addr = "10.0.0.1:2".to_string();
    saved.packet_filter = vec![
        // Known under an older name: the choice is kept, the name is the table's.
        (entry(PacketSide::Serverbound, PacketState::Status, 0, "OldName"), false),
        // A second entry for the same packet does not count.
        (entry(PacketSide::Serverbound, PacketState::Status, 0, "QueryRequestC2S"), true),
        // No longer known: dropped.
        (entry(PacketSide::Clientbound, PacketState::Play, 9, "Gone"), false),
        (entry(PacketSide::Clientbound, PacketState::Status, 0, "QueryResponseS2C"), true),
    ];
    let merged = saved.merge(&known_packets());
    assert_eq!(merged.listener_addr, "0.0.0.0:1");
    assert_eq!(merged.server_addr, "10.0.0.1:2");
    assert_eq!(
        merged.packet_filter,
        vec![
            (entry(PacketSide::Serverbound, PacketState::Handshaking, 0, "HandshakeC2S"), true),
            (entry(PacketSide::Serverbound, PacketState::Status, 0, "QueryRequestC2S"), false),
            (entry(PacketSide::Clientbound, PacketState::Status, 0, "QueryResponseS2C"), true),
        ]
    );
    assert!(merged.lists(PacketSide::Serverbound, PacketState::Handshaking, 0));
    assert!(!merged.lists(PacketSide::Serverbound, PacketState::Status, 0));
    // What the filter does not mention is listed.
    assert!(merged.lists(PacketSide::Clientbound, PacketState::Play, 9));
}

#[test]
fn packets_are_listed_selected_and_cleared() {
    let mut state = SharedState::new(&known_packets());
    state.packet_filter[1].1 = false;
    state.push_packet(entry(PacketSide::Serverbound, PacketState::Handshaking, 0, "HandshakeC2S"));
    state.push_packet(entry(PacketSide::Serverbound, PacketState::Status, 0, "QueryRequestC2S"));
    state.push_packet(entry(PacketSide::Clientbound, PacketState::Play, 5, "Unknown Packet"));
    assert_eq!(state.packets.len(), 3);
    assert!(state.is_listed(0));
    assert!(!state.is_listed(1));
    assert!(state.is_listed(2));
    assert!(!state.is_selected(1));
    state.selected_packet = Some(1);
    assert!(state.is_selected(1));
    assert!(!state.is_selected(0));
    state.clear();
    assert!(state.packets.is_empty());
    assert_eq!(state.selected_packet, None);
    assert_eq!(state.packet_filter.len(), 3);
    assert!(!state.packet_filter[1].1);
}

#[test]
fn clock_text_pads_with_zeros() {
    assert_eq!(systemtime_strftime(9, 5, 0, 42), "09:05:00.0042");
    assert_eq!(systemtime_strftime(0, 0, 0, 0), "00:00:00.0000");
    assert_eq!(systemtime_strftime(23, 59, 59, 999), "23:59:59.0999");
    assert_eq!(systemtime_strftime(10, 20, 30, 1234), "10:20:30.1234");
}

#[test]
fn clock_text_keeps_digits_beyond_the_width() {
    assert_eq!(systemtime_strftime(255, 100, 7, 65535), "255:100:07.65535");
    assert_eq!(systemtime_strftime(1, 2, 3, 10000), "01:02:03.10000");
}
