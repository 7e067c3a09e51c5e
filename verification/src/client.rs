//! One proxied connection pair: what the session knows of the protocol, learnt from the
//! frames that pass, and the relay step that decodes a frame from one side, classifies it
//! and encodes it for the other.

use crate::error::ProxyError;
use crate::packet_io::{
    parse_frame, payload_bytes, wire_frame, FrameParse, PacketFrame, PacketIo, PacketIoReader,
    PacketIoWriter,
};
use crate::packet_registry::{observed, Packet, PacketRegistry, PacketSide, PacketState};
use crate::packets::{
    extrapolate_handshake, extrapolate_login_compression, extrapolate_login_success, handshake_in,
    login_compression_in, login_success_in, HandshakeNextState,
};
use vstd::prelude::*;

verus! {

/// What the two directions of a session share: the protocol state, and the compression
/// threshold once the server has announced one.
#[derive(Copy, Clone, Debug, PartialEq, Eq, Structural)]
pub struct SessionState {
    pub state: PacketState,
    pub threshold: Option<u32>,
}

/// What a passing frame can mean to a session.
#[derive(Copy, Clone, Debug, PartialEq, Eq, Structural)]
pub enum ControlPacket {
    /// The client's handshake, which asks for a state.
    Handshake(HandshakeNextState),
    /// The server's compression notice, with its threshold.
    LoginCompression(i32),
    /// The server's word that the login is done.
    LoginSuccess,
}

/// One frame as a session sees it pass: its direction, its id and its body.
pub ghost struct Observation {
    pub side: PacketSide,
    pub id: i32,
    pub body: Seq<u8>,
}

/// What a frame means to a session in state `state`. A session that handshakes looks for
/// the client's handshake; a session that logs in looks for the server's compression notice
/// and login success. A frame that is none of these, by its id or by its body, means
/// nothing, and so does every frame in another state or from the other side.
pub open spec fn control_in(state: PacketState, seen: Observation) -> Option<ControlPacket> {
    match (seen.side, state) {
        (PacketSide::Serverbound, PacketState::Handshaking) => match handshake_in(
            seen.id,
            seen.body,
        ) {
            Some(handshake) => Some(ControlPacket::Handshake(handshake.next_state)),
            None => None,
        },
        (PacketSide::Clientbound, PacketState::Login) => match login_compression_in(
            seen.id,
            seen.body,
        ) {
            Some(notice) => Some(ControlPacket::LoginCompression(notice.threshold)),
            None => if login_success_in(seen.id, seen.body) is Some {
                Some(ControlPacket::LoginSuccess)
            } else {
                None
            },
        },
        _ => None,
    }
}

/// What a session knows after a control packet.
///
/// | state       | packet                                    | after            |
/// |-------------|-------------------------------------------|------------------|
/// | Handshaking | handshake that asks for status            | Status           |
/// | Handshaking | handshake that asks for login             | Login            |
/// | Login       | notice, threshold not negative, none set  | threshold is set |
/// | Login       | login success                             | Play             |
///
/// Everything else changes nothing.
pub open spec fn shared_on(shared: SessionState, control: ControlPacket) -> SessionState {
    match (shared.state, control) {
        (PacketState::Handshaking, ControlPacket::Handshake(HandshakeNextState::Status)) => {
            SessionState { state: PacketState::Status, ..shared }
        },
        (PacketState::Handshaking, ControlPacket::Handshake(HandshakeNextState::Login)) => {
            SessionState { state: PacketState::Login, ..shared }
        },
        (PacketState::Login, ControlPacket::LoginCompression(threshold)) => {
            if threshold >= 0 && shared.threshold is None {
                SessionState { threshold: Some(threshold as u32), ..shared }
            } else {
                shared
            }
        },
        (PacketState::Login, ControlPacket::LoginSuccess) => {
            SessionState { state: PacketState::Play, ..shared }
        },
        _ => shared,
    }
}

/// What a session knows after a frame has passed.
pub open spec fn shared_after(shared: SessionState, seen: Observation) -> SessionState {
    match control_in(shared.state, seen) {
        Some(control) => shared_on(shared, control),
        None => shared,
    }
}

/// What a session knows after the frames of `seen` have passed, in their order.
pub open spec fn shared_after_all(shared: SessionState, seen: Seq<Observation>) -> SessionState
    decreases seen.len(),
{
    if seen.len() == 0 {
        shared
    } else {
        shared_after(shared_after_all(shared, seen.drop_last()), seen.last())
    }
}

/// Whether a session that is in state `from` can be in state `to` later: it stays where it
/// is, leaves `Handshaking`, or goes from `Login` to `Play`.
pub open spec fn may_follow(from: PacketState, to: PacketState) -> bool {
    from == to || from == PacketState::Handshaking || (from == PacketState::Login && to
        == PacketState::Play)
}

/// No control packet takes the protocol state back, none takes it to `Play` from anywhere
/// but `Login`, none takes it out of `Status` or `Play`, and none changes a threshold that
/// is set.
pub proof fn lemma_control_advances(shared: SessionState, control: ControlPacket)
    ensures
        may_follow(shared.state, shared_on(shared, control).state),
        shared_on(shared, control).state == PacketState::Play ==> shared.state
            == PacketState::Play || shared.state == PacketState::Login,
        shared.state == PacketState::Status ==> shared_on(shared, control).state
            == PacketState::Status,
        shared.state == PacketState::Play ==> shared_on(shared, control).state
            == PacketState::Play,
        shared.threshold is Some ==> shared_on(shared, control).threshold == shared.threshold,
{
}

/// No frame takes the protocol state back, none takes it to `Play` from anywhere but
/// `Login`, none takes it out of `Status` or `Play`, and none changes a threshold that is
/// set.
pub proof fn lemma_state_advances(shared: SessionState, seen: Observation)
    ensures
        may_follow(shared.state, shared_after(shared, seen).state),
        shared_after(shared, seen).state == PacketState::Play ==> shared.state
            == PacketState::Play || shared.state == PacketState::Login,
        shared.state == PacketState::Status ==> shared_after(shared, seen).state
            == PacketState::Status,
        shared.state == PacketState::Play ==> shared_after(shared, seen).state
            == PacketState::Play,
        shared.threshold is Some ==> shared_after(shared, seen).threshold == shared.threshold,
{
}

/// Whatever frames pass, the protocol state never goes back.
pub proof fn lemma_state_never_regresses(shared: SessionState, seen: Seq<Observation>)
    ensures
        may_follow(shared.state, shared_after_all(shared, seen).state),
    decreases seen.len(),
{
    if seen.len() > 0 {
        lemma_state_never_regresses(shared, seen.drop_last());
        lemma_state_advances(shared_after_all(shared, seen.drop_last()), seen.last());
    }
}

/// A session that reaches `Play` was in `Login` before: after some of the frames that took
/// it there, it was in `Login`.
pub proof fn lemma_play_only_after_login(shared: SessionState, seen: Seq<Observation>)
    requires
        shared.state != PacketState::Play,
        shared_after_all(shared, seen).state == PacketState::Play,
    ensures
        exists|k: int|
            0 <= k < seen.len() && (#[trigger] shared_after_all(shared, seen.take(k))).state
                == PacketState::Login,
    decreases seen.len(),
{
    if seen.len() > 0 {
        let before = shared_after_all(shared, seen.drop_last());
        lemma_state_advances(before, seen.last());
        assert(seen.drop_last() =~= seen.take(seen.len() - 1));
        if before.state == PacketState::Login {
            assert(shared_after_all(shared, seen.take(seen.len() - 1)).state
                == PacketState::Login);
        } else {
            lemma_play_only_after_login(shared, seen.drop_last());
            let k = choose|k: int|
                0 <= k < seen.drop_last().len() && (#[trigger] shared_after_all(
                    shared,
                    seen.drop_last().take(k),
                )).state == PacketState::Login;
            assert(seen.drop_last().take(k) =~= seen.take(k));
        }
    }
}

/// A session in `Status` stays there, whatever frames pass.
pub proof fn lemma_status_is_final(shared: SessionState, seen: Seq<Observation>)
    requires
        shared.state == PacketState::Status,
    ensures
        shared_after_all(shared, seen).state == PacketState::Status,
    decreases seen.len(),
{
    if seen.len() > 0 {
        lemma_status_is_final(shared, seen.drop_last());
    }
}

/// A compression threshold that is set stays as it is, whatever frames pass.
pub proof fn lemma_threshold_set_once(shared: SessionState, seen: Seq<Observation>)
    requires
        shared.threshold is Some,
    ensures
        shared_after_all(shared, seen).threshold == shared.threshold,
    decreases seen.len(),
{
    if seen.len() > 0 {
        lemma_threshold_set_once(shared, seen.drop_last());
    }
}

/// The frames of `first` and then those of `then` take a session where those of `then` take
/// it from where those of `first` took it.
pub proof fn lemma_shared_after_concat(
    shared: SessionState,
    first: Seq<Observation>,
    then: Seq<Observation>,
)
    ensures
        shared_after_all(shared, first + then) == shared_after_all(
            shared_after_all(shared, first),
            then,
        ),
    decreases then.len(),
{
    if then.len() == 0 {
        assert(first + then =~= first);
    } else {
        assert((first + then).drop_last() =~= first + then.drop_last());
        assert((first + then).last() == then.last());
        lemma_shared_after_concat(shared, first, then.drop_last());
    }
}

/// Between any two moments of a session the state has not gone back, and a threshold that
/// was set at the first is the same at the second.
pub proof fn lemma_session_history(
    shared: SessionState,
    first: Seq<Observation>,
    then: Seq<Observation>,
)
    ensures
        may_follow(
            shared_after_all(shared, first).state,
            shared_after_all(shared, first + then).state,
        ),
        shared_after_all(shared, first).threshold is Some ==> shared_after_all(
            shared,
            first + then,
        ).threshold == shared_after_all(shared, first).threshold,
{
    let middle = shared_after_all(shared, first);
    lemma_shared_after_concat(shared, first, then);
    lemma_state_never_regresses(middle, then);
    if middle.threshold is Some {
        lemma_threshold_set_once(middle, then);
    }
}

/// What `frame`, passing in direction `side`, means to a session in state `state`.
pub fn control_of(state: PacketState, side: PacketSide, frame: &PacketFrame) -> (control: Option<
    ControlPacket,
>)
    ensures
        control == control_in(state, Observation { side, id: frame.id, body: frame.body@ }),
{
    match (side, state) {
        (PacketSide::Serverbound, PacketState::Handshaking) => {
            match extrapolate_handshake(frame) {
                Some(handshake) => Some(ControlPacket::Handshake(handshake.next_state)),
                None => None,
            }
        },
        (PacketSide::Clientbound, PacketState::Login) => {
            match extrapolate_login_compression(frame) {
                Some(notice) => Some(ControlPacket::LoginCompression(notice.threshold)),
                None => if extrapolate_login_success(frame).is_some() {
                    Some(ControlPacket::LoginSuccess)
                } else {
                    None
                },
            }
        },
        _ => None,
    }
}

impl SessionState {
    /// What a session knows when it starts: it is handshaking, and nothing is compressed.
    pub fn new() -> (shared: SessionState)
        ensures
            shared == (SessionState { state: PacketState::Handshaking, threshold: None }),
    {
        SessionState { state: PacketState::Handshaking, threshold: None }
    }

    /// Takes note of a control packet.
    pub fn apply(&mut self, control: ControlPacket)
        ensures
            *final(self) == shared_on(*old(self), control),
            may_follow(old(self).state, final(self).state),
            old(self).threshold is Some ==> final(self).threshold == old(self).threshold,
    {
        match (self.state, control) {
            (PacketState::Handshaking, ControlPacket::Handshake(next_state)) => {
                self.state = match next_state {
                    HandshakeNextState::Status => PacketState::Status,
                    HandshakeNextState::Login => PacketState::Login,
                };
            },
            (PacketState::Login, ControlPacket::LoginCompression(threshold)) => {
                if threshold >= 0 && self.threshold.is_none() {
                    self.threshold = Some(threshold as u32);
                }
            },
            (PacketState::Login, ControlPacket::LoginSuccess) => {
                self.state = PacketState::Play;
            },
            _ => {},
        }
    }

    /// Takes note of a frame that passes in direction `side`.
    pub fn observe(&mut self, side: PacketSide, frame: &PacketFrame)
        ensures
            *final(self) == shared_after(
                *old(self),
                Observation { side, id: frame.id, body: frame.body@ },
            ),
            may_follow(old(self).state, final(self).state),
            old(self).threshold is Some ==> final(self).threshold == old(self).threshold,
    {
        if let Some(control) = control_of(self.state, side, frame) {
            self.apply(control);
        }
    }
}

/// What a relay step hands over: the packet for the observers, and the bytes to send on.
pub struct Relayed {
    pub packet: Packet,
    pub wire: Vec<u8>,
}

/// What a session holds: what it knows of the protocol, and the bytes that arrived from
/// each side and were not yet relayed.
pub ghost struct SessionView {
    pub shared: SessionState,
    pub from_client: Seq<u8>,
    pub from_server: Seq<u8>,
}

impl SessionView {
    /// The bytes that wait to travel in direction `side`.
    pub open spec fn waiting(self, side: PacketSide) -> Seq<u8> {
        match side {
            PacketSide::Serverbound => self.from_client,
            PacketSide::Clientbound => self.from_server,
        }
    }

    /// This session with `bytes` waiting to travel in direction `side`.
    pub open spec fn with_waiting(self, side: PacketSide, bytes: Seq<u8>) -> SessionView {
        match side {
            PacketSide::Serverbound => SessionView { from_client: bytes, ..self },
            PacketSide::Clientbound => SessionView { from_server: bytes, ..self },
        }
    }
}

/// One proxied connection pair: the reading and writing halves of the client's and the
/// server's codec, and what the two directions share.
pub struct ProxySession {
    client_reader: PacketIoReader,
    client_writer: PacketIoWriter,
    server_reader: PacketIoReader,
    server_writer: PacketIoWriter,
    shared: SessionState,
}

impl View for ProxySession {
    type V = SessionView;

    closed spec fn view(&self) -> SessionView {
        SessionView {
            shared: self.shared,
            from_client: self.client_reader@.buffered,
            from_server: self.server_reader@.buffered,
        }
    }
}

impl ProxySession {
    /// Whether the four halves read and write in their directions and all work under the
    /// session's compression threshold.
    pub closed spec fn wf(&self) -> bool {
        &&& self.client_reader@.direction == PacketSide::Serverbound
        &&& self.server_reader@.direction == PacketSide::Clientbound
        &&& self.client_reader@.threshold == self.shared.threshold
        &&& self.server_reader@.threshold == self.shared.threshold
        &&& self.client_writer@ == self.shared.threshold
        &&& self.server_writer@ == self.shared.threshold
    }

    /// A session at its start: handshaking, nothing compressed, nothing waiting.
    pub fn new() -> (session: ProxySession)
        ensures
            session.wf(),
            session@ == (SessionView {
                shared: SessionState { state: PacketState::Handshaking, threshold: None },
                from_client: Seq::empty(),
                from_server: Seq::empty(),
            }),
    {
        let (client_reader, client_writer) = PacketIo::new(PacketSide::Serverbound).split();
        let (server_reader, server_writer) = PacketIo::new(PacketSide::Clientbound).split();
        ProxySession {
            client_reader,
            client_writer,
            server_reader,
            server_writer,
            shared: SessionState::new(),
        }
    }

    /// The protocol state.
    pub fn state(&self) -> (state: PacketState)
        ensures
            state == self@.shared.state,
    {
        self.shared.state
    }

    /// The compression threshold, once the server has announced one.
    pub fn threshold(&self) -> (threshold: Option<u32>)
        ensures
            threshold == self@.shared.threshold,
    {
        self.shared.threshold
    }

    /// The number of bytes that wait to travel in direction `side`.
    pub fn waiting_len(&self, side: PacketSide) -> (n: usize)
        ensures
            n == self@.waiting(side).len(),
    {
        match side {
            PacketSide::Serverbound => self.client_reader.buffered_len(),
            PacketSide::Clientbound => self.server_reader.buffered_len(),
        }
    }

    /// Takes in what one read gave: from the client's connection for `Serverbound`, from the
    /// server's for `Clientbound`. A read that gave nothing means that the peer closed the
    /// connection, and ends the session.
    pub fn queue_bytes(&mut self, side: PacketSide, bytes: &[u8]) -> (r: Result<(), ProxyError>)
        requires
            old(self).wf(),
        ensures
            final(self).wf(),
            bytes@.len() == 0 ==> r == Err::<(), ProxyError>(ProxyError::Disconnected)
                && final(self)@ == old(self)@,
            bytes@.len() > 0 ==> r is Ok && final(self)@ == old(self)@.with_waiting(
                side,
                old(self)@.waiting(side) + bytes@,
            ),
    {
        match side {
            PacketSide::Serverbound => self.client_reader.queue_bytes(bytes),
            PacketSide::Clientbound => self.server_reader.queue_bytes(bytes),
        }
    }
}

/// What a relay step in direction `side` leaves of a session whose next frame in that
/// direction has number `id`, bytes `body` and took `consumed` bytes.
pub open spec fn session_after(
    session: SessionView,
    side: PacketSide,
    id: i32,
    body: Seq<u8>,
    consumed: nat,
) -> SessionView {
    SessionView {
        shared: shared_after(session.shared, Observation { side, id, body }),
        ..session.with_waiting(side, session.waiting(side).skip(consumed as int))
    }
}

/// One relay step in direction `side`: takes the next frame out of the bytes that wait in
/// that direction, lets the session learn from it, classifies it against `registry`, and
/// encodes it for the other side.
///
/// Where no whole frame waits, nothing changes and nothing is handed over. A frame is
/// classified under the state in which it arrived, and encoded under the threshold under
/// which it was decoded: a state or a threshold that the frame itself brings about holds
/// from the next frame on, the threshold for all four halves.
pub fn process(
    session: &mut ProxySession,
    registry: &PacketRegistry,
    side: PacketSide,
    timestamp: Option<i128>,
) -> (r: Result<Option<Relayed>, ProxyError>)
    requires
        old(session).wf(),
    ensures
        final(session).wf(),
        match parse_frame(old(session)@.waiting(side), old(session)@.shared.threshold) {
            FrameParse::Incomplete => r matches Ok(None) && final(session)@ == old(session)@,
            FrameParse::Malformed(e) => r matches Err(err) && err == e
                && final(session)@ == old(session)@,
            FrameParse::Frame { id, body, consumed } => final(session)@ == session_after(
                old(session)@,
                side,
                id,
                body,
                consumed,
            ) && match wire_frame(payload_bytes(id, body), old(session)@.shared.threshold) {
                Ok(wire) => r matches Ok(Some(relayed)) && relayed.wire@ == wire
                    && relayed.packet@ == observed(
                    registry@,
                    side,
                    old(session)@.shared.state,
                    id,
                    body,
                    timestamp,
                ) && parse_frame(wire, old(session)@.shared.threshold) == (FrameParse::Frame {
                    id,
                    body,
                    consumed: wire.len(),
                }),
                Err(e) => r matches Err(err) && err == e,
            },
        },
{
    let received = match side {
        PacketSide::Serverbound => session.client_reader.recv_packet_raw(),
        PacketSide::Clientbound => session.server_reader.recv_packet_raw(),
    };
    let frame = match received {
        Err(e) => {
            return Err(e);
        },
        Ok(None) => {
            return Ok(None);
        },
        Ok(Some(frame)) => frame,
    };
    let arrived_under = session.shared;
    session.shared.observe(side, &frame);
    let packet = registry.process(
        side,
        arrived_under.state,
        arrived_under.threshold,
        &frame,
        timestamp,
    );
    let sent = match side {
        PacketSide::Serverbound => session.server_writer.send_packet_raw(&frame),
        PacketSide::Clientbound => session.client_writer.send_packet_raw(&frame),
    };
    let threshold = session.shared.threshold;
    session.client_reader.set_compression(threshold);
    session.client_writer.set_compression(threshold);
    session.server_reader.set_compression(threshold);
    session.server_writer.set_compression(threshold);
    match sent {
        Ok(wire) => Ok(Some(Relayed { packet, wire })),
        Err(e) => Err(e),
    }
}

} // verus!
