//! The tracker: the registry of live peers, the assignment of a unique
//! peer-to-peer port to each, and the course of one peer's connection.
//!
//! A connection is driven from outside: the caller performs the action that
//! a step hands out (send these bytes, read a command) and comes back with
//! the event that followed. The registry is touched only inside a step, so a
//! lock around it is never held while the network is waited for.
use crate::networking::{
    be_bytes, frame, is_severed, was_connection_severed, write_buf, ByteStream, PeerAddr,
};
use std::collections::HashSet;
use std::io::ErrorKind;
use vstd::prelude::*;
use vstd::std_specs::iter::IteratorSpec;
use vstd::string::StringSliceAdditionalSpecFns;

verus! {

/// The first framed message that a tracker sends on a new connection.
pub const MAGIC_TRACKER_SEQUENCE: &'static str = "Clustered tracker!";

/// The port on which a tracker listens, unless it is told another.
pub const TRACKER_PORT: u16 = 1337;

/// The port that is tried first for a peer's peer-to-peer listener.
pub const BASE_P2P_PORT: u16 = 8008;

/// The command by which a peer asks the tracker for the other peers.
pub const COMMAND_LIST_PEERS: u8 = 1;

/// The bytes of the tracker's magic sequence.
pub open spec fn tracker_magic() -> Seq<u8> {
    MAGIC_TRACKER_SEQUENCE.spec_bytes()
}

/// The magic sequence is these eighteen bytes.
pub proof fn lemma_tracker_magic()
    ensures
        tracker_magic() == seq![
            0x43u8, 0x6c, 0x75, 0x73, 0x74, 0x65, 0x72, 0x65, 0x64, 0x20, 0x74, 0x72, 0x61, 0x63,
            0x6b, 0x65, 0x72, 0x21,
        ],
{
    reveal_strlit("Clustered tracker!");
    broadcast use vstd::string::is_ascii_spec_bytes;

    assert(vstd::string::is_ascii(MAGIC_TRACKER_SEQUENCE));
    assert(tracker_magic() =~= seq![
        0x43u8, 0x6c, 0x75, 0x73, 0x74, 0x65, 0x72, 0x65, 0x64, 0x20, 0x74, 0x72, 0x61, 0x63,
        0x6b, 0x65, 0x72, 0x21,
    ]);
}

/// The number under which the registry files a peer: its address in the high
/// bits, its port in the low sixteen.
spec fn addr_key(addr: PeerAddr) -> u64 {
    (addr.ip as u64 * 0x1_0000 + addr.port as u64) as u64
}

/// The first port from `from` upwards that no registered peer with address
/// `ip` holds, if there is one up to 65535.
pub open spec fn first_free_port(registry: Set<PeerAddr>, ip: u32, from: u16) -> Option<u16>
    decreases 0xffff - from,
{
    if !registry.contains(PeerAddr { ip, port: from }) {
        Some(from)
    } else if from == 0xffff {
        None
    } else {
        first_free_port(registry, ip, (from + 1) as u16)
    }
}

/// What `first_free_port` finds is free, every port before it is taken, and
/// it finds nothing only when every port is taken.
pub proof fn lemma_first_free_port(registry: Set<PeerAddr>, ip: u32, from: u16)
    ensures
        match first_free_port(registry, ip, from) {
            Some(port) => {
                &&& from <= port
                &&& !registry.contains(PeerAddr { ip, port })
                &&& forall|q: u16| from <= q < port ==> registry.contains(PeerAddr { ip, port: q })
            },
            None => forall|q: u16| from <= q ==> registry.contains(PeerAddr { ip, port: q }),
        },
    decreases 0xffff - from,
{
    if registry.contains(PeerAddr { ip, port: from }) && from != 0xffff {
        lemma_first_free_port(registry, ip, (from + 1) as u16);
    }
}

/// The set of peers that are connected to the tracker, each under the
/// identity that the tracker gave it.
pub struct PeerRegistry {
    peers: HashSet<u64>,
}

impl View for PeerRegistry {
    type V = Set<PeerAddr>;

    closed spec fn view(&self) -> Set<PeerAddr> {
        Set::new(|addr: PeerAddr| self.peers@.contains(addr_key(addr)))
    }
}

/// The number under which the registry files `addr`.
fn key_of(addr: PeerAddr) -> (key: u64)
    ensures
        key == addr_key(addr),
        key < 0x1_0000_0000_0000,
{
    addr.ip as u64 * 0x1_0000 + addr.port as u64
}

/// The peer that the registry files under `key`.
fn addr_of(key: u64) -> (addr: PeerAddr)
    requires
        key < 0x1_0000_0000_0000,
    ensures
        addr_key(addr) == key,
{
    PeerAddr { ip: (key / 0x1_0000) as u32, port: (key % 0x1_0000) as u16 }
}

impl PeerRegistry {
    /// Every number in the registry stands for a peer.
    pub closed spec fn wf(&self) -> bool {
        forall|key: u64| self.peers@.contains(key) ==> key < 0x1_0000_0000_0000
    }

    pub fn new() -> (registry: Self)
        ensures
            registry.wf(),
            registry@ == Set::<PeerAddr>::empty(),
    {
        let registry = PeerRegistry { peers: HashSet::new() };
        assert(registry@ =~= Set::<PeerAddr>::empty());
        registry
    }

    pub fn contains(&self, addr: PeerAddr) -> (found: bool)
        ensures
            found == self@.contains(addr),
    {
        let key = key_of(addr);
        self.peers.contains(&key)
    }

    /// Gives the peer at address `ip` a port that no registered peer with
    /// that address has, and registers the pair. Ports are tried from
    /// `BASE_P2P_PORT` upwards; when every one of them is taken, the peer is
    /// not registered.
    pub fn register(&mut self, ip: u32) -> (assigned: Option<u16>)
        requires
            old(self).wf(),
        ensures
            final(self).wf(),
            assigned == first_free_port(old(self)@, ip, BASE_P2P_PORT),
            assigned matches Some(port) ==> !old(self)@.contains(PeerAddr { ip, port })
                && final(self)@ == old(self)@.insert(PeerAddr { ip, port }),
            assigned is None ==> final(self)@ == old(self)@,
    {
        self.register_from(ip, BASE_P2P_PORT)
    }

    /// As `register`, with the ports tried from `first` upwards.
    pub fn register_from(&mut self, ip: u32, first: u16) -> (assigned: Option<u16>)
        requires
            old(self).wf(),
        ensures
            final(self).wf(),
            assigned == first_free_port(old(self)@, ip, first),
            assigned matches Some(port) ==> !old(self)@.contains(PeerAddr { ip, port })
                && final(self)@ == old(self)@.insert(PeerAddr { ip, port }),
            assigned is None ==> final(self)@ == old(self)@,
    {
        let mut port: u16 = first;
        loop
            invariant
                self.wf(),
                self@ == old(self)@,
                first_free_port(old(self)@, ip, first) == first_free_port(old(self)@, ip, port),
            decreases 0xffff - port,
        {
            let ghost before = self.peers@;
            let key = key_of(PeerAddr { ip, port });
            let is_unique = self.peers.insert(key);
            if is_unique {
                assert(self@ =~= old(self)@.insert(PeerAddr { ip, port }));
                return Some(port);
            }
            assert(self.peers@ =~= before);
            match port.checked_add(1) {
                Some(next) => {
                    port = next;
                },
                None => {
                    return None;
                },
            }
        }
    }

    /// Takes a peer out of the registry. Says whether it was there.
    pub fn evict(&mut self, addr: PeerAddr) -> (was_registered: bool)
        requires
            old(self).wf(),
        ensures
            final(self).wf(),
            was_registered == old(self)@.contains(addr),
            final(self)@ == old(self)@.remove(addr),
    {
        let key = key_of(addr);
        let was_registered = self.peers.remove(&key);
        assert(self@ =~= old(self)@.remove(addr));
        was_registered
    }

    /// The registered peers but `requester`, each once, in no particular
    /// order.
    pub fn list_except(&self, requester: PeerAddr) -> (peers: Vec<PeerAddr>)
        requires
            self.wf(),
        ensures
            peers@.no_duplicates(),
            peers@.to_set() == self@.remove(requester),
    {
        let mut peers: Vec<PeerAddr> = Vec::new();
        let ghost all: Seq<u64> = self.peers.iter().remaining().unref();
        let ghost mut seen: int = 0;
        proof {
            let left = self.peers.iter().remaining();
            assert(all.to_set() == self.peers@);
            assert forall|i: int, j: int|
                0 <= i < all.len() && 0 <= j < all.len() && i != j implies all[i] != all[j] by {
                assert(left[i] != left[j]);
            }
        }
        for key_ref in it: self.peers.iter()
            invariant
                self.wf(),
                seen == it.index(),
                it.seq().len() == all.len(),
                it.seq().unref() == all,
                all.no_duplicates(),
                all.to_set() == self.peers@,
                peers@.no_duplicates(),
                forall|addr: PeerAddr| #[trigger]
                    peers@.contains(addr) <==> addr != requester && exists|j: int|
                        0 <= j < seen && #[trigger] all[j] == addr_key(addr),
        {
            let ghost before = peers@;
            let key: u64 = *key_ref;
            proof {
                assert(it.seq().unref()[seen] == key);
                assert(all[seen] == key);
                assert(all.to_set().contains(key));
            }
            let addr = addr_of(key);
            if addr != requester {
                proof {
                    if before.contains(addr) {
                        let j = choose|j: int| 0 <= j < seen && #[trigger] all[j] == addr_key(addr);
                        assert(all[j] == all[seen]);
                    }
                }
                peers.push(addr);
                proof {
                    assert forall|other: PeerAddr| #[trigger]
                        peers@.contains(other) <==> other != requester && exists|j: int|
                            0 <= j < seen + 1 && #[trigger] all[j] == addr_key(other) by {
                        if peers@.contains(other) {
                            let at = choose|at: int| 0 <= at < peers@.len() && peers@[at] == other;
                            if at < before.len() {
                                assert(before[at] == other);
                                assert(before.contains(other));
                                let j = choose|j: int|
                                    0 <= j < seen && #[trigger] all[j] == addr_key(other);
                                assert(0 <= j < seen + 1 && all[j] == addr_key(other));
                            } else {
                                assert(all[seen] == addr_key(other));
                            }
                        }
                        if other != requester && exists|j: int|
                            0 <= j < seen + 1 && #[trigger] all[j] == addr_key(other) {
                            let j = choose|j: int|
                                0 <= j < seen + 1 && #[trigger] all[j] == addr_key(other);
                            if j < seen {
                                assert(before.contains(other));
                                let at = choose|at: int|
                                    0 <= at < before.len() && before[at] == other;
                                assert(peers@[at] == other);
                            } else {
                                assert(other == addr);
                                assert(peers@[before.len() as int] == other);
                            }
                        }
                    }
                }
            } else {
                proof {
                    assert forall|other: PeerAddr| #[trigger]
                        peers@.contains(other) <==> other != requester && exists|j: int|
                            0 <= j < seen + 1 && #[trigger] all[j] == addr_key(other) by {
                        if peers@.contains(other) {
                            let j = choose|j: int|
                                0 <= j < seen && #[trigger] all[j] == addr_key(other);
                            assert(0 <= j < seen + 1 && all[j] == addr_key(other));
                        }
                        if other != requester && exists|j: int|
                            0 <= j < seen + 1 && #[trigger] all[j] == addr_key(other) {
                            let j = choose|j: int|
                                0 <= j < seen + 1 && #[trigger] all[j] == addr_key(other);
                            assert(j < seen);
                        }
                    }
                }
            }
            proof {
                seen = seen + 1;
            }
        }
        proof {
            assert(seen == all.len());
            assert forall|addr: PeerAddr| peers@.to_set().contains(addr) <==> self@.remove(
                requester,
            ).contains(addr) by {
                if peers@.contains(addr) {
                    let j = choose|j: int| 0 <= j < seen && #[trigger] all[j] == addr_key(addr);
                    assert(all.contains(addr_key(addr)));
                    assert(all.to_set().contains(addr_key(addr)));
                }
                if self@.remove(requester).contains(addr) {
                    assert(all.to_set().contains(addr_key(addr)));
                    assert(all.contains(addr_key(addr)));
                    let j = choose|j: int| 0 <= j < all.len() && all[j] == addr_key(addr);
                    assert(0 <= j < seen && all[j] == addr_key(addr));
                }
            }
            assert(peers@.to_set() =~= self@.remove(requester));
        }
        peers
    }
}

/// Where one peer's connection to the tracker stands.
#[derive(Clone, Copy, Debug, PartialEq, Eq, Structural)]
pub enum TrackerState {
    /// The magic sequence is on its way to the peer.
    SendingMagic,
    /// The peer's own address is on its way to it.
    SendingIp,
    /// The peer is registered, and its port is on its way to it.
    SendingPort { port: u16 },
    /// The peer is registered, and its next command is awaited.
    AwaitingCommand { port: u16 },
    /// The peer is registered, and the list of the other peers is on its way
    /// to it.
    SendingPeerList { port: u16 },
    /// The connection is over.
    Closed,
}

/// What happened on the connection since the last step.
#[derive(Clone, Copy, Debug)]
pub enum TrackerEvent {
    /// What was to be sent has been sent.
    Sent,
    /// What was to be sent could not be sent.
    SendFailed(ErrorKind),
    /// The peer sent a command.
    Command(u8),
    /// No command could be read.
    ReadFailed(ErrorKind),
}

/// What is to be done on the connection next.
#[derive(Debug)]
pub enum TrackerAction {
    /// Send these bytes as they are.
    Send(Vec<u8>),
    /// Read one command byte.
    ReadCommand,
    /// Send these peers as one framed list.
    SendPeerList(Vec<PeerAddr>),
    /// Close the connection.
    Close,
}

/// A `TrackerAction` as specifications see it: the peers of a list form a set.
pub enum TrackerOutput {
    Send(Seq<u8>),
    ReadCommand,
    SendPeerList(Set<PeerAddr>),
    Close,
}

impl TrackerAction {
    /// Whether this action is `output`, with the listed peers named once each.
    pub open spec fn matches_output(self, output: TrackerOutput) -> bool {
        match self {
            TrackerAction::Send(bytes) => output == TrackerOutput::Send(bytes@),
            TrackerAction::ReadCommand => output == TrackerOutput::ReadCommand,
            TrackerAction::SendPeerList(peers) => peers@.no_duplicates() && output
                == TrackerOutput::SendPeerList(peers@.to_set()),
            TrackerAction::Close => output == TrackerOutput::Close,
        }
    }
}

/// The outcome of one step of a connection.
pub struct TrackerOutcome {
    pub state: TrackerState,
    pub output: TrackerOutput,
    /// Whether the step is worth a notice in the tracker's log. A peer that
    /// goes away is not.
    pub notice: bool,
    pub registry: Set<PeerAddr>,
}

/// The identity under which a connection in `state` is registered, if it is.
pub open spec fn registered_as(ip: u32, state: TrackerState) -> Option<PeerAddr> {
    match state {
        TrackerState::SendingPort { port } => Some(PeerAddr { ip, port }),
        TrackerState::AwaitingCommand { port } => Some(PeerAddr { ip, port }),
        TrackerState::SendingPeerList { port } => Some(PeerAddr { ip, port }),
        _ => None,
    }
}

/// The end of a connection: its peer, if registered, leaves the registry.
pub open spec fn closing(ip: u32, state: TrackerState, notice: bool, registry: Set<PeerAddr>)
    -> TrackerOutcome {
    TrackerOutcome {
        state: TrackerState::Closed,
        output: TrackerOutput::Close,
        notice,
        registry: match registered_as(ip, state) {
            Some(addr) => registry.remove(addr),
            None => registry,
        },
    }
}

/// The connection goes on with the peer's next command.
pub open spec fn serving(port: u16, notice: bool, registry: Set<PeerAddr>) -> TrackerOutcome {
    TrackerOutcome {
        state: TrackerState::AwaitingCommand { port },
        output: TrackerOutput::ReadCommand,
        notice,
        registry,
    }
}

/// The rules of a peer's connection to the tracker.
///
/// The peer is greeted with the framed magic sequence, then with its own
/// address. Only then is it given a port and registered, and told the port.
/// From then on it sends commands: `COMMAND_LIST_PEERS` is answered with the
/// registered peers but itself, any other command is noted and passed over.
/// A failure that means that the peer went away ends the connection in
/// silence; any other failure while the peer is served is noted, and the
/// connection goes on. However the connection ends, the peer leaves the
/// registry. An event that the state does not wait for ends the connection.
pub open spec fn tracker_transition(
    ip: u32,
    state: TrackerState,
    event: TrackerEvent,
    registry: Set<PeerAddr>,
) -> TrackerOutcome {
    match (state, event) {
        (TrackerState::SendingMagic, TrackerEvent::Sent) => TrackerOutcome {
            state: TrackerState::SendingIp,
            output: TrackerOutput::Send(be_bytes(ip as nat, 4)),
            notice: false,
            registry,
        },
        (TrackerState::SendingIp, TrackerEvent::Sent) => match first_free_port(
            registry,
            ip,
            BASE_P2P_PORT,
        ) {
            Some(port) => TrackerOutcome {
                state: TrackerState::SendingPort { port },
                output: TrackerOutput::Send(be_bytes(port as nat, 2)),
                notice: false,
                registry: registry.insert(PeerAddr { ip, port }),
            },
            None => closing(ip, state, true, registry),
        },
        (TrackerState::SendingPort { port }, TrackerEvent::Sent) => serving(port, false, registry),
        (TrackerState::AwaitingCommand { port }, TrackerEvent::Command(command)) => if command
            == COMMAND_LIST_PEERS {
            TrackerOutcome {
                state: TrackerState::SendingPeerList { port },
                output: TrackerOutput::SendPeerList(registry.remove(PeerAddr { ip, port })),
                notice: false,
                registry,
            }
        } else {
            serving(port, true, registry)
        },
        (TrackerState::AwaitingCommand { port }, TrackerEvent::ReadFailed(kind)) => if is_severed(
            kind,
        ) {
            closing(ip, state, false, registry)
        } else {
            serving(port, true, registry)
        },
        (TrackerState::SendingPeerList { port }, TrackerEvent::Sent) => serving(
            port,
            false,
            registry,
        ),
        (TrackerState::SendingPeerList { port }, TrackerEvent::SendFailed(kind)) => if is_severed(
            kind,
        ) {
            closing(ip, state, false, registry)
        } else {
            serving(port, true, registry)
        },
        (TrackerState::Closed, _) => closing(ip, state, false, registry),
        _ => closing(ip, state, true, registry),
    }
}

/// One peer's connection to the tracker.
#[derive(Clone, Copy, Debug)]
pub struct TrackerSession {
    /// The IPv4 address that the peer connected from.
    pub ip: u32,
    pub state: TrackerState,
}

/// The tracker's magic sequence as bytes.
pub fn tracker_magic_bytes() -> (magic: Vec<u8>)
    ensures
        magic@ == tracker_magic(),
{
    let mut magic: Vec<u8> = Vec::new();
    magic.extend_from_slice(MAGIC_TRACKER_SEQUENCE.as_bytes());
    magic
}

impl TrackerSession {
    /// Takes up a new connection. A peer without an IPv4 address is turned
    /// away; any other is sent the framed magic sequence.
    pub fn accept(peer_ip: Option<u32>) -> (r: (TrackerSession, TrackerAction))
        ensures
            match peer_ip {
                Some(ip) => {
                    &&& r.0.ip == ip
                    &&& r.0.state == TrackerState::SendingMagic
                    &&& r.1.matches_output(TrackerOutput::Send(frame(tracker_magic())))
                },
                None => r.0.state == TrackerState::Closed && r.1 is Close,
            },
    {
        match peer_ip {
            Some(ip) => {
                let mut greeting = ByteStream::new();
                let magic = tracker_magic_bytes();
                write_buf(&mut greeting, magic.as_slice());
                let bytes = greeting.drain();
                (TrackerSession { ip, state: TrackerState::SendingMagic }, TrackerAction::Send(bytes))
            },
            None => (TrackerSession { ip: 0, state: TrackerState::Closed }, TrackerAction::Close),
        }
    }

    /// The identity under which the peer is registered, if it is.
    pub fn registered(&self) -> (addr: Option<PeerAddr>)
        ensures
            addr == registered_as(self.ip, self.state),
    {
        match self.state {
            TrackerState::SendingPort { port } => Some(PeerAddr { ip: self.ip, port }),
            TrackerState::AwaitingCommand { port } => Some(PeerAddr { ip: self.ip, port }),
            TrackerState::SendingPeerList { port } => Some(PeerAddr { ip: self.ip, port }),
            _ => None,
        }
    }

    /// Ends the connection, and takes its peer out of the registry if it is
    /// registered.
    fn close(&mut self, registry: &mut PeerRegistry, notice: bool) -> (r: (TrackerAction, bool))
        requires
            old(registry).wf(),
        ensures
            final(registry).wf(),
            final(self).ip == old(self).ip,
            step_result(
                *final(self),
                r,
                final(registry)@,
                closing(old(self).ip, old(self).state, notice, old(registry)@),
            ),
    {
        match self.registered() {
            Some(addr) => {
                let _ = registry.evict(addr);
            },
            None => {},
        }
        self.state = TrackerState::Closed;
        (TrackerAction::Close, notice)
    }

    /// Goes on with the next command of the peer that listens on `port`.
    fn serve(&mut self, port: u16, notice: bool) -> (r: (TrackerAction, bool))
        ensures
            final(self).ip == old(self).ip,
            final(self).state == (TrackerState::AwaitingCommand { port }),
            r.0 is ReadCommand,
            r.1 == notice,
    {
        self.state = TrackerState::AwaitingCommand { port };
        (TrackerAction::ReadCommand, notice)
    }

    /// Takes the connection one step on, by the rules of `tracker_transition`:
    /// says what to do next and whether the step is worth a notice, and
    /// registers or evicts the peer where the rules say so.
    pub fn step(&mut self, event: TrackerEvent, registry: &mut PeerRegistry) -> (r: (
        TrackerAction,
        bool,
    ))
        requires
            old(registry).wf(),
        ensures
            final(registry).wf(),
            final(self).ip == old(self).ip,
            step_result(
                *final(self),
                r,
                final(registry)@,
                tracker_transition(old(self).ip, old(self).state, event, old(registry)@),
            ),
    {
        let ip = self.ip;
        match (self.state, event) {
            (TrackerState::SendingMagic, TrackerEvent::Sent) => {
                let mut out = ByteStream::new();
                out.write_u32(ip);
                self.state = TrackerState::SendingIp;
                (TrackerAction::Send(out.drain()), false)
            },
            (TrackerState::SendingIp, TrackerEvent::Sent) => {
                match registry.register(ip) {
                    Some(port) => {
                        let mut out = ByteStream::new();
                        out.write_u16(port);
                        self.state = TrackerState::SendingPort { port };
                        (TrackerAction::Send(out.drain()), false)
                    },
                    None => self.close(registry, true),
                }
            },
            (TrackerState::SendingPort { port }, TrackerEvent::Sent) => self.serve(port, false),
            (TrackerState::AwaitingCommand { port }, TrackerEvent::Command(command)) => {
                if command == COMMAND_LIST_PEERS {
                    let peers = registry.list_except(PeerAddr { ip, port });
                    self.state = TrackerState::SendingPeerList { port };
                    (TrackerAction::SendPeerList(peers), false)
                } else {
                    self.serve(port, true)
                }
            },
            (TrackerState::AwaitingCommand { port }, TrackerEvent::ReadFailed(kind)) => {
                if was_connection_severed(kind) {
                    self.close(registry, false)
                } else {
                    self.serve(port, true)
                }
            },
            (TrackerState::SendingPeerList { port }, TrackerEvent::Sent) => self.serve(port, false),
            (TrackerState::SendingPeerList { port }, TrackerEvent::SendFailed(kind)) => {
                if was_connection_severed(kind) {
                    self.close(registry, false)
                } else {
                    self.serve(port, true)
                }
            },
            (TrackerState::Closed, _) => self.close(registry, false),
            _ => self.close(registry, true),
        }
    }
}

/// Whether a step that left the connection as `session` and the registry as
/// `registry`, and that returned `r`, did what `outcome` says.
pub open spec fn step_result(
    session: TrackerSession,
    r: (TrackerAction, bool),
    registry: Set<PeerAddr>,
    outcome: TrackerOutcome,
) -> bool {
    &&& session.state == outcome.state
    &&& r.0.matches_output(outcome.output)
    &&& r.1 == outcome.notice
    &&& registry == outcome.registry
}

/// A tracker and the connections it has taken up, as specifications see
/// them.
pub struct TrackerWorld {
    pub registry: Set<PeerAddr>,
    pub sessions: Seq<TrackerSession>,
}

/// What can happen to a tracker: a peer connects from an IPv4 address, or one
/// of the connections goes through a step.
pub enum WorldEvent {
    Connect(u32),
    Step(int, TrackerEvent),
}

/// The identity under which connection `i` of `world` is registered, if it is.
pub open spec fn live_as(world: TrackerWorld, i: int) -> Option<PeerAddr> {
    registered_as(world.sessions[i].ip, world.sessions[i].state)
}

pub open spec fn world_next(world: TrackerWorld, event: WorldEvent) -> TrackerWorld {
    match event {
        WorldEvent::Connect(ip) => TrackerWorld {
            registry: world.registry,
            sessions: world.sessions.push(TrackerSession { ip, state: TrackerState::SendingMagic }),
        },
        WorldEvent::Step(i, event) => if 0 <= i < world.sessions.len() {
            let session = world.sessions[i];
            let outcome = tracker_transition(session.ip, session.state, event, world.registry);
            TrackerWorld {
                registry: outcome.registry,
                sessions: world.sessions.update(
                    i,
                    TrackerSession { ip: session.ip, state: outcome.state },
                ),
            }
        } else {
            world
        },
    }
}

/// The tracker after `events`, from an empty registry and no connection.
pub open spec fn world_after(events: Seq<WorldEvent>) -> TrackerWorld
    decreases events.len(),
{
    if events.len() == 0 {
        TrackerWorld { registry: Set::empty(), sessions: Seq::empty() }
    } else {
        world_next(world_after(events.drop_last()), events.last())
    }
}

/// The registry holds exactly the identities of the registered connections,
/// and no two connections are registered under one identity.
pub open spec fn registry_is_live(world: TrackerWorld) -> bool {
    &&& forall|addr: PeerAddr|
        world.registry.contains(addr) <==> exists|i: int|
            0 <= i < world.sessions.len() && #[trigger] live_as(world, i) == Some(addr)
    &&& forall|i: int, j: int|
        0 <= i < world.sessions.len() && 0 <= j < world.sessions.len() && i != j && live_as(
            world,
            i,
        ) is Some ==> #[trigger] live_as(world, i) != #[trigger] live_as(world, j)
}

proof fn lemma_world_next(world: TrackerWorld, event: WorldEvent)
    requires
        registry_is_live(world),
    ensures
        registry_is_live(world_next(world, event)),
{
    let next = world_next(world, event);
    match event {
        WorldEvent::Connect(ip) => {
            let n = world.sessions.len() as int;
            assert(live_as(next, n) is None);
            assert forall|i: int| 0 <= i < n implies live_as(next, i) == live_as(world, i) by {}
            assert forall|addr: PeerAddr|
                next.registry.contains(addr) <==> exists|i: int|
                    0 <= i < next.sessions.len() && #[trigger] live_as(next, i) == Some(addr) by {
                if next.registry.contains(addr) {
                    let i = choose|i: int|
                        0 <= i < world.sessions.len() && #[trigger] live_as(world, i) == Some(addr);
                    assert(live_as(next, i) == Some(addr));
                }
                if exists|i: int|
                    0 <= i < next.sessions.len() && #[trigger] live_as(next, i) == Some(addr) {
                    let i = choose|i: int|
                        0 <= i < next.sessions.len() && #[trigger] live_as(next, i) == Some(addr);
                    assert(live_as(world, i) == Some(addr));
                }
            }
            assert forall|i: int, j: int|
                0 <= i < next.sessions.len() && 0 <= j < next.sessions.len() && i != j && live_as(
                    next,
                    i,
                ) is Some implies #[trigger] live_as(next, i) != #[trigger] live_as(next, j) by {
                if j < n {
                    assert(live_as(world, i) != live_as(world, j));
                }
            }
        },
        WorldEvent::Step(at, step) => {
            if 0 <= at < world.sessions.len() {
                let session = world.sessions[at];
                let was = live_as(world, at);
                let now = live_as(next, at);
                lemma_first_free_port(world.registry, session.ip, BASE_P2P_PORT);
                assert forall|i: int| 0 <= i < world.sessions.len() && i != at implies live_as(
                    next,
                    i,
                ) == live_as(world, i) by {}
                // The step moves at most the identity of connection `at`.
                assert(next.registry == match (was, now) {
                    (Some(old_addr), None) => world.registry.remove(old_addr),
                    (None, Some(new_addr)) => world.registry.insert(new_addr),
                    _ => world.registry,
                });
                assert(was is Some && now is Some ==> was == now);
                assert(was is None && now is Some ==> !world.registry.contains(now->0));
                assert forall|addr: PeerAddr|
                    next.registry.contains(addr) <==> exists|i: int|
                        0 <= i < next.sessions.len() && #[trigger] live_as(next, i) == Some(
                            addr,
                        ) by {
                    if next.registry.contains(addr) {
                        if now == Some(addr) {
                            assert(live_as(next, at) == Some(addr));
                        } else {
                            assert(world.registry.contains(addr));
                            let i = choose|i: int|
                                0 <= i < world.sessions.len() && #[trigger] live_as(world, i)
                                    == Some(addr);
                            assert(i != at);
                            assert(live_as(next, i) == Some(addr));
                        }
                    }
                    if exists|i: int|
                        0 <= i < next.sessions.len() && #[trigger] live_as(next, i) == Some(addr) {
                        let i = choose|i: int|
                            0 <= i < next.sessions.len() && #[trigger] live_as(next, i) == Some(
                                addr,
                            );
                        if i != at {
                            assert(live_as(world, i) == Some(addr));
                            assert(world.registry.contains(addr));
                            assert(live_as(world, i) != live_as(world, at));
                        } else if was is Some {
                            assert(live_as(world, at) == Some(addr));
                        }
                    }
                }
                assert forall|i: int, j: int|
                    0 <= i < next.sessions.len() && 0 <= j < next.sessions.len() && i != j
                        && live_as(next, i) is Some implies #[trigger] live_as(next, i)
                    != #[trigger] live_as(next, j) by {
                    if i != at && j != at {
                        assert(live_as(world, i) != live_as(world, j));
                    } else if i == at {
                        if live_as(next, j) is Some {
                            assert(live_as(world, j) == live_as(next, j));
                            assert(world.registry.contains(live_as(world, j)->0));
                            if was is Some {
                                assert(live_as(world, at) != live_as(world, j));
                            }
                        }
                    } else {
                        assert(live_as(world, i) == live_as(next, i));
                        assert(world.registry.contains(live_as(world, i)->0));
                        if was is Some && now is Some {
                            assert(live_as(world, i) != live_as(world, at));
                        }
                    }
                }
            }
        },
    }
}

/// Whatever happens to a tracker, its registry holds exactly the identities
/// of the connections that are registered and not yet over, and no identity
/// is shared by two of them.
pub proof fn lemma_registry_is_live(events: Seq<WorldEvent>)
    ensures
        registry_is_live(world_after(events)),
    decreases events.len(),
{
    if events.len() > 0 {
        lemma_registry_is_live(events.drop_last());
        lemma_world_next(world_after(events.drop_last()), events.last());
    }
}

} // verus!
