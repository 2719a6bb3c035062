//! The peer: its queue of tasks, its registry of awaited results, the
//! submission of work, the scheduler's choices, work stealing, and the
//! peer-to-peer protocol.
//!
//! Whatever waits (a socket, the GPU, a sleep) is done by the caller. The
//! functions here decide: they take what happened and say what is to be done
//! next, and they touch the queue and the registry only for the length of a
//! call.
use crate::networking::{
    be_bytes, be_value, frame, frame_len, frame_missing, frame_payload, frame_ready, frame_rest,
    is_severed,
    lemma_be_bytes_len, lemma_be_value_of_bytes, lemma_frame_round_trip, lemma_pow256_values,
    pow256, read_buf, was_connection_severed, write_buf, ByteStream, PeerAddr,
};
use crate::serialisable_program::SerialisableProgram;
use crate::tracker::{tracker_magic, tracker_magic_bytes};
use std::collections::HashMap;
use std::io::ErrorKind;
use uuid::Uuid;
use vstd::prelude::*;
use vstd::string::StringSliceAdditionalSpecFns;

verus! {

/// The first framed message on a connection between two peers.
pub const MAGIC_PEER2PEER_SEQUENCE: &'static str = "Clustered peer2peer, yay!";

/// The scheduler looks for work elsewhere while it runs a task, unless more
/// than this many tasks are left in its queue.
pub const MINIMUM_TASKS_BEFORE_START_STEALING_TRESH: usize = 5;

/// A peer with no more than this many tasks in its queue gives none away.
pub const NO_STEAL_TRESHOLD: usize = 1;

/// For how many milliseconds a run of work stealing rests when the tracker
/// knows no other peer.
pub const STEAL_REST_MILLIS: u64 = 100;

/// The command by which a peer asks another for a task.
pub const COMMAND_STEAL: u8 = 1;

/// The command by which a peer hands a task's result to its owner.
pub const COMMAND_DELIVER: u8 = 2;

/// The bytes of the peer-to-peer magic sequence.
pub open spec fn peer_magic() -> Seq<u8> {
    MAGIC_PEER2PEER_SEQUENCE.spec_bytes()
}

/// The magic sequence is these twenty-five bytes.
pub proof fn lemma_peer_magic()
    ensures
        peer_magic() == seq![
            0x43u8, 0x6c, 0x75, 0x73, 0x74, 0x65, 0x72, 0x65, 0x64, 0x20, 0x70, 0x65, 0x65, 0x72,
            0x32, 0x70, 0x65, 0x65, 0x72, 0x2c, 0x20, 0x79, 0x61, 0x79, 0x21,
        ],
{
    reveal_strlit("Clustered peer2peer, yay!");
    broadcast use vstd::string::is_ascii_spec_bytes;

    assert(vstd::string::is_ascii(MAGIC_PEER2PEER_SEQUENCE));
    assert(peer_magic() =~= seq![
        0x43u8, 0x6c, 0x75, 0x73, 0x74, 0x65, 0x72, 0x65, 0x64, 0x20, 0x70, 0x65, 0x65, 0x72,
        0x32, 0x70, 0x65, 0x65, 0x72, 0x2c, 0x20, 0x79, 0x61, 0x79, 0x21,
    ]);
}

/// A capsule on its way through the cluster: the program, the peer that owns
/// the task and awaits its result, and the task's id.
#[derive(Debug)]
pub struct Task {
    pub return_addr: PeerAddr,
    pub program: SerialisableProgram,
    pub id: u128,
}

/// The tasks that a peer has taken on and not yet started. The newest task
/// leaves first.
pub struct TaskQueue {
    tasks: Vec<Task>,
}

impl View for TaskQueue {
    type V = Seq<Task>;

    closed spec fn view(&self) -> Seq<Task> {
        self.tasks@
    }
}

/// What a steal takes from a queue that holds `tasks`: the newest task, unless
/// the queue is too short to give one away.
pub open spec fn stolen_from(tasks: Seq<Task>) -> Option<Task> {
    if tasks.len() <= NO_STEAL_TRESHOLD {
        None
    } else {
        Some(tasks.last())
    }
}

impl TaskQueue {
    pub fn new() -> (queue: Self)
        ensures
            queue@ == Seq::<Task>::empty(),
    {
        TaskQueue { tasks: Vec::new() }
    }

    pub fn len(&self) -> (n: usize)
        ensures
            n == self@.len(),
    {
        self.tasks.len()
    }

    pub fn is_empty(&self) -> (empty: bool)
        ensures
            empty == (self@.len() == 0),
    {
        self.tasks.len() == 0
    }

    pub fn push(&mut self, task: Task)
        ensures
            final(self)@ == old(self)@.push(task),
    {
        self.tasks.push(task);
    }

    /// Takes the newest task out of the queue.
    pub fn pop(&mut self) -> (task: Option<Task>)
        ensures
            match task {
                Some(task) => old(self)@.len() > 0 && task == old(self)@.last() && final(self)@
                    == old(self)@.drop_last(),
                None => old(self)@.len() == 0 && final(self)@ == old(self)@,
            },
    {
        self.tasks.pop()
    }

    /// Answers another peer's request for work: gives the newest task away,
    /// unless no more than `NO_STEAL_TRESHOLD` tasks are queued. The task has
    /// left the queue before it is handed out.
    pub fn steal(&mut self) -> (task: Option<Task>)
        ensures
            task == stolen_from(old(self)@),
            task is Some ==> final(self)@ == old(self)@.drop_last(),
            task is None ==> final(self)@ == old(self)@,
    {
        if self.tasks.len() <= NO_STEAL_TRESHOLD {
            None
        } else {
            self.tasks.pop()
        }
    }
}

/// What the owner of a task holds for its result: the bytes, once they have
/// arrived, and whether the submitter has been signalled.
pub struct ResultSlot {
    pub buffer: Vec<u8>,
    pub signalled: bool,
}

/// A `ResultSlot` as specifications see it.
pub struct SlotView {
    pub buffer: Seq<u8>,
    pub signalled: bool,
}

impl View for ResultSlot {
    type V = SlotView;

    open spec fn view(&self) -> SlotView {
        SlotView { buffer: self.buffer@, signalled: self.signalled }
    }
}

/// The slot of a task whose result is still awaited.
pub open spec fn empty_slot() -> SlotView {
    SlotView { buffer: Seq::empty(), signalled: false }
}

/// The slot of a task whose result, `data`, has arrived.
pub open spec fn filled_slot(data: Seq<u8>) -> SlotView {
    SlotView { buffer: data, signalled: true }
}

/// The results that a peer awaits, by task id. A slot is made when a task is
/// submitted here and taken out when its submitter has collected the result;
/// the delivery of a result fills a slot and makes none.
pub struct ResultRegistry {
    slots: HashMap<u128, ResultSlot>,
}

impl View for ResultRegistry {
    type V = Map<u128, SlotView>;

    closed spec fn view(&self) -> Map<u128, SlotView> {
        Map::new(|id: u128| self.slots@.contains_key(id), |id: u128| self.slots@[id]@)
    }
}

impl ResultRegistry {
    pub fn new() -> (registry: Self)
        ensures
            registry@ == Map::<u128, SlotView>::empty(),
    {
        let registry = ResultRegistry { slots: HashMap::new() };
        assert(registry@ =~= Map::<u128, SlotView>::empty());
        registry
    }

    pub fn contains(&self, id: u128) -> (found: bool)
        ensures
            found == self@.contains_key(id),
    {
        self.slots.contains_key(&id)
    }

    /// Whether the result of task `id` has arrived and waits to be collected.
    pub fn is_signalled(&self, id: u128) -> (signalled: bool)
        ensures
            signalled == (self@.contains_key(id) && self@[id].signalled),
    {
        match self.slots.get(&id) {
            Some(slot) => slot.signalled,
            None => false,
        }
    }

    /// Makes the slot in which the result of task `id` is awaited.
    pub fn register(&mut self, id: u128)
        ensures
            final(self)@ == old(self)@.insert(id, empty_slot()),
    {
        let _ = self.slots.insert(id, ResultSlot { buffer: Vec::new(), signalled: false });
        assert(self@ =~= old(self)@.insert(id, empty_slot()));
    }

    /// Hands in the result of task `id`. Where the task is awaited here, the
    /// bytes fill its slot and the submitter is signalled; where it is not,
    /// nothing changes.
    pub fn deliver(&mut self, id: u128, data: Vec<u8>) -> (awaited: bool)
        ensures
            awaited == old(self)@.contains_key(id),
            awaited ==> final(self)@ == old(self)@.insert(id, filled_slot(data@)),
            !awaited ==> final(self)@ == old(self)@,
    {
        if self.slots.contains_key(&id) {
            let _ = self.slots.insert(id, ResultSlot { buffer: data, signalled: true });
            assert(self@ =~= old(self)@.insert(id, filled_slot(data@)));
            true
        } else {
            false
        }
    }

    /// Takes the slot of task `id` out of the registry and hands its bytes to
    /// the submitter.
    pub fn collect(&mut self, id: u128) -> (result: Option<Vec<u8>>)
        ensures
            final(self)@ == old(self)@.remove(id),
            match result {
                Some(buffer) => old(self)@.contains_key(id) && buffer@ == old(self)@[id].buffer,
                None => !old(self)@.contains_key(id),
            },
    {
        let slot = self.slots.remove(&id);
        assert(self@ =~= old(self)@.remove(id));
        match slot {
            Some(slot) => Some(slot.buffer),
            None => None,
        }
    }
}

/// The version that a UUID carries in bits 76 to 79.
pub open spec fn uuid_version(id: u128) -> nat {
    (id as nat / 0x1000_0000_0000_0000_0000) % 16
}

/// The variant that a UUID carries in bits 62 and 63.
pub open spec fn uuid_variant(id: u128) -> nat {
    (id as nat / 0x4000_0000_0000_0000) % 4
}

/// `uuid::Uuid::now_v7`, read as a number by `Uuid::as_u128`. The id is made
/// from the clock and from random bits, so that nothing is claimed of it but
/// what `now_v7` sets in every id: the version, 7, and the variant of RFC
/// 9562, binary 10. (`now_v7` panics on a machine whose clock stands before
/// 1970.)
#[verifier::external_body]
fn new_task_id() -> (id: u128)
    ensures
        uuid_version(id) == 7,
        uuid_variant(id) == 2,
{
    Uuid::now_v7().as_u128()
}

/// Takes a capsule on under the id `task_id`: the slot for its result is
/// made, then the task joins the queue with `our_addr` as the place to
/// return the result to.
pub fn submit_with_id(
    queue: &mut TaskQueue,
    registry: &mut ResultRegistry,
    our_addr: PeerAddr,
    capsule: SerialisableProgram,
    task_id: u128,
)
    ensures
        final(registry)@ == old(registry)@.insert(task_id, empty_slot()),
        final(queue)@ == old(queue)@.push(
            Task { return_addr: our_addr, program: capsule, id: task_id },
        ),
{
    registry.register(task_id);
    queue.push(Task { return_addr: our_addr, program: capsule, id: task_id });
}

/// Takes a capsule on under a fresh version 7 UUID, and returns the id under
/// which the result will be found.
pub fn submit(
    queue: &mut TaskQueue,
    registry: &mut ResultRegistry,
    our_addr: PeerAddr,
    capsule: SerialisableProgram,
) -> (task_id: u128)
    ensures
        uuid_version(task_id) == 7,
        uuid_variant(task_id) == 2,
        final(registry)@ == old(registry)@.insert(task_id, empty_slot()),
        final(queue)@ == old(queue)@.push(
            Task { return_addr: our_addr, program: capsule, id: task_id },
        ),
{
    let task_id = new_task_id();
    submit_with_id(queue, registry, our_addr, capsule, task_id);
    task_id
}

/// What the scheduler does in one round.
#[derive(Debug)]
pub enum SchedulerAction {
    /// Run the task. With `steal_alongside`, look for work elsewhere at the
    /// same time, without waiting for the outcome.
    Run { task: Task, steal_alongside: bool },
    /// The queue is empty: look for work elsewhere, and wait for the outcome
    /// before the next round.
    Steal,
}

/// One round of the scheduler. The newest task leaves the queue to be run;
/// if no more than `MINIMUM_TASKS_BEFORE_START_STEALING_TRESH` tasks stay
/// behind, stealing starts alongside. With an empty queue there is nothing
/// to run, and stealing is all that the round does.
pub fn runner_step(queue: &mut TaskQueue) -> (action: SchedulerAction)
    ensures
        old(queue)@.len() == 0 ==> action is Steal && final(queue)@ == old(queue)@,
        old(queue)@.len() > 0 ==> final(queue)@ == old(queue)@.drop_last() && action
            == (SchedulerAction::Run {
            task: old(queue)@.last(),
            steal_alongside: old(queue)@.len() - 1 <= MINIMUM_TASKS_BEFORE_START_STEALING_TRESH,
        }),
{
    let len = queue.len();
    match queue.pop() {
        Some(task) => SchedulerAction::Run {
            task,
            steal_alongside: len - 1 <= MINIMUM_TASKS_BEFORE_START_STEALING_TRESH,
        },
        None => SchedulerAction::Steal,
    }
}

/// What a peer sends to the owner of a task, on a connection that it has
/// opened with the magic sequence, to hand in the task's result: the command,
/// the task's id, and the framed bytes.
pub open spec fn deliver_request(task_id: u128, data: Seq<u8>) -> Seq<u8> {
    seq![COMMAND_DELIVER] + be_bytes(task_id as nat, 16) + frame(data)
}

/// Where the result of a task goes.
#[derive(Debug)]
pub enum ReturnAction {
    /// The task was awaited here. Its slot is filled, and the submitter is
    /// to be woken.
    Delivered,
    /// The task is awaited elsewhere: connect to `addr` and send `request`.
    Send { addr: PeerAddr, request: Vec<u8> },
}

/// Whether `action` returns `data`, the result of task `task_id`, from a peer
/// whose registry was `before` and is `after`: a task that the peer awaits
/// has its slot filled, and any other result is a request to `return_addr`.
pub open spec fn returned(
    action: ReturnAction,
    data: Seq<u8>,
    return_addr: PeerAddr,
    task_id: u128,
    before: Map<u128, SlotView>,
    after: Map<u128, SlotView>,
) -> bool {
    if before.contains_key(task_id) {
        action is Delivered && after == before.insert(task_id, filled_slot(data))
    } else {
        &&& after == before
        &&& action matches ReturnAction::Send { addr, request }
        &&& addr == return_addr
        &&& request@ == deliver_request(task_id, data)
    }
}

/// Returns the result of a task to its owner. A task that is awaited in this
/// peer's own registry was submitted here, whoever ran it, and its slot is
/// filled. Any other result is made into a request to the peer at
/// `return_addr`.
pub fn return_data(
    data: Vec<u8>,
    return_addr: PeerAddr,
    task_id: u128,
    registry: &mut ResultRegistry,
) -> (action: ReturnAction)
    ensures
        returned(action, data@, return_addr, task_id, old(registry)@, final(registry)@),
{
    if registry.contains(task_id) {
        let _ = registry.deliver(task_id, data);
        ReturnAction::Delivered
    } else {
        let mut out = ByteStream::new();
        out.write_u8(COMMAND_DELIVER);
        out.write_u128(task_id);
        write_buf(&mut out, data.as_slice());
        let request = out.drain();
        assert(request@ =~= deliver_request(task_id, data@));
        ReturnAction::Send { addr: return_addr, request }
    }
}

/// Ends the run of a task. A run that failed has no output: the task is
/// dropped, and its owner is told nothing. The output of a run that
/// succeeded is returned to the owner.
pub fn consume_task(task: Task, output: Option<Vec<u8>>, registry: &mut ResultRegistry) -> (action:
    Option<ReturnAction>)
    ensures
        match output {
            Some(data) => action is Some && returned(
                action->0,
                data@,
                task.return_addr,
                task.id,
                old(registry)@,
                final(registry)@,
            ),
            None => action is None && final(registry)@ == old(registry)@,
        },
{
    match output {
        Some(data) => Some(return_data(data, task.return_addr, task.id, registry)),
        None => None,
    }
}

/// The peer-to-peer magic sequence as bytes.
pub fn peer_magic_bytes() -> (magic: Vec<u8>)
    ensures
        magic@ == peer_magic(),
{
    let mut magic: Vec<u8> = Vec::new();
    magic.extend_from_slice(MAGIC_PEER2PEER_SEQUENCE.as_bytes());
    magic
}

/// What a peer sends first on a connection that it opens to another peer:
/// the framed magic sequence.
pub fn connect_to_other_peer() -> (hello: Vec<u8>)
    ensures
        hello@ == frame(peer_magic()),
{
    let mut out = ByteStream::new();
    let magic = peer_magic_bytes();
    write_buf(&mut out, magic.as_slice());
    out.drain()
}

/// Whether two runs of bytes are the same.
fn bytes_equal(a: &[u8], b: &[u8]) -> (equal: bool)
    ensures
        equal == (a@ == b@),
{
    if a.len() != b.len() {
        return false;
    }
    let mut i: usize = 0;
    while i < a.len()
        invariant
            i <= a.len(),
            a.len() == b.len(),
            a@.take(i as int) == b@.take(i as int),
        decreases a.len() - i,
    {
        if a[i] != b[i] {
            return false;
        }
        assert(a@.take(i + 1) =~= a@.take(i as int).push(a@[i as int]));
        assert(b@.take(i + 1) =~= b@.take(i as int).push(b@[i as int]));
        i = i + 1;
    }
    assert(a@ =~= a@.take(a.len() as int));
    assert(b@ =~= b@.take(b.len() as int));
    true
}

/// What the tracker's greeting tells a peer, or why it tells nothing.
pub open spec fn tracker_greeting(stream: Seq<u8>) -> Result<(u32, u16), ErrorKind> {
    if !frame_ready(stream) {
        Err(ErrorKind::UnexpectedEof)
    } else if frame_payload(stream) != tracker_magic() {
        Err(ErrorKind::Other)
    } else if frame_rest(stream).len() < 6 {
        Err(ErrorKind::UnexpectedEof)
    } else {
        Ok(
            (
                be_value(frame_rest(stream).take(4)) as u32,
                be_value(frame_rest(stream).skip(4).take(2)) as u16,
            ),
        )
    }
}

/// Reads the tracker's greeting: the framed magic sequence, which must be the
/// tracker's, then this peer's IPv4 address, then the port on which it is to
/// listen for other peers. A stream that ends too early fails with
/// `UnexpectedEof`, a wrong magic sequence with `Other`.
pub fn connect_to_tracker(tracker: &mut ByteStream) -> (r: Result<(u32, u16), ErrorKind>)
    ensures
        r == tracker_greeting(old(tracker)@),
        r is Ok ==> final(tracker)@ == frame_rest(old(tracker)@).skip(6),
        r == Err::<(u32, u16), ErrorKind>(ErrorKind::UnexpectedEof) ==> final(tracker)@
            == Seq::<u8>::empty(),
        r == Err::<(u32, u16), ErrorKind>(ErrorKind::Other) ==> final(tracker)@ == frame_rest(
            old(tracker)@,
        ),
{
    let magic = match read_buf(tracker) {
        Ok(magic) => magic,
        Err(kind) => {
            return Err(kind);
        },
    };
    let expected = tracker_magic_bytes();
    if !bytes_equal(magic.as_slice(), expected.as_slice()) {
        return Err(ErrorKind::Other);
    }
    let ghost rest = tracker@;
    let our_ip = match tracker.read_u32() {
        Ok(ip) => ip,
        Err(kind) => {
            return Err(kind);
        },
    };
    let port = match tracker.read_u16() {
        Ok(port) => port,
        Err(kind) => {
            return Err(kind);
        },
    };
    assert(tracker@ =~= rest.skip(6));
    Ok((our_ip, port))
}

/// How many more bytes must arrive before the tracker's greeting can be
/// read to its end, or refused for its magic sequence.
pub open spec fn greeting_missing(stream: Seq<u8>) -> nat {
    if !frame_ready(stream) {
        frame_missing(stream)
    } else if frame_payload(stream) != tracker_magic() {
        0
    } else if frame_rest(stream).len() < 6 {
        (6 - frame_rest(stream).len()) as nat
    } else {
        0
    }
}

/// How many more bytes of the tracker's greeting must arrive before
/// `connect_to_tracker` can read it without running out of bytes.
pub fn greeting_needs(tracker: &ByteStream) -> (more: u64)
    ensures
        more == greeting_missing(tracker@),
        more == 0 <==> tracker_greeting(tracker@) != Err::<(u32, u16), ErrorKind>(
            ErrorKind::UnexpectedEof,
        ),
{
    let len = match tracker.peek_frame_len() {
        Some(len) => len,
        None => {
            return tracker.frame_needs();
        },
    };
    let expected = tracker_magic_bytes();
    let total = tracker.len();
    let ghost payload = frame_payload(tracker@);
    if len != expected.len() {
        return 0;
    }
    let mut i: usize = 0;
    while i < len
        invariant
            i <= len,
            len == expected@.len(),
            expected@ == tracker_magic(),
            total == tracker@.len(),
            frame_ready(tracker@),
            len == frame_len(tracker@),
            payload == frame_payload(tracker@),
            payload.take(i as int) == expected@.take(i as int),
        decreases len - i,
    {
        let byte = tracker.peek(8 + i);
        assert(payload[i as int] == tracker@[8 + i]);
        match byte {
            Some(byte) => {
                if byte != expected[i] {
                    assert(payload[i as int] != expected@[i as int]);
                    return 0;
                }
            },
            None => {},
        }
        assert(payload.take(i + 1) =~= payload.take(i as int).push(payload[i as int]));
        assert(expected@.take(i + 1) =~= expected@.take(i as int).push(expected@[i as int]));
        i = i + 1;
    }
    assert(payload =~= payload.take(len as int));
    assert(expected@ =~= expected@.take(len as int));
    let rest = total - 8 - len;
    if rest < 6 {
        (6 - rest) as u64
    } else {
        0
    }
}

/// Checks the first framed payload of a connection from another peer.
/// Anything but the peer-to-peer magic sequence is refused as `InvalidData`.
pub fn check_peer_magic(payload: &[u8]) -> (r: Result<(), ErrorKind>)
    ensures
        payload@ == peer_magic() ==> r is Ok,
        payload@ != peer_magic() ==> r == Err::<(), ErrorKind>(ErrorKind::InvalidData),
{
    let expected = peer_magic_bytes();
    if bytes_equal(payload, expected.as_slice()) {
        Ok(())
    } else {
        Err(ErrorKind::InvalidData)
    }
}

/// What one peer asks of another.
#[derive(Debug)]
pub enum PeerRequest {
    /// Give me a task.
    Steal,
    /// Here is the result of your task `id`.
    Deliver { id: u128, data: Vec<u8> },
    /// A command that this peer does not know.
    Unknown(u8),
}

/// A `PeerRequest` as specifications see it.
pub enum RequestView {
    Steal,
    Deliver { id: u128, data: Seq<u8> },
    Unknown(u8),
}

impl View for PeerRequest {
    type V = RequestView;

    open spec fn view(&self) -> RequestView {
        match self {
            PeerRequest::Steal => RequestView::Steal,
            PeerRequest::Deliver { id, data } => RequestView::Deliver { id: *id, data: data@ },
            PeerRequest::Unknown(command) => RequestView::Unknown(*command),
        }
    }
}

/// The request that `stream` starts with and what follows it, if `stream`
/// holds a whole request: one command byte and, for a delivery, sixteen bytes
/// of task id and a framed buffer.
pub open spec fn parse_request(stream: Seq<u8>) -> Option<(RequestView, Seq<u8>)> {
    if stream.len() == 0 {
        None
    } else if stream[0] == COMMAND_STEAL {
        Some((RequestView::Steal, stream.skip(1)))
    } else if stream[0] == COMMAND_DELIVER {
        if stream.len() >= 17 && frame_ready(stream.skip(17)) {
            Some(
                (
                    RequestView::Deliver {
                        id: be_value(stream.skip(1).take(16)) as u128,
                        data: frame_payload(stream.skip(17)),
                    },
                    frame_rest(stream.skip(17)),
                ),
            )
        } else {
            None
        }
    } else {
        Some((RequestView::Unknown(stream[0]), stream.skip(1)))
    }
}

/// How many more bytes must arrive before `stream` holds a whole request.
pub open spec fn request_missing(stream: Seq<u8>) -> nat {
    if stream.len() == 0 {
        1
    } else if stream[0] != COMMAND_DELIVER {
        0
    } else if stream.len() < 17 {
        (17 - stream.len()) as nat
    } else {
        frame_missing(stream.skip(17))
    }
}

/// How many more bytes must arrive before `read_request` can read a whole
/// request from `stream`.
pub fn request_needs(stream: &ByteStream) -> (more: u64)
    ensures
        more == request_missing(stream@),
        more == 0 <==> parse_request(stream@) is Some,
{
    match stream.peek(0) {
        None => 1,
        Some(command) => {
            if command != COMMAND_DELIVER {
                0
            } else if stream.len() < 17 {
                (17 - stream.len()) as u64
            } else {
                stream.frame_needs_at(17)
            }
        },
    }
}

/// Reads the next request of another peer. A stream that ends before the
/// request does fails with `UnexpectedEof`.
pub fn read_request(stream: &mut ByteStream) -> (r: Result<PeerRequest, ErrorKind>)
    ensures
        match r {
            Ok(request) => parse_request(old(stream)@) == Some((request@, final(stream)@)),
            Err(kind) => {
                &&& parse_request(old(stream)@) is None
                &&& kind == ErrorKind::UnexpectedEof
                &&& final(stream)@ == Seq::<u8>::empty()
            },
        },
{
    let command = match stream.read_u8() {
        Ok(command) => command,
        Err(kind) => {
            return Err(kind);
        },
    };
    if command == COMMAND_STEAL {
        Ok(PeerRequest::Steal)
    } else if command == COMMAND_DELIVER {
        let id = match stream.read_u128() {
            Ok(id) => id,
            Err(kind) => {
                return Err(kind);
            },
        };
        assert(old(stream)@.skip(1).skip(16) =~= old(stream)@.skip(17));
        match read_buf(stream) {
            Ok(data) => Ok(PeerRequest::Deliver { id, data }),
            Err(kind) => Err(kind),
        }
    } else {
        Ok(PeerRequest::Unknown(command))
    }
}

/// What a peer does about a request.
#[derive(Debug)]
pub enum PeerReply {
    /// Answer a steal with the task, or with none.
    Task(Option<Task>),
    /// The result of task `0` has arrived: wake its submitter. Nothing is
    /// sent back.
    Delivered(u128),
    /// The command `0` is not known: note it, and go on.
    Ignored(u8),
}

/// Serves one request of another peer. A steal is answered from the queue by
/// the rule of `TaskQueue::steal`. A delivered result fills the slot of its
/// task; a result for a task that is not awaited here breaks the protocol,
/// and is refused as `InvalidData`. An unknown command is passed over.
pub fn handle_request(
    request: PeerRequest,
    queue: &mut TaskQueue,
    registry: &mut ResultRegistry,
) -> (r: Result<PeerReply, ErrorKind>)
    ensures
        r == request_outcome(request@, old(queue)@, old(registry)@).reply,
        final(queue)@ == request_outcome(request@, old(queue)@, old(registry)@).queue,
        final(registry)@ == request_outcome(request@, old(queue)@, old(registry)@).registry,
{
    match request {
        PeerRequest::Steal => Ok(PeerReply::Task(queue.steal())),
        PeerRequest::Deliver { id, data } => {
            if registry.deliver(id, data) {
                Ok(PeerReply::Delivered(id))
            } else {
                Err(ErrorKind::InvalidData)
            }
        },
        PeerRequest::Unknown(command) => Ok(PeerReply::Ignored(command)),
    }
}

/// What serving one request comes to.
pub struct RequestOutcome {
    pub reply: Result<PeerReply, ErrorKind>,
    pub queue: Seq<Task>,
    pub registry: Map<u128, SlotView>,
}

/// The outcome of serving `request` with `queue` and `registry`.
pub open spec fn request_outcome(
    request: RequestView,
    queue: Seq<Task>,
    registry: Map<u128, SlotView>,
) -> RequestOutcome {
    match request {
        RequestView::Steal => RequestOutcome {
            reply: Ok(PeerReply::Task(stolen_from(queue))),
            queue: if stolen_from(queue) is Some {
                queue.drop_last()
            } else {
                queue
            },
            registry,
        },
        RequestView::Deliver { id, data } => if registry.contains_key(id) {
            RequestOutcome {
                reply: Ok(PeerReply::Delivered(id)),
                queue,
                registry: registry.insert(id, filled_slot(data)),
            }
        } else {
            RequestOutcome { reply: Err(ErrorKind::InvalidData), queue, registry }
        },
        RequestView::Unknown(command) => RequestOutcome {
            reply: Ok(PeerReply::Ignored(command)),
            queue,
            registry,
        },
    }
}

/// What went wrong when a task was to be stolen from another peer.
#[derive(Clone, Copy, Debug)]
pub enum StealFailure {
    /// The peer could not be connected to.
    Connect(ErrorKind),
    /// The request could not be sent.
    Send(ErrorKind),
    /// The answer could not be read.
    Receive(ErrorKind),
    /// The answer could not be understood.
    Decode,
}

/// What came of asking one peer for a task.
#[derive(Debug)]
pub enum StealReply {
    Failed(StealFailure),
    /// The peer had no task to give.
    Nothing,
    Task(Task),
}

/// What is to be done next in a run of work stealing.
#[derive(Clone, Copy, Debug, PartialEq, Eq, Structural)]
pub enum StealAction {
    /// No other peer is known: rest for `STEAL_REST_MILLIS`, so that the
    /// tracker is not asked in a tight loop. The run is over.
    Sleep,
    /// Ask this peer for a task.
    Ask(PeerAddr),
    /// The run is over.
    Done,
}

/// Whether a failed attempt to steal is worth a notice in the log. A peer
/// that went away is not, and neither is one that refuses the connection:
/// the tracker's list may name peers that have left since.
pub open spec fn steal_failure_noted(failure: StealFailure) -> bool {
    match failure {
        StealFailure::Connect(kind) => !is_severed(kind) && !(kind is ConnectionRefused),
        StealFailure::Send(kind) => !is_severed(kind),
        StealFailure::Receive(kind) => !is_severed(kind),
        StealFailure::Decode => true,
    }
}

/// One run of work stealing: the peers that the tracker named are asked in
/// the tracker's order, until one gives a task.
pub struct StealRun {
    peers: Vec<PeerAddr>,
    next: usize,
}

impl View for StealRun {
    type V = Seq<PeerAddr>;

    /// The peers that are still to be asked.
    closed spec fn view(&self) -> Seq<PeerAddr> {
        if self.next <= self.peers.len() {
            self.peers@.skip(self.next as int)
        } else {
            Seq::empty()
        }
    }
}

/// The next step of a run in which `pending` are still to be asked.
pub open spec fn ask_next(pending: Seq<PeerAddr>) -> StealAction {
    if pending.len() == 0 {
        StealAction::Done
    } else {
        StealAction::Ask(pending[0])
    }
}

/// The peers that are still to be asked once the next step is taken.
pub open spec fn after_asking(pending: Seq<PeerAddr>) -> Seq<PeerAddr> {
    if pending.len() == 0 {
        pending
    } else {
        pending.skip(1)
    }
}

impl StealRun {
    /// Moves on to the next peer, if one is left.
    fn advance(&mut self) -> (action: StealAction)
        ensures
            action == ask_next(old(self)@),
            final(self)@ == after_asking(old(self)@),
    {
        if self.next < self.peers.len() {
            let addr = self.peers[self.next];
            self.next = self.next + 1;
            assert(self@ =~= after_asking(old(self)@));
            StealAction::Ask(addr)
        } else {
            assert(self@ =~= after_asking(old(self)@));
            StealAction::Done
        }
    }

    /// Starts a run with the peers that the tracker named. With none, the
    /// run rests and ends; else the first peer is asked.
    pub fn steal_task(peer_list: Vec<PeerAddr>) -> (r: (StealRun, StealAction))
        ensures
            r.0@ == after_asking(peer_list@),
            r.1 == if peer_list@.len() == 0 {
                StealAction::Sleep
            } else {
                StealAction::Ask(peer_list@[0])
            },
    {
        let mut run = StealRun { peers: peer_list, next: 0 };
        assert(run@ =~= peer_list@);
        let action = run.advance();
        match action {
            StealAction::Done => (run, StealAction::Sleep),
            _ => (run, action),
        }
    }

    /// Takes in what came of asking a peer. A task joins the queue and ends
    /// the run. Without a task the next peer is asked, if one is left. The
    /// flag says whether a failure is worth a notice.
    pub fn on_reply(&mut self, reply: StealReply, queue: &mut TaskQueue) -> (r: (StealAction, bool))
        ensures
            match reply {
                StealReply::Task(task) => {
                    &&& final(queue)@ == old(queue)@.push(task)
                    &&& final(self)@ == Seq::<PeerAddr>::empty()
                    &&& r.0 == StealAction::Done
                    &&& !r.1
                },
                StealReply::Nothing => {
                    &&& final(queue)@ == old(queue)@
                    &&& final(self)@ == after_asking(old(self)@)
                    &&& r.0 == ask_next(old(self)@)
                    &&& !r.1
                },
                StealReply::Failed(failure) => {
                    &&& final(queue)@ == old(queue)@
                    &&& final(self)@ == after_asking(old(self)@)
                    &&& r.0 == ask_next(old(self)@)
                    &&& r.1 == steal_failure_noted(failure)
                },
            },
    {
        match reply {
            StealReply::Task(task) => {
                queue.push(task);
                self.next = self.peers.len();
                assert(self@ =~= Seq::<PeerAddr>::empty());
                (StealAction::Done, false)
            },
            StealReply::Nothing => (self.advance(), false),
            StealReply::Failed(failure) => {
                let noted = match failure {
                    StealFailure::Connect(kind) => !was_connection_severed(kind) && !is_refused(
                        kind,
                    ),
                    StealFailure::Send(kind) => !was_connection_severed(kind),
                    StealFailure::Receive(kind) => !was_connection_severed(kind),
                    StealFailure::Decode => true,
                };
                (self.advance(), noted)
            },
        }
    }
}

/// Whether a connection was refused.
fn is_refused(kind: ErrorKind) -> (refused: bool)
    ensures
        refused == (kind is ConnectionRefused),
{
    match kind {
        ErrorKind::ConnectionRefused => true,
        _ => false,
    }
}

/// What a failure of the tracker means to a peer that asked it for the other
/// peers.
#[derive(Clone, Copy, Debug, PartialEq, Eq, Structural)]
pub enum TrackerFailure {
    /// The tracker is gone. Without it the peer finds no work elsewhere.
    LostTracker,
    /// The request failed in some other way, which is reported.
    Reported,
}

pub fn tracker_failure(kind: ErrorKind) -> (failure: TrackerFailure)
    ensures
        failure == if is_severed(kind) {
            TrackerFailure::LostTracker
        } else {
            TrackerFailure::Reported
        },
{
    if was_connection_severed(kind) {
        TrackerFailure::LostTracker
    } else {
        TrackerFailure::Reported
    }
}

/// What went wrong when a result was to be returned to another peer.
#[derive(Clone, Copy, Debug)]
pub enum ReturnFailure {
    /// The owner could not be connected to.
    Connect(ErrorKind),
    /// The request could not be sent.
    Send(ErrorKind),
}

/// Whether a failed return is worth a notice in the log: every failure is,
/// but for an owner that went away while it was connected to. Either way the
/// result is lost.
pub fn return_failure_noted(failure: ReturnFailure) -> (noted: bool)
    ensures
        noted == match failure {
            ReturnFailure::Connect(kind) => !is_severed(kind),
            ReturnFailure::Send(_) => true,
        },
{
    match failure {
        ReturnFailure::Connect(kind) => !was_connection_severed(kind),
        ReturnFailure::Send(_) => true,
    }
}

/// What a connection from another peer comes to: the replies to its
/// requests, in order, the error that ended it, and the queue and the
/// registry as it left them.
pub struct Served {
    pub replies: Seq<PeerReply>,
    pub error: ErrorKind,
    pub queue: Seq<Task>,
    pub registry: Map<u128, SlotView>,
}

/// Serving the requests in `stream`, one after the other, until the stream
/// ends or a request is refused.
pub open spec fn serve_requests(
    stream: Seq<u8>,
    queue: Seq<Task>,
    registry: Map<u128, SlotView>,
) -> Served
    decreases stream.len(),
{
    match parse_request(stream) {
        None => Served { replies: Seq::empty(), error: ErrorKind::UnexpectedEof, queue, registry },
        Some((request, rest)) => {
            let outcome = request_outcome(request, queue, registry);
            match outcome.reply {
                Err(kind) => Served {
                    replies: Seq::empty(),
                    error: kind,
                    queue: outcome.queue,
                    registry: outcome.registry,
                },
                Ok(reply) => if rest.len() < stream.len() {
                    let later = serve_requests(rest, outcome.queue, outcome.registry);
                    Served {
                        replies: seq![reply] + later.replies,
                        error: later.error,
                        queue: later.queue,
                        registry: later.registry,
                    }
                } else {
                    Served {
                        replies: Seq::empty(),
                        error: ErrorKind::UnexpectedEof,
                        queue,
                        registry,
                    }
                },
            }
        },
    }
}

/// A request takes at least one byte out of the stream.
pub proof fn lemma_request_consumes(stream: Seq<u8>)
    ensures
        parse_request(stream) matches Some((_, rest)) ==> rest.len() < stream.len(),
{
}

/// Serving a whole connection from another peer: the framed magic sequence,
/// which must be the peers', and then the requests.
pub open spec fn serve_connection(
    stream: Seq<u8>,
    queue: Seq<Task>,
    registry: Map<u128, SlotView>,
) -> Served {
    if !frame_ready(stream) {
        Served { replies: Seq::empty(), error: ErrorKind::UnexpectedEof, queue, registry }
    } else if frame_payload(stream) != peer_magic() {
        Served { replies: Seq::empty(), error: ErrorKind::InvalidData, queue, registry }
    } else {
        serve_requests(frame_rest(stream), queue, registry)
    }
}

/// Serves everything that another peer sent on one connection. The
/// connection must open with the peer-to-peer magic sequence. Then each
/// request is served in turn, as `handle_request` serves it, until the stream
/// ends, which is how a peer leaves, or a request is refused. Returns the
/// replies, in the order of the requests, and the error that ended the
/// connection.
pub fn handle_other_peer(
    other_stream: &mut ByteStream,
    task_queue: &mut TaskQueue,
    registry: &mut ResultRegistry,
) -> (r: (Vec<PeerReply>, ErrorKind))
    ensures
        r.0@ == serve_connection(old(other_stream)@, old(task_queue)@, old(registry)@).replies,
        r.1 == serve_connection(old(other_stream)@, old(task_queue)@, old(registry)@).error,
        final(task_queue)@ == serve_connection(
            old(other_stream)@,
            old(task_queue)@,
            old(registry)@,
        ).queue,
        final(registry)@ == serve_connection(
            old(other_stream)@,
            old(task_queue)@,
            old(registry)@,
        ).registry,
{
    let mut replies: Vec<PeerReply> = Vec::new();
    let magic = match read_buf(other_stream) {
        Ok(magic) => magic,
        Err(kind) => {
            return (replies, kind);
        },
    };
    match check_peer_magic(magic.as_slice()) {
        Ok(_) => {},
        Err(kind) => {
            return (replies, kind);
        },
    }
    let ghost whole = serve_requests(other_stream@, task_queue@, registry@);
    loop
        invariant
            whole == serve_connection(old(other_stream)@, old(task_queue)@, old(registry)@),
            whole.replies == replies@ + serve_requests(
                other_stream@,
                task_queue@,
                registry@,
            ).replies,
            whole.error == serve_requests(other_stream@, task_queue@, registry@).error,
            whole.queue == serve_requests(other_stream@, task_queue@, registry@).queue,
            whole.registry == serve_requests(other_stream@, task_queue@, registry@).registry,
        decreases other_stream@.len(),
    {
        let ghost stream_before = other_stream@;
        let ghost replies_before = replies@;
        let request = match read_request(other_stream) {
            Ok(request) => request,
            Err(kind) => {
                assert(replies@ + Seq::<PeerReply>::empty() =~= replies@);
                return (replies, kind);
            },
        };
        proof {
            lemma_request_consumes(stream_before);
        }
        match handle_request(request, task_queue, registry) {
            Ok(reply) => {
                replies.push(reply);
                assert(replies_before + (seq![reply] + serve_requests(
                    other_stream@,
                    task_queue@,
                    registry@,
                ).replies) =~= replies@ + serve_requests(
                    other_stream@,
                    task_queue@,
                    registry@,
                ).replies);
            },
            Err(kind) => {
                assert(replies@ + Seq::<PeerReply>::empty() =~= replies@);
                return (replies, kind);
            },
        }
    }
}

/// What the registry of a peer goes through.
pub enum RegistryOp {
    /// A submitter here registers a task.
    Submit(u128),
    /// A result arrives, from this peer's own runner or from another peer.
    Deliver(u128, Seq<u8>),
    /// A submitter here collects its result.
    Collect(u128),
}

pub open spec fn registry_next(registry: Map<u128, SlotView>, op: RegistryOp) -> Map<
    u128,
    SlotView,
> {
    match op {
        RegistryOp::Submit(id) => registry.insert(id, empty_slot()),
        RegistryOp::Deliver(id, data) => if registry.contains_key(id) {
            registry.insert(id, filled_slot(data))
        } else {
            registry
        },
        RegistryOp::Collect(id) => registry.remove(id),
    }
}

/// The registry after `ops`, from an empty one.
pub open spec fn registry_after(ops: Seq<RegistryOp>) -> Map<u128, SlotView>
    decreases ops.len(),
{
    if ops.len() == 0 {
        Map::empty()
    } else {
        registry_next(registry_after(ops.drop_last()), ops.last())
    }
}

/// Whether, in `ops`, task `id` was submitted and has not been collected
/// since.
pub open spec fn awaited_after(ops: Seq<RegistryOp>, id: u128) -> bool {
    exists|i: int|
        0 <= i < ops.len() && #[trigger] ops[i] == RegistryOp::Submit(id) && forall|j: int|
            i < j < ops.len() ==> #[trigger] ops[j] != RegistryOp::Collect(id)
}

/// Whatever a peer's registry goes through, it holds a slot for exactly the
/// tasks that a submitter of this peer has registered and not yet collected.
/// The delivery of a result never makes a slot.
pub proof fn lemma_registry_holds_awaited(ops: Seq<RegistryOp>, id: u128)
    ensures
        registry_after(ops).contains_key(id) <==> awaited_after(ops, id),
    decreases ops.len(),
{
    if ops.len() > 0 {
        let before = ops.drop_last();
        let n = before.len() as int;
        lemma_registry_holds_awaited(before, id);
        if awaited_after(before, id) {
            let i = choose|i: int|
                0 <= i < before.len() && #[trigger] before[i] == RegistryOp::Submit(id) && forall|
                    j: int,
                |
                    i < j < before.len() ==> #[trigger] before[j] != RegistryOp::Collect(id);
            assert(ops[i] == RegistryOp::Submit(id));
            if ops.last() != RegistryOp::Collect(id) {
                assert forall|j: int| i < j < ops.len() implies #[trigger] ops[j]
                    != RegistryOp::Collect(id) by {
                    if j < n {
                        assert(before[j] != RegistryOp::Collect(id));
                    }
                }
            }
        }
        if awaited_after(ops, id) {
            let i = choose|i: int|
                0 <= i < ops.len() && #[trigger] ops[i] == RegistryOp::Submit(id) && forall|j: int|
                    i < j < ops.len() ==> #[trigger] ops[j] != RegistryOp::Collect(id);
            if i < n {
                assert(before[i] == RegistryOp::Submit(id));
                assert forall|j: int| i < j < before.len() implies #[trigger] before[j]
                    != RegistryOp::Collect(id) by {
                    assert(ops[j] != RegistryOp::Collect(id));
                }
                assert(ops[n] != RegistryOp::Collect(id));
            }
        }
        if ops.last() == RegistryOp::Submit(id) {
            assert(ops[n] == RegistryOp::Submit(id));
        }
    }
}

/// A result that is returned from another peer arrives in its owner's slot.
/// Let a peer that does not await task `id` return `data` for it: what it
/// sends is the hello of `connect_to_other_peer` and then the request of
/// `return_data`. The owner, who awaits the task, serves that connection by
/// filling the slot of `id` with exactly `data` and signalling the submitter;
/// its queue and its other slots stay as they were.
pub proof fn lemma_result_reaches_owner(
    id: u128,
    data: Seq<u8>,
    owner_queue: Seq<Task>,
    owner_registry: Map<u128, SlotView>,
)
    requires
        data.len() < pow256(8),
        owner_registry.contains_key(id),
    ensures
        ({
            let sent = frame(peer_magic()) + deliver_request(id, data);
            let served = serve_connection(sent, owner_queue, owner_registry);
            &&& served.replies == seq![PeerReply::Delivered(id)]
            &&& served.error == ErrorKind::UnexpectedEof
            &&& served.queue == owner_queue
            &&& served.registry == owner_registry.insert(id, filled_slot(data))
            &&& served.registry[id].buffer == data
            &&& served.registry[id].signalled
        }),
{
    let request = deliver_request(id, data);
    let sent = frame(peer_magic()) + request;
    lemma_peer_magic();
    lemma_pow256_values();
    lemma_frame_round_trip(peer_magic(), request);
    lemma_delivery_parses(id, data, Seq::empty());
    assert(request + Seq::<u8>::empty() =~= request);
    let filled = owner_registry.insert(id, filled_slot(data));
    assert(parse_request(Seq::<u8>::empty()) is None);
    assert(serve_requests(Seq::<u8>::empty(), owner_queue, filled).replies =~= Seq::<
        PeerReply,
    >::empty());
    assert(serve_requests(request, owner_queue, owner_registry).replies =~= seq![
        PeerReply::Delivered(id),
    ]);
}

/// The request that hands in a result reads back as that delivery, and
/// leaves what followed it in the stream.
pub proof fn lemma_delivery_parses(id: u128, data: Seq<u8>, rest: Seq<u8>)
    requires
        data.len() < pow256(8),
    ensures
        parse_request(deliver_request(id, data) + rest) == Some(
            (RequestView::Deliver { id, data }, rest),
        ),
{
    let stream = deliver_request(id, data) + rest;
    lemma_pow256_values();
    lemma_be_bytes_len(id as nat, 16);
    lemma_be_value_of_bytes(id as nat, 16);
    lemma_frame_round_trip(data, rest);
    assert(stream[0] == COMMAND_DELIVER);
    assert(stream.skip(1).take(16) =~= be_bytes(id as nat, 16));
    assert(stream.skip(17) =~= frame(data) + rest);
}

/// The bytes that a submitter finds in its slot are as long as the capsule
/// asked for, wherever the task ran, as long as the run itself gave that many
/// bytes: a result that the owner's own runner hands in, and one that
/// another peer returns over the network, both fill the slot with the output
/// of the run, byte for byte.
pub proof fn lemma_collected_length(
    capsule: SerialisableProgram,
    output: Seq<u8>,
    id: u128,
    owner_queue: Seq<Task>,
    owner_registry: Map<u128, SlotView>,
)
    requires
        output.len() == capsule.out_data_nbytes,
        owner_registry.contains_key(id),
    ensures
        registry_next(owner_registry, RegistryOp::Deliver(id, output))[id].buffer.len()
            == capsule.out_data_nbytes,
        serve_connection(
            frame(peer_magic()) + deliver_request(id, output),
            owner_queue,
            owner_registry,
        ).registry[id].buffer.len() == capsule.out_data_nbytes,
{
    assert(output.len() < pow256(8)) by {
        lemma_pow256_values();
    }
    lemma_result_reaches_owner(id, output, owner_queue, owner_registry);
}

/// The tracker's greeting tells a peer what the tracker meant: after the
/// framed magic sequence, the address and the port that the tracker sent are
/// the ones that `connect_to_tracker` reads.
pub proof fn lemma_greeting_is_understood(ip: u32, port: u16, rest: Seq<u8>)
    ensures
        tracker_greeting(frame(tracker_magic()) + be_bytes(ip as nat, 4) + be_bytes(port as nat, 2)
            + rest) == Ok::<(u32, u16), ErrorKind>((ip, port)),
{
    let magic = tracker_magic();
    let ip_bytes = be_bytes(ip as nat, 4);
    let port_bytes = be_bytes(port as nat, 2);
    let tail = ip_bytes + port_bytes + rest;
    let stream = frame(magic) + ip_bytes + port_bytes + rest;
    assert(magic.len() < pow256(8)) by {
        crate::tracker::lemma_tracker_magic();
        lemma_pow256_values();
    }
    assert(frame_ready(stream) && frame_payload(stream) == magic && frame_rest(stream) == tail) by {
        assert(stream =~= frame(magic) + tail);
        lemma_frame_round_trip(magic, tail);
    }
    assert(tail.len() >= 6 && tail.take(4) == ip_bytes && tail.skip(4).take(2) == port_bytes) by {
        lemma_be_bytes_len(ip as nat, 4);
        lemma_be_bytes_len(port as nat, 2);
        assert(tail.take(4) =~= ip_bytes);
        assert(tail.skip(4).take(2) =~= port_bytes);
    }
    assert(be_value(ip_bytes) == ip && be_value(port_bytes) == port) by {
        lemma_pow256_values();
        lemma_be_value_of_bytes(ip as nat, 4);
        lemma_be_value_of_bytes(port as nat, 2);
    }
}

} // verus!
