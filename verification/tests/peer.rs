use clustered::networking::{write_buf, ByteStream, PeerAddr};
use clustered::peer::{
    check_peer_magic, connect_to_other_peer, connect_to_tracker, consume_task, greeting_needs,
    handle_other_peer, handle_request, peer_magic_bytes, read_request, request_needs, return_data,
    return_failure_noted,
    runner_step, submit, submit_with_id, tracker_failure, PeerReply, PeerRequest, ResultRegistry,
    ReturnAction, ReturnFailure, SchedulerAction, StealAction, StealFailure, StealReply, StealRun,
    Task, TaskQueue, TrackerFailure, COMMAND_DELIVER, COMMAND_STEAL, MAGIC_PEER2PEER_SEQUENCE,
    MINIMUM_TASKS_BEFORE_START_STEALING_TRESH, NO_STEAL_TRESHOLD, STEAL_REST_MILLIS,
};
use clustered::serialisable_program::SerialisableProgram;
use clustered::shader_bytes::ShaderBytes;
use clustered::tracker::{PeerRegistry, TrackerAction, TrackerEvent, TrackerSession};
use std::io::ErrorKind;
use uuid::Uuid;

const PEER_A: PeerAddr = PeerAddr { ip: 0x7f00_0001, port: 8008 };
const PEER_B: PeerAddr = PeerAddr { ip: 0x7f00_0001, port: 8009 };

fn squares_capsule() -> SerialisableProgram {
    SerialisableProgram {
        in_data: vec![1, 0, 0, 0, 2, 0, 0, 0],
        out_data_nbytes: 8,
        program: String::from("@compute @workgroup_size(1) fn main() {}"),
        entry_point: String::from("main"),
        n_workgroups: 2,
        workgroup_size: 1,
    }
}

fn task(id: u128) -> Task {
    Task { return_addr: PEER_A, program: squares_capsule(), id }
}

/// Stands in for the GPU: squares the little-endian words of the input.
fn run_squares(capsule: &SerialisableProgram) -> Option<Vec<u8>> {
    let words: Vec<u32> = ShaderBytes::deserialise_to_slice(&capsule.in_data);
    let squares: Vec<u32> = words.iter().map(|w| w * w).collect();
    Some(ShaderBytes::serialise_from_slice(&squares).get_data().to_vec())
}

fn delivery(id: u128, data: &[u8]) -> Vec<u8> {
    let mut bytes = vec![2u8];
    bytes.extend_from_slice(&id.to_be_bytes());
    bytes.extend_from_slice(&(data.len() as u64).to_be_bytes());
    bytes.extend_from_slice(data);
    bytes
}

#[test]
fn constants_are_the_protocol_s() {
    assert_eq!(MAGIC_PEER2PEER_SEQUENCE, "Clustered peer2peer, yay!");
    assert_eq!(peer_magic_bytes(), b"Clustered peer2peer, yay!".to_vec());
    assert_eq!(peer_magic_bytes().len(), 25);
    assert_eq!(COMMAND_STEAL, 1);
    assert_eq!(COMMAND_DELIVER, 2);
    assert_eq!(MINIMUM_TASKS_BEFORE_START_STEALING_TRESH, 5);
    assert_eq!(NO_STEAL_TRESHOLD, 1);
    assert_eq!(STEAL_REST_MILLIS, 100);
}

#[test]
fn queue_is_last_in_first_out() {
    let mut queue = TaskQueue::new();
    assert!(queue.is_empty());
    assert!(queue.pop().is_none());
    queue.push(task(1));
    queue.push(task(2));
    queue.push(task(3));
    assert_eq!(queue.len(), 3);
    assert_eq!(queue.pop().unwrap().id, 3);
    assert_eq!(queue.pop().unwrap().id, 2);
    queue.push(task(4));
    assert_eq!(queue.pop().unwrap().id, 4);
    assert_eq!(queue.pop().unwrap().id, 1);
    assert!(queue.pop().is_none());
}

#[test]
fn short_queue_gives_nothing_away() {
    let mut queue = TaskQueue::new();
    assert!(queue.steal().is_none());
    queue.push(task(1));
    assert!(queue.steal().is_none());
    assert_eq!(queue.len(), 1);
    queue.push(task(2));
    assert_eq!(queue.steal().unwrap().id, 2);
    assert_eq!(queue.len(), 1);
    assert!(queue.steal().is_none());
    assert_eq!(queue.pop().unwrap().id, 1);
}

#[test]
fn registry_keeps_a_slot_from_register_to_collect() {
    let mut registry = ResultRegistry::new();
    assert!(!registry.contains(7));
    assert_eq!(registry.collect(7), None);
    registry.register(7);
    assert!(registry.contains(7));
    assert!(!registry.is_signalled(7));
    assert!(registry.deliver(7, vec![1, 2, 3]));
    assert!(registry.is_signalled(7));
    assert!(registry.contains(7));
    assert_eq!(registry.collect(7), Some(vec![1, 2, 3]));
    assert!(!registry.contains(7));
    assert!(!registry.is_signalled(7));
    assert_eq!(registry.collect(7), None);
}

#[test]
fn delivery_makes_no_slot() {
    let mut registry = ResultRegistry::new();
    assert!(!registry.deliver(9, vec![1]));
    assert!(!registry.contains(9));
    registry.register(8);
    assert!(!registry.deliver(9, vec![1]));
    assert!(!registry.contains(9));
    assert!(!registry.is_signalled(8));
}

#[test]
fn unfilled_slot_collects_as_empty() {
    let mut registry = ResultRegistry::new();
    registry.register(3);
    assert_eq!(registry.collect(3), Some(vec![]));
}

#[test]
fn second_delivery_replaces_the_first() {
    let mut registry = ResultRegistry::new();
    registry.register(3);
    assert!(registry.deliver(3, vec![1]));
    assert!(registry.deliver(3, vec![2, 2]));
    assert_eq!(registry.collect(3), Some(vec![2, 2]));
}

#[test]
fn submit_registers_then_queues() {
    let mut queue = TaskQueue::new();
    let mut registry = ResultRegistry::new();
    submit_with_id(&mut queue, &mut registry, PEER_A, squares_capsule(), 42);
    assert!(registry.contains(42));
    assert!(!registry.is_signalled(42));
    assert_eq!(queue.len(), 1);
    let queued = queue.pop().unwrap();
    assert_eq!(queued.id, 42);
    assert_eq!(queued.return_addr, PEER_A);
    assert_eq!(queued.program.in_data, vec![1, 0, 0, 0, 2, 0, 0, 0]);
    assert_eq!(queued.program.out_data_nbytes, 8);
    assert_eq!(queued.program.entry_point, "main");
}

#[test]
fn submit_makes_version_seven_ids() {
    let mut queue = TaskQueue::new();
    let mut registry = ResultRegistry::new();
    let first = submit(&mut queue, &mut registry, PEER_A, squares_capsule());
    let second = submit(&mut queue, &mut registry, PEER_A, squares_capsule());
    assert_ne!(first, second);
    assert_eq!(Uuid::from_u128(first).get_version_num(), 7);
    assert_eq!(Uuid::from_u128(second).get_version_num(), 7);
    assert_eq!((first >> 76) & 0xf, 7);
    assert_eq!((first >> 62) & 0x3, 2);
    assert_eq!((second >> 62) & 0x3, 2);
    assert!(first < second);
    assert!(registry.contains(first));
    assert!(registry.contains(second));
    assert_eq!(queue.pop().unwrap().id, second);
    assert_eq!(queue.pop().unwrap().id, first);
}

#[test]
fn scheduler_steals_when_the_queue_is_empty() {
    let mut queue = TaskQueue::new();
    assert!(matches!(runner_step(&mut queue), SchedulerAction::Steal));
    assert!(queue.is_empty());
}

#[test]
fn scheduler_steals_alongside_up_to_the_threshold() {
    let mut queue = TaskQueue::new();
    for id in 0..8 {
        queue.push(task(id));
    }
    // Eight queued: seven stay behind, which is more than five.
    assert!(matches!(
        runner_step(&mut queue),
        SchedulerAction::Run { task, steal_alongside: false } if task.id == 7
    ));
    // Seven queued: six stay behind.
    assert!(matches!(
        runner_step(&mut queue),
        SchedulerAction::Run { task, steal_alongside: false } if task.id == 6
    ));
    // Six queued: five stay behind, and stealing starts.
    assert!(matches!(
        runner_step(&mut queue),
        SchedulerAction::Run { task, steal_alongside: true } if task.id == 5
    ));
    for id in (0..5).rev() {
        assert!(matches!(
            runner_step(&mut queue),
            SchedulerAction::Run { task, steal_alongside: true } if task.id == id
        ));
    }
    assert!(matches!(runner_step(&mut queue), SchedulerAction::Steal));
}

#[test]
fn own_result_is_delivered_locally() {
    let mut registry = ResultRegistry::new();
    registry.register(5);
    let action = return_data(vec![9, 9], PEER_B, 5, &mut registry);
    assert!(matches!(action, ReturnAction::Delivered));
    assert!(registry.is_signalled(5));
    assert_eq!(registry.collect(5), Some(vec![9, 9]));
}

#[test]
fn foreign_result_becomes_a_request() {
    let mut registry = ResultRegistry::new();
    registry.register(6);
    let id = 0x0102_0304_0506_0708_090a_0b0c_0d0e_0f10u128;
    let action = return_data(vec![0xaa, 0xbb], PEER_B, id, &mut registry);
    let expected = vec![
        2, 1, 2, 3, 4, 5, 6, 7, 8, 9, 10, 11, 12, 13, 14, 15, 16, 0, 0, 0, 0, 0, 0, 0, 2, 0xaa,
        0xbb,
    ];
    assert!(matches!(
        action,
        ReturnAction::Send { addr, request } if addr == PEER_B && request == expected
    ));
    assert!(!registry.contains(id));
    assert!(!registry.is_signalled(6));
}

#[test]
fn failed_run_is_dropped() {
    let mut registry = ResultRegistry::new();
    registry.register(1);
    assert!(consume_task(task(1), None, &mut registry).is_none());
    assert!(!registry.is_signalled(1));
    assert!(registry.contains(1));
}

#[test]
fn finished_run_is_returned() {
    let mut registry = ResultRegistry::new();
    registry.register(1);
    let action = consume_task(task(1), Some(vec![4]), &mut registry);
    assert!(matches!(action, Some(ReturnAction::Delivered)));
    assert_eq!(registry.collect(1), Some(vec![4]));
    let action = consume_task(task(2), Some(vec![4]), &mut registry);
    assert!(matches!(
        action,
        Some(ReturnAction::Send { addr, request }) if addr == PEER_A && request == delivery(2, &[4])
    ));
}

#[test]
fn hello_is_the_framed_magic() {
    let mut expected = vec![0, 0, 0, 0, 0, 0, 0, 25];
    expected.extend_from_slice(b"Clustered peer2peer, yay!");
    assert_eq!(connect_to_other_peer(), expected);
}

#[test]
fn peer_magic_is_checked() {
    assert_eq!(check_peer_magic(b"Clustered peer2peer, yay!"), Ok(()));
    assert_eq!(check_peer_magic(b"Clustered peer2peer, yay"), Err(ErrorKind::InvalidData));
    assert_eq!(check_peer_magic(b"Clustered tracker!"), Err(ErrorKind::InvalidData));
    assert_eq!(check_peer_magic(b"clustered peer2peer, yay!"), Err(ErrorKind::InvalidData));
    assert_eq!(check_peer_magic(b""), Err(ErrorKind::InvalidData));
    assert_eq!(check_peer_magic(&[0xff, 0xfe]), Err(ErrorKind::InvalidData));
}

#[test]
fn tracker_greeting_is_read() {
    let mut bytes = vec![0, 0, 0, 0, 0, 0, 0, 18];
    bytes.extend_from_slice(b"Clustered tracker!");
    bytes.extend_from_slice(&[192, 168, 1, 20, 0x1f, 0x49, 0x77]);
    let mut stream = ByteStream::from_bytes(&bytes);
    assert_eq!(connect_to_tracker(&mut stream), Ok((0xc0a8_0114, 8009)));
    assert_eq!(stream.drain(), vec![0x77]);
}

#[test]
fn tracker_greeting_with_bad_magic_is_refused() {
    let mut stream = ByteStream::new();
    write_buf(&mut stream, b"Clustered peer2peer, yay!");
    stream.write_u32(1);
    stream.write_u16(8008);
    assert_eq!(connect_to_tracker(&mut stream), Err(ErrorKind::Other));
    assert_eq!(stream.len(), 6);
}

#[test]
fn tracker_greeting_cut_short_is_unexpected_eof() {
    let mut whole = ByteStream::new();
    write_buf(&mut whole, b"Clustered tracker!");
    whole.write_u32(0x7f00_0001);
    whole.write_u16(8008);
    let whole = whole.drain();
    for cut in 0..whole.len() {
        let mut stream = ByteStream::from_bytes(&whole[..cut]);
        assert_eq!(connect_to_tracker(&mut stream), Err(ErrorKind::UnexpectedEof));
        assert_eq!(stream.len(), 0);
    }
    let mut stream = ByteStream::from_bytes(&whole);
    assert_eq!(connect_to_tracker(&mut stream), Ok((0x7f00_0001, 8008)));
}

#[test]
fn peer_reads_what_the_tracker_sends() {
    let mut registry = PeerRegistry::new();
    let mut wire = ByteStream::new();
    let (mut session, mut action) = TrackerSession::accept(Some(0x0a01_0203));
    registry.register(0x0a01_0203);
    for _ in 0..3 {
        match action {
            TrackerAction::Send(bytes) => wire.write_all(&bytes),
            _ => panic!("the tracker should be sending"),
        }
        action = session.step(TrackerEvent::Sent, &mut registry).0;
    }
    assert!(matches!(action, TrackerAction::ReadCommand));
    assert_eq!(connect_to_tracker(&mut wire), Ok((0x0a01_0203, 8009)));
    assert_eq!(wire.len(), 0);
}

#[test]
fn requests_are_parsed() {
    let mut bytes = vec![1u8, 7];
    bytes.extend_from_slice(&delivery(0xabcd, &[5, 6, 7]));
    bytes.push(1);
    let mut stream = ByteStream::from_bytes(&bytes);
    assert!(matches!(read_request(&mut stream), Ok(PeerRequest::Steal)));
    assert!(matches!(read_request(&mut stream), Ok(PeerRequest::Unknown(7))));
    assert!(matches!(
        read_request(&mut stream),
        Ok(PeerRequest::Deliver { id: 0xabcd, data }) if data == vec![5, 6, 7]
    ));
    assert!(matches!(read_request(&mut stream), Ok(PeerRequest::Steal)));
    assert!(matches!(read_request(&mut stream), Err(ErrorKind::UnexpectedEof)));
}

#[test]
fn delivery_cut_short_is_unexpected_eof() {
    let whole = delivery(3, &[1, 2, 3, 4]);
    for cut in 0..whole.len() {
        let mut stream = ByteStream::from_bytes(&whole[..cut]);
        assert!(matches!(read_request(&mut stream), Err(ErrorKind::UnexpectedEof)));
        assert_eq!(stream.len(), 0);
    }
}

#[test]
fn steal_request_is_answered_from_the_queue() {
    let mut queue = TaskQueue::new();
    let mut registry = ResultRegistry::new();
    queue.push(task(1));
    assert!(matches!(
        handle_request(PeerRequest::Steal, &mut queue, &mut registry),
        Ok(PeerReply::Task(None))
    ));
    queue.push(task(2));
    assert!(matches!(
        handle_request(PeerRequest::Steal, &mut queue, &mut registry),
        Ok(PeerReply::Task(Some(stolen))) if stolen.id == 2
    ));
    assert_eq!(queue.len(), 1);
}

#[test]
fn delivery_for_an_unknown_task_breaks_the_protocol() {
    let mut queue = TaskQueue::new();
    let mut registry = ResultRegistry::new();
    registry.register(1);
    let reply = handle_request(
        PeerRequest::Deliver { id: 2, data: vec![1] },
        &mut queue,
        &mut registry,
    );
    assert!(matches!(reply, Err(ErrorKind::InvalidData)));
    assert!(!registry.contains(2));
    let reply = handle_request(
        PeerRequest::Deliver { id: 1, data: vec![1] },
        &mut queue,
        &mut registry,
    );
    assert!(matches!(reply, Ok(PeerReply::Delivered(1))));
    assert_eq!(registry.collect(1), Some(vec![1]));
}

#[test]
fn unknown_command_is_passed_over() {
    let mut queue = TaskQueue::new();
    let mut registry = ResultRegistry::new();
    assert!(matches!(
        handle_request(PeerRequest::Unknown(200), &mut queue, &mut registry),
        Ok(PeerReply::Ignored(200))
    ));
}

#[test]
fn connection_is_served_until_it_ends() {
    let mut queue = TaskQueue::new();
    let mut registry = ResultRegistry::new();
    queue.push(task(1));
    queue.push(task(2));
    queue.push(task(3));
    registry.register(50);
    let mut bytes = connect_to_other_peer();
    bytes.push(1);
    bytes.push(9);
    bytes.extend_from_slice(&delivery(50, &[8, 8]));
    bytes.push(1);
    bytes.push(1);
    let mut stream = ByteStream::from_bytes(&bytes);
    let (replies, error) = handle_other_peer(&mut stream, &mut queue, &mut registry);
    assert_eq!(error, ErrorKind::UnexpectedEof);
    assert_eq!(replies.len(), 5);
    assert!(matches!(&replies[0], PeerReply::Task(Some(stolen)) if stolen.id == 3));
    assert!(matches!(&replies[1], PeerReply::Ignored(9)));
    assert!(matches!(&replies[2], PeerReply::Delivered(50)));
    assert!(matches!(&replies[3], PeerReply::Task(Some(stolen)) if stolen.id == 2));
    assert!(matches!(&replies[4], PeerReply::Task(None)));
    assert_eq!(queue.len(), 1);
    assert_eq!(registry.collect(50), Some(vec![8, 8]));
}

#[test]
fn connection_without_magic_is_refused() {
    let mut queue = TaskQueue::new();
    let mut registry = ResultRegistry::new();
    queue.push(task(1));
    queue.push(task(2));
    let mut stream = ByteStream::new();
    write_buf(&mut stream, b"Clustered tracker!");
    stream.write_u8(1);
    let (replies, error) = handle_other_peer(&mut stream, &mut queue, &mut registry);
    assert!(replies.is_empty());
    assert_eq!(error, ErrorKind::InvalidData);
    assert_eq!(queue.len(), 2);

    let mut stream = ByteStream::from_bytes(&[0, 0, 0]);
    let (replies, error) = handle_other_peer(&mut stream, &mut queue, &mut registry);
    assert!(replies.is_empty());
    assert_eq!(error, ErrorKind::UnexpectedEof);
}

#[test]
fn connection_ends_on_a_result_nobody_awaits() {
    let mut queue = TaskQueue::new();
    let mut registry = ResultRegistry::new();
    queue.push(task(1));
    queue.push(task(2));
    let mut bytes = connect_to_other_peer();
    bytes.extend_from_slice(&delivery(77, &[1]));
    bytes.push(1);
    let mut stream = ByteStream::from_bytes(&bytes);
    let (replies, error) = handle_other_peer(&mut stream, &mut queue, &mut registry);
    assert!(replies.is_empty());
    assert_eq!(error, ErrorKind::InvalidData);
    assert_eq!(queue.len(), 2);
    assert!(!registry.contains(77));
}

#[test]
fn steal_run_rests_when_no_peer_is_known() {
    let (mut run, action) = StealRun::steal_task(vec![]);
    assert_eq!(action, StealAction::Sleep);
    let mut queue = TaskQueue::new();
    assert_eq!(run.on_reply(StealReply::Nothing, &mut queue), (StealAction::Done, false));
    assert!(queue.is_empty());
}

#[test]
fn steal_run_asks_in_the_tracker_s_order_until_a_task_comes() {
    let peers = vec![
        PeerAddr { ip: 1, port: 8008 },
        PeerAddr { ip: 2, port: 8008 },
        PeerAddr { ip: 3, port: 8008 },
        PeerAddr { ip: 4, port: 8008 },
    ];
    let mut queue = TaskQueue::new();
    let (mut run, action) = StealRun::steal_task(peers.clone());
    assert_eq!(action, StealAction::Ask(peers[0]));
    assert_eq!(run.on_reply(StealReply::Nothing, &mut queue), (StealAction::Ask(peers[1]), false));
    assert_eq!(
        run.on_reply(StealReply::Failed(StealFailure::Decode), &mut queue),
        (StealAction::Ask(peers[2]), true)
    );
    assert!(queue.is_empty());
    assert_eq!(run.on_reply(StealReply::Task(task(11)), &mut queue), (StealAction::Done, false));
    assert_eq!(queue.len(), 1);
    assert_eq!(run.on_reply(StealReply::Nothing, &mut queue), (StealAction::Done, false));
    assert_eq!(queue.pop().unwrap().id, 11);
}

#[test]
fn steal_run_ends_when_every_peer_was_asked() {
    let peers = vec![PeerAddr { ip: 1, port: 8008 }, PeerAddr { ip: 2, port: 8008 }];
    let mut queue = TaskQueue::new();
    let (mut run, action) = StealRun::steal_task(peers.clone());
    assert_eq!(action, StealAction::Ask(peers[0]));
    assert_eq!(run.on_reply(StealReply::Nothing, &mut queue), (StealAction::Ask(peers[1]), false));
    assert_eq!(run.on_reply(StealReply::Nothing, &mut queue), (StealAction::Done, false));
    assert!(queue.is_empty());
}

#[test]
fn stale_peer_is_skipped_in_silence() {
    let peers = vec![PeerAddr { ip: 1, port: 8008 }, PeerAddr { ip: 2, port: 8008 }];
    let mut queue = TaskQueue::new();
    let (mut run, _) = StealRun::steal_task(peers.clone());
    let refused = StealReply::Failed(StealFailure::Connect(ErrorKind::ConnectionRefused));
    assert_eq!(run.on_reply(refused, &mut queue), (StealAction::Ask(peers[1]), false));
    assert_eq!(run.on_reply(StealReply::Task(task(5)), &mut queue), (StealAction::Done, false));
    assert_eq!(queue.len(), 1);
}

#[test]
fn steal_failures_are_noted_unless_benign() {
    let noted = |failure: StealFailure| {
        let mut queue = TaskQueue::new();
        let (mut run, _) = StealRun::steal_task(vec![PEER_A]);
        run.on_reply(StealReply::Failed(failure), &mut queue).1
    };
    assert!(!noted(StealFailure::Connect(ErrorKind::ConnectionRefused)));
    assert!(!noted(StealFailure::Connect(ErrorKind::ConnectionReset)));
    assert!(noted(StealFailure::Connect(ErrorKind::TimedOut)));
    assert!(noted(StealFailure::Send(ErrorKind::ConnectionRefused)));
    assert!(!noted(StealFailure::Send(ErrorKind::BrokenPipe)));
    assert!(noted(StealFailure::Send(ErrorKind::Other)));
    assert!(noted(StealFailure::Receive(ErrorKind::ConnectionRefused)));
    assert!(!noted(StealFailure::Receive(ErrorKind::UnexpectedEof)));
    assert!(noted(StealFailure::Receive(ErrorKind::InvalidData)));
    assert!(noted(StealFailure::Decode));
}

#[test]
fn lost_tracker_is_told_from_other_failures() {
    assert_eq!(tracker_failure(ErrorKind::BrokenPipe), TrackerFailure::LostTracker);
    assert_eq!(tracker_failure(ErrorKind::UnexpectedEof), TrackerFailure::LostTracker);
    assert_eq!(tracker_failure(ErrorKind::NotConnected), TrackerFailure::LostTracker);
    assert_eq!(tracker_failure(ErrorKind::InvalidData), TrackerFailure::Reported);
    assert_eq!(tracker_failure(ErrorKind::ConnectionRefused), TrackerFailure::Reported);
}

#[test]
fn return_failures_are_noted_unless_the_owner_left() {
    assert!(!return_failure_noted(ReturnFailure::Connect(ErrorKind::ConnectionReset)));
    assert!(return_failure_noted(ReturnFailure::Connect(ErrorKind::ConnectionRefused)));
    assert!(return_failure_noted(ReturnFailure::Connect(ErrorKind::TimedOut)));
    assert!(return_failure_noted(ReturnFailure::Send(ErrorKind::BrokenPipe)));
    assert!(return_failure_noted(ReturnFailure::Send(ErrorKind::Other)));
}

#[test]
fn single_peer_runs_its_own_task() {
    let mut queue = TaskQueue::new();
    let mut registry = ResultRegistry::new();
    let id = submit(&mut queue, &mut registry, PEER_A, squares_capsule());
    let task = match runner_step(&mut queue) {
        SchedulerAction::Run { task, steal_alongside } => {
            assert!(steal_alongside);
            task
        }
        SchedulerAction::Steal => panic!("a task was queued"),
    };
    assert_eq!(task.id, id);
    let output = run_squares(&task.program);
    let action = consume_task(task, output, &mut registry);
    assert!(matches!(action, Some(ReturnAction::Delivered)));
    assert!(registry.is_signalled(id));
    let result = registry.collect(id).unwrap();
    assert_eq!(result, vec![1, 0, 0, 0, 4, 0, 0, 0]);
    assert_eq!(result.len(), squares_capsule().out_data_nbytes);
    assert!(!registry.contains(id));
    assert!(matches!(runner_step(&mut queue), SchedulerAction::Steal));
}

#[test]
fn two_peers_share_the_work() {
    let mut queue_a = TaskQueue::new();
    let mut registry_a = ResultRegistry::new();
    let mut queue_b = TaskQueue::new();
    let mut registry_b = ResultRegistry::new();

    let mut ids = Vec::new();
    for _ in 0..20 {
        ids.push(submit(&mut queue_a, &mut registry_a, PEER_A, squares_capsule()));
    }
    assert_eq!(queue_a.len(), 20);

    let mut delivered_to_a: Vec<u128> = Vec::new();
    let mut run_by_b = 0;
    loop {
        // B is idle: it steals from A, runs what it gets, and returns the result.
        if let SchedulerAction::Steal = runner_step(&mut queue_b) {
            let (mut run, action) = StealRun::steal_task(vec![PEER_A]);
            assert_eq!(action, StealAction::Ask(PEER_A));
            let mut request = ByteStream::from_bytes(&connect_to_other_peer());
            request.write_u8(COMMAND_STEAL);
            let (mut replies, _) = handle_other_peer(&mut request, &mut queue_a, &mut registry_a);
            let reply = match replies.pop() {
                Some(PeerReply::Task(Some(stolen))) => StealReply::Task(stolen),
                Some(PeerReply::Task(None)) => StealReply::Nothing,
                _ => panic!("a steal is answered with a task or with none"),
            };
            run.on_reply(reply, &mut queue_b);
        }
        if let SchedulerAction::Run { task, .. } = runner_step(&mut queue_b) {
            run_by_b += 1;
            let output = run_squares(&task.program);
            match consume_task(task, output, &mut registry_b) {
                Some(ReturnAction::Send { addr, request }) => {
                    assert_eq!(addr, PEER_A);
                    let mut wire = ByteStream::from_bytes(&connect_to_other_peer());
                    wire.write_all(&request);
                    let (replies, error) =
                        handle_other_peer(&mut wire, &mut queue_a, &mut registry_a);
                    assert_eq!(error, ErrorKind::UnexpectedEof);
                    assert_eq!(replies.len(), 1);
                    match replies[0] {
                        PeerReply::Delivered(id) => delivered_to_a.push(id),
                        _ => panic!("the result should have been delivered"),
                    }
                }
                _ => panic!("B owns none of the tasks"),
            }
        }
        // A runs one of its own.
        match runner_step(&mut queue_a) {
            SchedulerAction::Run { task, .. } => {
                let id = task.id;
                let output = run_squares(&task.program);
                let action = consume_task(task, output, &mut registry_a);
                assert!(matches!(action, Some(ReturnAction::Delivered)));
                delivered_to_a.push(id);
            }
            SchedulerAction::Steal => break,
        }
    }

    assert!(run_by_b >= 1);
    assert!(queue_a.is_empty());
    assert!(queue_b.is_empty());
    delivered_to_a.sort();
    let mut expected = ids.clone();
    expected.sort();
    assert_eq!(delivered_to_a, expected);
    for id in ids {
        assert!(registry_a.is_signalled(id));
        assert_eq!(registry_a.collect(id), Some(vec![1, 0, 0, 0, 4, 0, 0, 0]));
        assert!(!registry_b.contains(id));
    }
}

#[test]
fn greeting_needs_counts_the_missing_bytes() {
    let mut whole = ByteStream::new();
    write_buf(&mut whole, b"Clustered tracker!");
    whole.write_u32(0x7f00_0001);
    whole.write_u16(8008);
    let whole = whole.drain();
    assert_eq!(whole.len(), 32);
    let mut stream = ByteStream::new();
    let mut fed = 0;
    let mut rounds = 0;
    loop {
        let more = greeting_needs(&stream) as usize;
        if more == 0 {
            break;
        }
        stream.write_all(&whole[fed..fed + more]);
        fed += more;
        rounds += 1;
    }
    assert_eq!((fed, rounds), (32, 3));
    assert_eq!(connect_to_tracker(&mut stream), Ok((0x7f00_0001, 8008)));
    assert_eq!(greeting_needs(&ByteStream::from_bytes(&whole[..5])), 3);
    assert_eq!(greeting_needs(&ByteStream::from_bytes(&whole[..20])), 6);
    assert_eq!(greeting_needs(&ByteStream::from_bytes(&whole[..26])), 6);
    assert_eq!(greeting_needs(&ByteStream::from_bytes(&whole[..29])), 3);
}

#[test]
fn greeting_with_bad_magic_needs_no_more() {
    let mut stream = ByteStream::new();
    write_buf(&mut stream, b"Clustered tracker?");
    assert_eq!(greeting_needs(&stream), 0);
    assert_eq!(connect_to_tracker(&mut stream), Err(ErrorKind::Other));
    let mut stream = ByteStream::new();
    write_buf(&mut stream, b"");
    assert_eq!(greeting_needs(&stream), 0);
    assert_eq!(connect_to_tracker(&mut stream), Err(ErrorKind::Other));
}

#[test]
fn request_needs_counts_the_missing_bytes() {
    assert_eq!(request_needs(&ByteStream::new()), 1);
    assert_eq!(request_needs(&ByteStream::from_bytes(&[1])), 0);
    assert_eq!(request_needs(&ByteStream::from_bytes(&[9])), 0);
    let whole = delivery(5, &[1, 2, 3]);
    assert_eq!(whole.len(), 28);
    assert_eq!(request_needs(&ByteStream::from_bytes(&whole[..1])), 16);
    assert_eq!(request_needs(&ByteStream::from_bytes(&whole[..10])), 7);
    assert_eq!(request_needs(&ByteStream::from_bytes(&whole[..17])), 8);
    assert_eq!(request_needs(&ByteStream::from_bytes(&whole[..20])), 5);
    assert_eq!(request_needs(&ByteStream::from_bytes(&whole[..25])), 3);
    assert_eq!(request_needs(&ByteStream::from_bytes(&whole[..27])), 1);
    assert_eq!(request_needs(&ByteStream::from_bytes(&whole)), 0);
    let mut stream = ByteStream::from_bytes(&whole);
    assert!(matches!(
        read_request(&mut stream),
        Ok(PeerRequest::Deliver { id: 5, data }) if data == vec![1, 2, 3]
    ));
}
