use pixelspray::dispatch::{Dispatcher, SendOutcome};
use pixelspray::supervise::{Supervisor, SupervisorAction, SupervisorEvent};
use pixelspray::worker::{offset_line, size_request, worker_step, StopReason, WorkerEvent, WorkerState};

#[test]
fn each_worker_sees_the_chunks_in_cyclic_order() {
    // 8 workers, 3 chunks: every worker independently receives 0,1,2,0,1,2,...
    let mut d = Dispatcher::new(8, 3);
    let mut seen: Vec<Vec<usize>> = vec![Vec::new(); 8];
    for _round in 0..6 {
        for (id, chunk) in d.plan() {
            seen[id].push(chunk);
            d.record_outcome(id, SendOutcome::Delivered);
        }
    }
    for worker_seen in &seen {
        assert_eq!(worker_seen, &vec![0, 1, 2, 0, 1, 2]);
    }
}

#[test]
fn a_stalled_worker_slows_nobody_else() {
    let mut d = Dispatcher::new(3, 4);
    for _round in 0..8 {
        for (id, _chunk) in d.plan() {
            let outcome = if id == 1 {
                SendOutcome::Full
            } else {
                SendOutcome::Delivered
            };
            d.record_outcome(id, outcome);
        }
    }
    let plan = d.plan();
    assert_eq!(plan.len(), 3);
    // workers 0 and 2 went around the 4-chunk cycle twice; worker 1 still
    // waits for chunk 0 and was simply retried, not dropped
    assert_eq!(plan[0], (0, 0));
    assert_eq!(plan[1], (1, 0));
    assert_eq!(plan[2], (2, 0));
    let mut d2 = Dispatcher::new(3, 5);
    for _round in 0..3 {
        for (id, _chunk) in d2.plan() {
            let outcome = if id == 1 {
                SendOutcome::Full
            } else {
                SendOutcome::Delivered
            };
            d2.record_outcome(id, outcome);
        }
    }
    assert_eq!(d2.plan(), vec![(0, 3), (1, 0), (2, 3)]);
}

#[test]
fn a_dead_channel_deregisters_exactly_that_worker() {
    let mut d = Dispatcher::new(4, 2);
    assert_eq!(d.live_count(), 4);
    d.record_outcome(2, SendOutcome::Disconnected);
    assert_eq!(d.live_count(), 3);
    assert!(!d.is_live(2));
    assert!(d.is_live(0) && d.is_live(1) && d.is_live(3));
    let ids: Vec<usize> = d.plan().into_iter().map(|p| p.0).collect();
    assert_eq!(ids, vec![0, 1, 3]);
}

#[test]
fn a_respawn_restores_the_registry_to_full_strength() {
    let mut d = Dispatcher::new(8, 3);
    d.record_outcome(5, SendOutcome::Delivered);
    d.record_outcome(5, SendOutcome::Disconnected);
    assert_eq!(d.live_count(), 7);

    let mut sup = Supervisor::new(8);
    let action = sup.handle_event(SupervisorEvent::WorkerExited(5));
    assert_eq!(action, SupervisorAction::Respawn(5));

    d.register(5);
    assert_eq!(d.live_count(), 8);
    assert!(d.is_live(5));
    // the replacement resumes the cyclic stream where identity 5 left off
    assert_eq!(d.plan()[5], (5, 1));
}

#[test]
fn shutdown_stops_all_respawning() {
    let mut sup = Supervisor::new(2);
    assert_eq!(
        sup.handle_event(SupervisorEvent::ShutdownSignal),
        SupervisorAction::Stop
    );
    assert_eq!(
        sup.handle_event(SupervisorEvent::WorkerExited(0)),
        SupervisorAction::Stop
    );
}

#[test]
fn worker_lifecycle_transitions() {
    let s = WorkerState::Connecting;
    assert_eq!(worker_step(s, WorkerEvent::Connected), WorkerState::Active);
    assert_eq!(
        worker_step(s, WorkerEvent::ConnectError),
        WorkerState::Stopped(StopReason::ConnectFailed)
    );
    let a = WorkerState::Active;
    assert_eq!(worker_step(a, WorkerEvent::WriteOk), WorkerState::Active);
    assert_eq!(
        worker_step(a, WorkerEvent::WriteError),
        WorkerState::Stopped(StopReason::TransmitFailed)
    );
    assert_eq!(
        worker_step(a, WorkerEvent::ChannelClosed),
        WorkerState::Stopped(StopReason::ChannelClosed)
    );
    let t = WorkerState::Stopped(StopReason::TransmitFailed);
    assert_eq!(worker_step(t, WorkerEvent::Connected), t);
}

#[test]
fn wire_lines_are_exact() {
    assert_eq!(offset_line(5, 10), b"OFFSET 5 10\n".to_vec());
    assert_eq!(offset_line(0, 4294967295), b"OFFSET 0 4294967295\n".to_vec());
    assert_eq!(size_request(), b"SIZE\n".to_vec());
}
