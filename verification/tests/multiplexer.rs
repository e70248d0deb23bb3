use dpoll::buffer::Buffer;
use dpoll::completion::{AcceptResult, QResultValue, SockAddr};
use dpoll::dpoll::{Dpoll, DpollOperation};
use dpoll::operation::SubmitKind;
use dpoll::errno::PosixError;
use dpoll::event::Event;
use dpoll::handle::Index;
use dpoll::operation::Operation;
use dpoll::sga::SgArray;
use dpoll::socket::{IoGate, Socket};

fn peer() -> SockAddr {
    SockAddr { family: 2, port: 4242, addr: 0x7f00_0001 }
}

fn active_socket(socks: &mut Buffer<true, Socket>, qd: u32) -> Index {
    socks.allocate(Socket::from_accept(AcceptResult { qd, addr: peer() }))
}

#[test]
fn bind_pins_address_and_listen_checks_role() {
    let mut s = Socket::new(3);
    assert!(s.addr.is_none());
    s.bind_recorded(peer());
    assert_eq!(s.addr, Some(peer()));
    assert_eq!(s.listen_check(), Ok(()));
    let a = Socket::from_accept(AcceptResult { qd: 4, addr: peer() });
    assert_eq!(a.listen_check(), Err(PosixError::INVAL));
}

#[test]
fn role_mismatch_is_invalid() {
    let passive = Socket::new(3);
    assert!(matches!(passive.read_gate(false), IoGate::Invalid));
    assert!(matches!(passive.write_gate(false), IoGate::Invalid));
    let active = Socket::from_accept(AcceptResult { qd: 4, addr: peer() });
    assert!(matches!(active.accept_gate(), IoGate::Invalid));
}

#[test]
fn zero_length_transfers_touch_nothing() {
    let mut socks: Buffer<true, Socket> = Buffer::new();
    let c = active_socket(&mut socks, 5);
    let s = socks.get(c).unwrap();
    assert!(matches!(s.read_gate(true), IoGate::ZeroLen));
    assert!(matches!(s.write_gate(true), IoGate::ZeroLen));
    // even on a passive socket the zero-length shortcut comes first
    let passive = Socket::new(3);
    assert!(matches!(passive.read_gate(true), IoGate::ZeroLen));
}

#[test]
fn iovec_shortcut_matches_first_iovec() {
    assert!(dpoll::socket::iovec_shortcut(&vec![]));
    assert!(dpoll::socket::iovec_shortcut(&vec![0, 5, 5]));
    assert!(!dpoll::socket::iovec_shortcut(&vec![3]));
}

#[test]
fn at_most_one_operation_per_direction() {
    let mut socks: Buffer<true, Socket> = Buffer::new();
    let c = active_socket(&mut socks, 5);
    socks.get_mut(c).pop_started(41);
    // a running read keeps its token: the sweep reuses it instead of
    // submitting a second pop
    let s = socks.get(c).unwrap();
    let mut toks: Vec<u64> = Vec::new();
    let sub = s.schedule_events(Event::input(), &mut toks);
    assert_eq!(sub, None);
    assert_eq!(toks, vec![41]);
    assert!(matches!(s.read_gate(false), IoGate::Poll(41)));
}

#[test]
fn echo_one_connection() {
    let mut socks: Buffer<true, Socket> = Buffer::new();
    let mut d = Dpoll::new();
    let l = socks.allocate(Socket::new(7));

    let op = DpollOperation::Add { soc: l, evs: Event::input(), data: 111 };
    assert!(d.ctl_ok(&socks, &op));
    d.ctl(&socks, op).unwrap();

    // first pwait: the sweep submits the accept and waits on its token
    let subs = d.sweep(&socks);
    assert_eq!(subs.len(), 1);
    assert_eq!(subs[0].qd, 7);
    assert_eq!(subs[0].kind, SubmitKind::Accept);
    assert!(Dpoll::can_record(&socks, &subs[0]));
    d.note_submitted(&mut socks, &subs[0], 100);
    assert!(d.needs_engine_wait());
    assert_eq!(d.qtokens().len(), 1);
    assert!(!d.has_ready());

    // the engine accepts a connection
    let acc = QResultValue::Accept(AcceptResult { qd: 8, addr: peer() });
    assert!(d.can_deliver(&socks, 7, &acc));
    d.deliver(&mut socks, 7, acc);
    assert!(d.has_ready());
    assert!(d.ready_live(&socks));
    let out = d.drain(&socks, 8);
    assert_eq!(out.len(), 1);
    assert_eq!(out[0].data, 111);
    assert!(out[0].events.incoming);
    assert_eq!(Dpoll::pwait_result(out.len(), 0), Ok(1));

    // the caller accepts: a new active socket appears
    let res = {
        let s = socks.get_mut(l);
        assert!(matches!(s.accept_gate(), IoGate::Ready));
        s.accept_take().unwrap()
    };
    assert_eq!(res.qd, 8);
    assert_eq!(res.addr, peer());
    let c = socks.allocate(Socket::from_accept(res));
    let op2 = DpollOperation::Add { soc: c, evs: Event::all(), data: 222 };
    assert!(d.ctl_ok(&socks, &op2));
    d.ctl(&socks, op2).unwrap();

    // second pwait: listener resubmits its accept, the connection needs a
    // pop; the idle write makes the connection immediately writable
    let subs = d.sweep(&socks);
    assert_eq!(subs.len(), 2);
    for rq in &subs {
        assert!(Dpoll::can_record(&socks, rq));
    }
    let mut tok = 101;
    for rq in &subs {
        d.note_submitted(&mut socks, rq, tok);
        tok += 1;
    }

    // "HELLO" arrives on the connection
    let pop = QResultValue::Pop(SgArray::from_segments(vec![b"HELLO".to_vec()]));
    assert!(d.can_deliver(&socks, 8, &pop));
    d.deliver(&mut socks, 8, pop);
    let out = d.drain(&socks, 8);
    assert_eq!(out.len(), 1);
    assert_eq!(out[0].data, 222);
    assert!(out[0].events.incoming);
    assert!(out[0].events.outgoing);

    // read returns the five bytes and asks for the next pop at once
    let (r, resubmit) = socks.get_mut(c).read_ready(5);
    assert_eq!(r.unwrap(), b"HELLO".to_vec());
    assert!(resubmit);
    socks.get_mut(c).pop_started(200);

    // write queues the whole echo
    let n = {
        let s = socks.get_mut(c);
        assert!(matches!(s.write_gate(false), IoGate::Ready));
        s.write_clear_ack().unwrap();
        s.push_started(SgArray::from_slice(&b"HELLO".to_vec()), 201)
    };
    assert_eq!(n, 5);

    // third pwait: all three in-flight tokens are collected (the
    // listener's accept, the connection's pop and its push), nothing new
    let subs = d.sweep(&socks);
    assert_eq!(subs.len(), 0);
    assert_eq!(d.qtokens().len(), 3);

    // the push completes: the next pwait reports OUT on the connection
    d.deliver(&mut socks, 8, QResultValue::Push);
    let out = d.drain(&socks, 8);
    assert_eq!(out.len(), 1);
    assert_eq!(out[0].data, 222);
    assert!(out[0].events.outgoing);
    assert!(!out[0].events.incoming);
}

#[test]
fn partial_reads_keep_reporting_readable() {
    let mut socks: Buffer<true, Socket> = Buffer::new();
    let c = active_socket(&mut socks, 5);
    socks.get_mut(c).pop_started(1);
    let bytes: Vec<u8> = (0u8..10).collect();
    socks.get_mut(c).process_event(QResultValue::Pop(SgArray::from_segments(vec![bytes])));

    let (r1, s1) = socks.get_mut(c).read_ready(4);
    assert_eq!(r1.unwrap(), vec![0, 1, 2, 3]);
    assert!(!s1);
    // between the reads the socket still reports readable
    assert!(socks.get(c).unwrap().available_events(Event::input()).incoming);

    let (r2, s2) = socks.get_mut(c).read_ready(4);
    assert_eq!(r2.unwrap(), vec![4, 5, 6, 7]);
    assert!(!s2);
    assert!(socks.get(c).unwrap().available_events(Event::input()).incoming);

    // the third read drains the buffer and asks for the next pop
    let (r3, s3) = socks.get_mut(c).read_ready(4);
    assert_eq!(r3.unwrap(), vec![8, 9]);
    assert!(s3);
    socks.get_mut(c).pop_started(2);
    assert!(!socks.get(c).unwrap().available_events(Event::input()).incoming);
}

#[test]
fn readv_fills_iovecs() {
    let mut socks: Buffer<true, Socket> = Buffer::new();
    let c = active_socket(&mut socks, 5);
    socks.get_mut(c).pop_started(1);
    socks.get_mut(c).process_event(QResultValue::Pop(SgArray::from_segments(vec![
        vec![1u8, 2, 3],
        vec![4, 5],
    ])));
    let (r, resubmit) = socks.get_mut(c).readv_ready(&vec![2, 8]);
    assert_eq!(r.unwrap(), vec![vec![1, 2], vec![3, 4, 5]]);
    assert!(resubmit);
}

#[test]
fn back_pressured_write() {
    let mut socks: Buffer<true, Socket> = Buffer::new();
    let c = active_socket(&mut socks, 5);
    let payload = vec![7u8; 1_000_000];
    let n = {
        let s = socks.get_mut(c);
        assert!(matches!(s.write_gate(false), IoGate::Ready));
        s.write_clear_ack().unwrap();
        s.push_started(SgArray::from_slice(&payload), 10)
    };
    assert_eq!(n, 1_000_000);
    // a second immediate write finds the push still running: the shim
    // polls token 10 and, with no completion, fails with WOULDBLOCK
    assert!(matches!(socks.get(c).unwrap().write_gate(false), IoGate::Poll(10)));
    assert!(!socks.get(c).unwrap().available_events(Event::output()).outgoing);
    // after the acknowledgement the socket is writable again
    socks.get_mut(c).process_event(QResultValue::Push);
    assert!(socks.get(c).unwrap().available_events(Event::output()).outgoing);
    let n2 = {
        let s = socks.get_mut(c);
        assert!(matches!(s.write_gate(false), IoGate::Ready));
        s.write_clear_ack().unwrap();
        s.push_started(SgArray::from_slice(&vec![1u8, 2]), 11)
    };
    assert_eq!(n2, 2);
}

#[test]
fn mixed_set_reports_only_the_kernel_event() {
    let mut socks: Buffer<true, Socket> = Buffer::new();
    let mut d = Dpoll::new();
    let l = socks.allocate(Socket::from_accept(AcceptResult { qd: 9, addr: peer() }));
    let op = DpollOperation::Add { soc: l, evs: Event::input(), data: 777 };
    assert!(d.ctl_ok(&socks, &op));
    d.ctl(&socks, op).unwrap();
    // nothing arrives on the library socket; the sweep submits its pop
    let subs = d.sweep(&socks);
    assert_eq!(subs.len(), 1);
    d.note_submitted(&mut socks, &subs[0], 1);
    let out = d.drain(&socks, 8);
    assert_eq!(out.len(), 0);
    // the kernel pipe delivered one event into the remaining slots
    assert_eq!(Dpoll::pwait_result(out.len(), 1), Ok(1));
}

#[test]
fn close_during_pending_read_evicts_item() {
    let mut socks: Buffer<true, Socket> = Buffer::new();
    let mut d = Dpoll::new();
    let c = active_socket(&mut socks, 6);
    let op = DpollOperation::Add { soc: c, evs: Event::input(), data: 5 };
    assert!(d.ctl_ok(&socks, &op));
    d.ctl(&socks, op).unwrap();
    let subs = d.sweep(&socks);
    assert_eq!(subs.len(), 1);
    d.note_submitted(&mut socks, &subs[0], 50);
    // the caller closes the socket while the pop is in flight
    let mut closed = socks.take(c);
    closed.mark_closed();
    // the next sweep evicts the interest item; the in-flight completion is
    // never matched (its token is not collected again)
    let subs = d.sweep(&socks);
    assert_eq!(subs.len(), 0);
    assert_eq!(d.items.inner.len(), 0);
    assert_eq!(d.qtokens().len(), 0);
    assert!(!d.has_ready());
}

#[test]
fn empty_interest_set_times_out() {
    let socks: Buffer<true, Socket> = Buffer::new();
    let mut d = Dpoll::new();
    let subs = d.sweep(&socks);
    assert_eq!(subs.len(), 0);
    assert!(!d.needs_engine_wait());
    let out = d.drain(&socks, 16);
    assert_eq!(out.len(), 0);
    assert_eq!(Dpoll::pwait_result(0, 0), Err(PosixError::TIMEDOUT));
}

#[test]
fn ctl_add_then_del_restores_state() {
    let mut socks: Buffer<true, Socket> = Buffer::new();
    let mut d = Dpoll::new();
    let a = active_socket(&mut socks, 3);
    let b = active_socket(&mut socks, 9);
    let keep = DpollOperation::Add { soc: a, evs: Event::input(), data: 1 };
    assert!(d.ctl_ok(&socks, &keep));
    d.ctl(&socks, keep).unwrap();
    let items_before = d.items.inner.clone();
    let ready_before = d.ready_list.list.clone();
    let add = DpollOperation::Add { soc: b, evs: Event::all(), data: 2 };
    assert!(d.ctl_ok(&socks, &add));
    d.ctl(&socks, add).unwrap();
    assert_eq!(d.items.inner.len(), 2);
    let del = DpollOperation::Del { qd: 9 };
    assert!(d.ctl_ok(&socks, &del));
    d.ctl(&socks, del).unwrap();
    assert_eq!(d.items.inner, items_before);
    assert_eq!(d.ready_list.list, ready_before);
}

#[test]
fn ctl_mod_replaces_event_mask() {
    let mut socks: Buffer<true, Socket> = Buffer::new();
    let mut d = Dpoll::new();
    let a = active_socket(&mut socks, 3);
    let add = DpollOperation::Add { soc: a, evs: Event::input(), data: 1 };
    assert!(d.ctl_ok(&socks, &add));
    d.ctl(&socks, add).unwrap();
    let m = DpollOperation::Mod { qd: 3, evs: Event::all() };
    assert!(d.ctl_ok(&socks, &m));
    d.ctl(&socks, m).unwrap();
    assert_eq!(d.items.inner[0].evs, Event::all());
    assert_eq!(d.items.inner[0].data, 1);
}

#[test]
fn ready_list_flag_matches_membership() {
    let mut socks: Buffer<true, Socket> = Buffer::new();
    let mut d = Dpoll::new();
    let c = active_socket(&mut socks, 5);
    let add = DpollOperation::Add { soc: c, evs: Event::all(), data: 4 };
    assert!(d.ctl_ok(&socks, &add));
    d.ctl(&socks, add).unwrap();
    assert!(!d.items.inner[0].on_readylist);
    // the idle write makes the socket immediately writable: the sweep
    // promotes it
    let subs = d.sweep(&socks);
    d.note_submitted(&mut socks, &subs[0], 1);
    assert!(d.items.inner[0].on_readylist);
    assert_eq!(d.ready_list.list.len(), 1);
    assert_eq!(d.ready_list.list[0], (5, 4));
    // a completion for an already-listed item does not duplicate it
    d.deliver(&mut socks, 5, QResultValue::Pop(SgArray::from_segments(vec![vec![1u8]])));
    assert_eq!(d.ready_list.list.len(), 1);
    assert!(d.items.inner[0].on_readylist);
    // draining clears the flag with the entry
    let out = d.drain(&socks, 4);
    assert_eq!(out.len(), 1);
    assert!(!d.items.inner[0].on_readylist);
    assert_eq!(d.ready_list.list.len(), 0);
}

#[test]
fn undrained_completion_reported_again() {
    // the level-triggered law on concrete values: pwait reports IN, the
    // caller performs no read, and the next pwait reports IN again
    let mut socks: Buffer<true, Socket> = Buffer::new();
    let mut d = Dpoll::new();
    let c = active_socket(&mut socks, 5);
    let add = DpollOperation::Add { soc: c, evs: Event::input(), data: 4 };
    assert!(d.ctl_ok(&socks, &add));
    d.ctl(&socks, add).unwrap();
    let subs = d.sweep(&socks);
    d.note_submitted(&mut socks, &subs[0], 1);
    d.deliver(&mut socks, 5, QResultValue::Pop(SgArray::from_segments(vec![vec![9u8]])));
    let out = d.drain(&socks, 8);
    assert_eq!(out.len(), 1);
    assert!(out[0].events.incoming);
    // no read happens; the next sweep promotes the socket again
    let subs = d.sweep(&socks);
    assert_eq!(subs.len(), 0);
    let out2 = d.drain(&socks, 8);
    assert_eq!(out2.len(), 1);
    assert!(out2[0].events.incoming);
    assert_eq!(out2[0].data, 4);
}

#[test]
fn consecutive_pwaits_agree_without_io() {
    let mut socks: Buffer<true, Socket> = Buffer::new();
    let mut d = Dpoll::new();
    let a = active_socket(&mut socks, 3);
    let b = active_socket(&mut socks, 9);
    for (soc, qd, data) in [(a, 3u32, 30u64), (b, 9, 90)] {
        let add = DpollOperation::Add { soc, evs: Event::all(), data };
        assert!(d.ctl_ok(&socks, &add));
        d.ctl(&socks, add).unwrap();
        let _ = qd;
    }
    // both sockets are writable (idle writes): two identical cycles
    let subs = d.sweep(&socks);
    for (i, rq) in subs.iter().enumerate() {
        d.note_submitted(&mut socks, rq, i as u64);
    }
    let first: Vec<u64> = d.drain(&socks, 8).iter().map(|r| r.data).collect();
    let subs = d.sweep(&socks);
    assert_eq!(subs.len(), 0);
    let second: Vec<u64> = d.drain(&socks, 8).iter().map(|r| r.data).collect();
    assert_eq!(first, second);
    assert_eq!(first, vec![30, 90]);
}

#[test]
fn failed_push_surfaces_engine_errno() {
    let mut socks: Buffer<true, Socket> = Buffer::new();
    let c = active_socket(&mut socks, 5);
    {
        let s = socks.get_mut(c);
        s.write_clear_ack().unwrap();
        s.push_started(SgArray::from_slice(&vec![1u8]), 10);
    }
    // the engine reports the push failed with a connection reset
    assert!(socks.get(c).unwrap().has_running_token(10));
    socks.get_mut(c).process_failure(10, PosixError::CONNRESET);
    let r = socks.get_mut(c).write_clear_ack();
    assert_eq!(r, Err(PosixError::CONNRESET));
    // the error is consumed; the next write may queue again
    assert!(matches!(socks.get(c).unwrap().write_gate(false), IoGate::Ready));
}

#[test]
fn failed_pop_surfaces_at_the_next_read() {
    let mut socks: Buffer<true, Socket> = Buffer::new();
    let mut d = Dpoll::new();
    let c = active_socket(&mut socks, 5);
    let add = DpollOperation::Add { soc: c, evs: Event::input(), data: 6 };
    assert!(d.ctl_ok(&socks, &add));
    d.ctl(&socks, add).unwrap();
    let subs = d.sweep(&socks);
    assert_eq!(subs.len(), 1);
    d.note_submitted(&mut socks, &subs[0], 77);
    // the engine reports the pop failed: the failure is delivered like any
    // completion and the item becomes ready
    assert!(d.can_fail(&socks, 5, 77));
    d.deliver_failure(&mut socks, 5, 77, PosixError::CONNRESET);
    let out = d.drain(&socks, 8);
    assert_eq!(out.len(), 1);
    assert!(out[0].events.incoming);
    // the stored errno is propagated verbatim by the next read and consumed
    let (r, resubmit) = socks.get_mut(c).read_ready(16);
    assert_eq!(r, Err(PosixError::CONNRESET));
    assert!(!resubmit);
    assert!(matches!(socks.get(c).unwrap().read_gate(false), IoGate::Submit));
}

#[test]
fn failed_accept_surfaces_at_the_next_accept() {
    let mut s = Socket::new(9);
    assert!(matches!(s.accept_gate(), IoGate::Submit));
    s.accept_started(40);
    assert!(s.has_running_token(40));
    assert!(!s.has_running_token(41));
    s.process_failure(40, PosixError::CONNABORTED);
    assert!(matches!(s.accept_gate(), IoGate::Ready));
    assert_eq!(s.accept_take().err(), Some(PosixError::CONNABORTED));
    assert!(matches!(s.accept_gate(), IoGate::Submit));
}

#[test]
fn operation_state_machine_cycles() {
    let mut op: Operation<(), u32> = Operation::new();
    assert!(op.is_idle());
    op.start(5, ());
    assert!(op.is_running());
    assert_eq!(op.token(), 5);
    op.complete(Ok(42));
    assert!(op.is_finished());
    assert_eq!(op.take(), Ok(42));
    assert!(op.is_idle());
}

#[test]
fn op_from_raw_decodes_control_requests() {
    let mut socks: Buffer<true, Socket> = Buffer::new();
    let c = active_socket(&mut socks, 5);
    match Dpoll::op_from_raw(&socks, 1, c, Some((5, 88))) {
        DpollOperation::Add { soc, evs, data } => {
            assert_eq!(soc, c);
            assert_eq!(evs, Event::all());
            assert_eq!(data, 88);
        }
        _ => panic!("wrong decode"),
    }
    match Dpoll::op_from_raw(&socks, 2, c, None) {
        DpollOperation::Del { qd } => assert_eq!(qd, 5),
        _ => panic!("wrong decode"),
    }
    match Dpoll::op_from_raw(&socks, 3, c, Some((1, 0))) {
        DpollOperation::Mod { qd, evs } => {
            assert_eq!(qd, 5);
            assert_eq!(evs, Event::input());
        }
        _ => panic!("wrong decode"),
    }
}
