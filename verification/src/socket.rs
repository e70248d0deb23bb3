use vstd::prelude::*;

use crate::completion::{AcceptResult, QResultValue, SockAddr};
use crate::errno::{PosixError, PosixResult};
use crate::event::Event;
use crate::operation::{Operation, SubmitKind};
use crate::sga::{SgArray, SgArrayByteIter};

verus! {

/// The role payload of a socket, fixed by its first non-trivial operation:
/// a passive socket owns exactly one accept operation, an active one
/// exactly one write and one read operation. This is the whole in-flight
/// state of a socket, so at most one operation per direction can ever be
/// outstanding.
pub enum SocketData {
    Passive { accept: Operation<(), AcceptResult> },
    Active { write: Operation<SgArray, ()>, read: Operation<(), SgArrayByteIter> },
}

impl SocketData {
    pub fn new_passive() -> (r: SocketData)
        ensures
            r == (SocketData::Passive { accept: Operation::<(), AcceptResult>::Idle }),
    {
        SocketData::Passive { accept: Operation::new() }
    }

    pub fn new_active() -> (r: SocketData)
        ensures
            r == (SocketData::Active {
                write: Operation::<SgArray, ()>::Idle,
                read: Operation::<(), SgArrayByteIter>::Idle,
            }),
    {
        SocketData::Active { write: Operation::new(), read: Operation::new() }
    }
}

/// Decision of a non-blocking I/O entry point: what the shim must do next.
pub enum IoGate {
    /// The operation does not fit the socket's role; fail with `INVAL`.
    Invalid,
    /// A zero-length transfer: return 0 without touching any state.
    ZeroLen,
    /// The operation is idle: submit it to the engine, then record the
    /// token; the call returns `WOULDBLOCK`.
    Submit,
    /// The operation is running under this token: poll it with a zero
    /// timeout and deliver any completion.
    Poll(u64),
    /// A completion is stored (for a write: no push is running): proceed.
    Ready,
}

/// One fast-path socket: its engine descriptor, the address pinned by
/// `bind` (for `getsockname`), the open flag cleared by `close`, and the
/// role payload with the per-direction operation state machines.
pub struct Socket {
    pub qd: u32,
    pub addr: Option<SockAddr>,
    pub open: bool,
    pub data: SocketData,
}

impl Socket {
    pub open spec fn spec_is_passive(self) -> bool {
        self.data is Passive
    }

    pub open spec fn spec_is_active(self) -> bool {
        self.data is Active
    }

    /// The accept operation of a passive socket.
    pub open spec fn spec_accept(self) -> Operation<(), AcceptResult>
        recommends
            self.spec_is_passive(),
    {
        match self.data {
            SocketData::Passive { accept } => accept,
            _ => Operation::Idle,
        }
    }

    /// The write operation of an active socket.
    pub open spec fn spec_write(self) -> Operation<SgArray, ()>
        recommends
            self.spec_is_active(),
    {
        match self.data {
            SocketData::Active { write, .. } => write,
            _ => Operation::Idle,
        }
    }

    /// The read operation of an active socket.
    pub open spec fn spec_read(self) -> Operation<(), SgArrayByteIter>
        recommends
            self.spec_is_active(),
    {
        match self.data {
            SocketData::Active { read, .. } => read,
            _ => Operation::Idle,
        }
    }

    /// Well-formedness: a stored receive completion holds a well-formed
    /// byte cursor. Every constructor establishes this and every method
    /// preserves it.
    pub open spec fn wf(self) -> bool {
        match self.data {
            SocketData::Active { read, .. } => match read {
                Operation::Completed(Result::Ok(it)) => it.wf(),
                _ => true,
            },
            SocketData::Passive { .. } => true,
        }
    }

    /// A fresh socket over an engine descriptor: open, unbound, shaped
    /// passive with no accept in flight.
    pub fn new(qd: u32) -> (r: Socket)
        ensures
            r == (Socket {
                qd,
                addr: Option::<SockAddr>::None,
                open: true,
                data: SocketData::Passive { accept: Operation::<(), AcceptResult>::Idle },
            }),
    {
        Socket { qd, addr: None, open: true, data: SocketData::new_passive() }
    }

    /// The active socket an accept completion stands up: open, pinned to
    /// the peer address, with no operation in flight.
    pub fn from_accept(res: AcceptResult) -> (r: Socket)
        ensures
            r == (Socket {
                qd: res.qd,
                addr: Option::Some(res.addr),
                open: true,
                data: SocketData::Active {
                    write: Operation::<SgArray, ()>::Idle,
                    read: Operation::<(), SgArrayByteIter>::Idle,
                },
            }),
    {
        let qd = res.qd;
        let addr = res.addr;
        Socket { qd, addr: Some(addr), open: true, data: SocketData::new_active() }
    }

    /// Records a successful engine bind: pins the address for
    /// `getsockname` and forces the role to passive (unconditionally, with
    /// a fresh idle accept operation).
    pub fn bind_recorded(&mut self, addr: SockAddr)
        ensures
            *final(self) == (Socket {
                addr: Option::Some(addr),
                data: SocketData::Passive { accept: Operation::<(), AcceptResult>::Idle },
                ..*old(self)
            }),
    {
        self.addr = Some(addr);
        self.data = SocketData::new_passive();
    }

    /// Role check of `listen`: only a passive socket may listen; on an
    /// active one the operation is invalid.
    pub fn listen_check(&self) -> (r: PosixResult<()>)
        ensures
            self.spec_is_passive() ==> r is Ok,
            self.spec_is_active() ==> r == Result::<(), PosixError>::Err(PosixError::INVAL),
    {
        match &self.data {
            SocketData::Passive { .. } => Ok(()),
            SocketData::Active { .. } => Err(PosixError::INVAL),
        }
    }

    /// Records `close`: the engine handle has been closed; the socket no
    /// longer accepts work, and the dpoll evicts its interest item on the
    /// next sweep. Nothing else changes (in-flight state is abandoned, not
    /// settled).
    pub fn mark_closed(&mut self)
        requires
            old(self).open,
        ensures
            *final(self) == (Socket { open: false, ..*old(self) }),
    {
        self.open = false;
    }

    /// The events of `evs` the socket could deliver right now, from current
    /// state: a passive socket is readable when an accept completion is
    /// stored; an active one is readable when a pop completion is stored,
    /// and writable whenever no push is running.
    pub open spec fn spec_available(self, evs: Event) -> Event {
        match self.data {
            SocketData::Passive { accept } => Event {
                incoming: evs.incoming && accept is Completed,
                outgoing: false,
            },
            SocketData::Active { write, read } => Event {
                incoming: evs.incoming && read is Completed,
                outgoing: evs.outgoing && !(write is Running),
            },
        }
    }

    pub fn available_events(&self, evs: Event) -> (r: Event)
        ensures
            r == self.spec_available(evs),
    {
        let other = match &self.data {
            SocketData::Passive { accept } => {
                if accept.is_finished() {
                    Event::input()
                } else {
                    Event::empty()
                }
            },
            SocketData::Active { write, read } => {
                let w = if !write.is_running() {
                    Event::output()
                } else {
                    Event::empty()
                };
                let r = if read.is_finished() {
                    Event::input()
                } else {
                    Event::empty()
                };
                w.union(r)
            },
        };
        evs.intersection(other)
    }

    /// The queue tokens of the running operations that a sweep must wait
    /// on: the read-direction token when `IN` is requested, and always the
    /// write token while a push is in flight.
    pub open spec fn spec_schedule_tokens(self, evs: Event) -> Seq<u64> {
        match self.data {
            SocketData::Passive { accept } => if evs.incoming && accept is Running {
                seq![accept.spec_token()]
            } else {
                Seq::empty()
            },
            SocketData::Active { write, read } => {
                let r = if evs.incoming && read is Running {
                    seq![read.spec_token()]
                } else {
                    Seq::empty()
                };
                let w = if write is Running {
                    seq![write.spec_token()]
                } else {
                    Seq::empty()
                };
                r + w
            },
        }
    }

    /// The submission a sweep must make for this socket: an accept or a pop
    /// where `IN` is requested and the matching operation is idle.
    pub open spec fn spec_schedule_submit(self, evs: Event) -> Option<SubmitKind> {
        match self.data {
            SocketData::Passive { accept } => if evs.incoming && accept is Idle {
                Option::Some(SubmitKind::Accept)
            } else {
                Option::None
            },
            SocketData::Active { write, read } => if evs.incoming && read is Idle {
                Option::Some(SubmitKind::Pop)
            } else {
                Option::None
            },
        }
    }

    /// Collects the tokens already in flight for the requested directions
    /// into `qtoks`, and names the submission (if any) the caller must make
    /// so that every requested direction has an operation in flight.
    ///
    /// Callers pass the requested events minus the available ones, so a
    /// requested direction never has a stored completion, and `OUT` is
    /// requested only while a push is running.
    pub fn schedule_events(&self, evs: Event, qtoks: &mut Vec<u64>) -> (r: Option<SubmitKind>)
        requires
            self.spec_is_passive() && evs.incoming ==> !(self.spec_accept() is Completed),
            self.spec_is_active() && evs.incoming ==> !(self.spec_read() is Completed),
            self.spec_is_active() && evs.outgoing ==> self.spec_write() is Running,
        ensures
            final(qtoks)@ == old(qtoks)@ + self.spec_schedule_tokens(evs),
            r == self.spec_schedule_submit(evs),
    {
        match &self.data {
            SocketData::Passive { accept } => {
                if evs.incoming {
                    if accept.is_running() {
                        qtoks.push(accept.token());
                        proof {
                            assert(qtoks@ =~= old(qtoks)@ + self.spec_schedule_tokens(evs));
                        }
                        None
                    } else {
                        proof {
                            assert(qtoks@ =~= old(qtoks)@ + self.spec_schedule_tokens(evs));
                        }
                        Some(SubmitKind::Accept)
                    }
                } else {
                    proof {
                        assert(qtoks@ =~= old(qtoks)@ + self.spec_schedule_tokens(evs));
                    }
                    None
                }
            },
            SocketData::Active { write, read } => {
                let r = if evs.incoming {
                    if read.is_running() {
                        qtoks.push(read.token());
                        None
                    } else {
                        Some(SubmitKind::Pop)
                    }
                } else {
                    None
                };
                if write.is_running() {
                    qtoks.push(write.token());
                }
                proof {
                    assert(qtoks@ =~= old(qtoks)@ + self.spec_schedule_tokens(evs));
                }
                r
            },
        }
    }

    /// Whether an engine completion with this payload fits the socket's
    /// role and in-flight state: the matching operation must be running.
    pub open spec fn spec_accepts_event(self, val: QResultValue) -> bool {
        match self.data {
            SocketData::Passive { accept } => (val is Accept) && accept is Running,
            SocketData::Active { write, read } => match val {
                QResultValue::Push => write is Running,
                QResultValue::Pop(_) => read is Running,
                QResultValue::Accept(_) => false,
            },
        }
    }

    pub fn accepts_event(&self, val: &QResultValue) -> (r: bool)
        ensures
            r == self.spec_accepts_event(*val),
    {
        match (&self.data, val) {
            (SocketData::Passive { accept }, QResultValue::Accept(_)) => accept.is_running(),
            (SocketData::Active { write, .. }, QResultValue::Push) => write.is_running(),
            (SocketData::Active { read, .. }, QResultValue::Pop(_)) => read.is_running(),
            _ => false,
        }
    }

    /// The socket after an engine completion with payload `val` has been
    /// delivered: the matching operation moves to completed; a received
    /// buffer is wrapped in a fresh byte cursor.
    pub open spec fn spec_after_event(self, val: QResultValue) -> Socket {
        Socket {
            data: match val {
                QResultValue::Accept(acc) => SocketData::Passive {
                    accept: Operation::Completed(Result::Ok(acc)),
                },
                QResultValue::Push => SocketData::Active {
                    write: Operation::Completed(Result::Ok(())),
                    read: self.spec_read(),
                },
                QResultValue::Pop(sga) => SocketData::Active {
                    write: self.spec_write(),
                    read: Operation::Completed(
                        Result::Ok(SgArrayByteIter { sga, seg_off: 0, byte_off: 0 }),
                    ),
                },
            },
            ..self
        }
    }

    /// Drives the matching operation to completed with the payload the
    /// engine delivered: an accept result on a passive socket; a push
    /// acknowledgement or a received buffer (turned into a fresh byte
    /// cursor) on an active one.
    pub fn process_event(&mut self, val: QResultValue)
        requires
            old(self).spec_accepts_event(val),
        ensures
            *final(self) == old(self).spec_after_event(val),
    {
        match val {
            QResultValue::Accept(acc) => {
                match &mut self.data {
                    SocketData::Passive { accept } => {
                        accept.complete(Ok(acc));
                    },
                    SocketData::Active { .. } => {
                        proof {
                            assert(false);
                        }
                    },
                }
            },
            QResultValue::Push => {
                match &mut self.data {
                    SocketData::Active { write, .. } => {
                        write.complete(Ok(()));
                    },
                    SocketData::Passive { .. } => {
                        proof {
                            assert(false);
                        }
                    },
                }
            },
            QResultValue::Pop(sga) => {
                match &mut self.data {
                    SocketData::Active { read, .. } => {
                        read.complete(Ok(sga.into_iter()));
                    },
                    SocketData::Passive { .. } => {
                        proof {
                            assert(false);
                        }
                    },
                }
            },
        }
    }

    /// Whether some in-flight operation of this socket runs under this
    /// queue token (the token a failed completion answers).
    pub open spec fn spec_has_running_token(self, qt: u64) -> bool {
        match self.data {
            SocketData::Passive { accept } => accept is Running && accept.spec_token() == qt,
            SocketData::Active { write, read } => (read is Running && read.spec_token() == qt) || (
            write is Running && write.spec_token() == qt),
        }
    }

    pub fn has_running_token(&self, qt: u64) -> (r: bool)
        ensures
            r == self.spec_has_running_token(qt),
    {
        match &self.data {
            SocketData::Passive { accept } => accept.is_running() && accept.token() == qt,
            SocketData::Active { write, read } => (read.is_running() && read.token() == qt) || (
            write.is_running() && write.token() == qt),
        }
    }

    /// The socket after the engine reported failure for the operation
    /// running under `qt`: that operation completes carrying the mapped
    /// errno (the read direction takes precedence where, improbably, both
    /// directions ran under one token).
    pub open spec fn spec_after_failure(self, qt: u64, e: PosixError) -> Socket {
        Socket {
            data: match self.data {
                SocketData::Passive { accept } => SocketData::Passive {
                    accept: Operation::Completed(Result::Err(e)),
                },
                SocketData::Active { write, read } => if read is Running && read.spec_token()
                    == qt {
                    SocketData::Active { write, read: Operation::Completed(Result::Err(e)) }
                } else {
                    SocketData::Active { write: Operation::Completed(Result::Err(e)), read }
                },
            },
            ..self
        }
    }

    /// Drives the operation running under `qt` to completed with the errno
    /// the engine's failed completion carried, dropping the retained
    /// payload. The errno then surfaces at the next accept / read / write.
    pub fn process_failure(&mut self, qt: u64, e: PosixError)
        requires
            old(self).spec_has_running_token(qt),
        ensures
            *final(self) == old(self).spec_after_failure(qt, e),
    {
        match &mut self.data {
            SocketData::Passive { accept } => {
                accept.complete(Err(e));
            },
            SocketData::Active { write, read } => {
                if read.is_running() && read.token() == qt {
                    read.complete(Err(e));
                } else {
                    write.complete(Err(e));
                }
            },
        }
    }

    /// The decision of a `read`/`readv` call, before any engine call: a
    /// zero-length destination returns 0 untouched; a passive socket cannot
    /// read; an idle read needs a pop submitted (and would block); a
    /// running one needs a zero-timeout poll; a stored completion is ready
    /// to copy from.
    pub fn read_gate(&self, zero: bool) -> (r: IoGate)
        ensures
            r == if zero {
                IoGate::ZeroLen
            } else if self.spec_is_passive() {
                IoGate::Invalid
            } else if self.spec_read() is Idle {
                IoGate::Submit
            } else if self.spec_read() is Running {
                IoGate::Poll(self.spec_read().spec_token())
            } else {
                IoGate::Ready
            },
    {
        if zero {
            return IoGate::ZeroLen;
        }
        match &self.data {
            SocketData::Passive { .. } => IoGate::Invalid,
            SocketData::Active { read, .. } => {
                if read.is_idle() {
                    IoGate::Submit
                } else if read.is_running() {
                    IoGate::Poll(read.token())
                } else {
                    IoGate::Ready
                }
            },
        }
    }

    /// Records a pop just submitted for the read direction.
    pub fn pop_started(&mut self, token: u64)
        requires
            old(self).spec_is_active(),
            old(self).spec_read() is Idle,
        ensures
            *final(self) == (Socket {
                data: SocketData::Active {
                    write: old(self).spec_write(),
                    read: Operation::<(), SgArrayByteIter>::Running { payload: (), token },
                },
                ..*old(self)
            }),
    {
        match &mut self.data {
            SocketData::Active { read, .. } => {
                read.start(token, ());
            },
            _ => {
                proof {
                    assert(false);
                }
            },
        }
    }

    /// Records an accept just submitted on a passive socket.
    pub fn accept_started(&mut self, token: u64)
        requires
            old(self).spec_is_passive(),
            old(self).spec_accept() is Idle,
        ensures
            *final(self) == (Socket {
                data: SocketData::Passive {
                    accept: Operation::<(), AcceptResult>::Running { payload: (), token },
                },
                ..*old(self)
            }),
    {
        match &mut self.data {
            SocketData::Passive { accept } => {
                accept.start(token, ());
            },
            _ => {
                proof {
                    assert(false);
                }
            },
        }
    }

    /// The decision of an `accept` call: only a passive socket accepts;
    /// otherwise as `read_gate`, over the accept operation.
    pub fn accept_gate(&self) -> (r: IoGate)
        ensures
            r == if self.spec_is_active() {
                IoGate::Invalid
            } else if self.spec_accept() is Idle {
                IoGate::Submit
            } else if self.spec_accept() is Running {
                IoGate::Poll(self.spec_accept().spec_token())
            } else {
                IoGate::Ready
            },
    {
        match &self.data {
            SocketData::Active { .. } => IoGate::Invalid,
            SocketData::Passive { accept } => {
                if accept.is_idle() {
                    IoGate::Submit
                } else if accept.is_running() {
                    IoGate::Poll(accept.token())
                } else {
                    IoGate::Ready
                }
            },
        }
    }

    /// Consumes a stored accept completion, returning the accepted
    /// connection (or the engine's error, propagated verbatim). The accept
    /// operation returns to idle either way.
    pub fn accept_take(&mut self) -> (r: PosixResult<AcceptResult>)
        requires
            old(self).spec_is_passive(),
            old(self).spec_accept() is Completed,
        ensures
            old(self).spec_accept() == Operation::<(), AcceptResult>::Completed(r),
            *final(self) == (Socket {
                data: SocketData::Passive { accept: Operation::<(), AcceptResult>::Idle },
                ..*old(self)
            }),
    {
        match &mut self.data {
            SocketData::Passive { accept } => accept.take(),
            _ => vstd::pervasive::unreached(),
        }
    }

    /// The decision of a `write`/`writev` call: a zero-length source
    /// returns 0 untouched; a passive socket cannot write; a running push
    /// is back-pressure (poll it, and would-block if still unsettled);
    /// otherwise the socket is clear to queue the bytes.
    pub fn write_gate(&self, zero: bool) -> (r: IoGate)
        ensures
            r == if zero {
                IoGate::ZeroLen
            } else if self.spec_is_passive() {
                IoGate::Invalid
            } else if self.spec_write() is Running {
                IoGate::Poll(self.spec_write().spec_token())
            } else {
                IoGate::Ready
            },
    {
        if zero {
            return IoGate::ZeroLen;
        }
        match &self.data {
            SocketData::Passive { .. } => IoGate::Invalid,
            SocketData::Active { write, .. } => {
                if write.is_running() {
                    IoGate::Poll(write.token())
                } else {
                    IoGate::Ready
                }
            },
        }
    }

    /// Drains the acknowledgement of the previous push, if one is stored,
    /// before a new push may be queued; a failed push surfaces its errno
    /// here. Afterwards the write operation is idle.
    pub fn write_clear_ack(&mut self) -> (r: PosixResult<()>)
        requires
            old(self).spec_is_active(),
            !(old(self).spec_write() is Running),
        ensures
            *final(self) == (Socket {
                data: SocketData::Active {
                    write: Operation::<SgArray, ()>::Idle,
                    read: old(self).spec_read(),
                },
                ..*old(self)
            }),
            match old(self).spec_write() {
                Operation::Idle => r is Ok,
                Operation::Completed(res) => r == res,
                Operation::Running { .. } => false,
            },
    {
        match &mut self.data {
            SocketData::Active { write, .. } => {
                if write.is_finished() {
                    write.take()
                } else {
                    Ok(())
                }
            },
            _ => vstd::pervasive::unreached(),
        }
    }

    /// Records a push just submitted: the scatter-gather buffer is retained
    /// inside the running state so its memory stays valid until the engine
    /// acknowledges, and the call reports the whole byte count as queued.
    pub fn push_started(&mut self, sga: SgArray, token: u64) -> (r: usize)
        requires
            old(self).spec_is_active(),
            old(self).spec_write() is Idle,
            sga.flat().len() <= usize::MAX,
        ensures
            r == sga.flat().len(),
            *final(self) == (Socket {
                data: SocketData::Active {
                    write: Operation::<SgArray, ()>::Running { payload: sga, token },
                    read: old(self).spec_read(),
                },
                ..*old(self)
            }),
    {
        let len = sga.len();
        match &mut self.data {
            SocketData::Active { write, .. } => {
                write.start(token, sga);
            },
            _ => {
                proof {
                    assert(false);
                }
            },
        }
        len
    }

    /// Copies up to `max` bytes out of the stored receive buffer through
    /// its cursor. When the cursor is exhausted the completion is consumed
    /// (releasing the buffer) and the second result asks the caller to
    /// submit the next pop at once, so later reads observe readiness as
    /// soon as more data arrives. A stored engine failure is propagated
    /// verbatim and consumed.
    pub fn read_ready(&mut self, max: usize) -> (r: (PosixResult<Vec<u8>>, bool))
        requires
            old(self).wf(),
            old(self).spec_is_active(),
            old(self).spec_read() is Completed,
            max > 0,
        ensures
            final(self).wf(),
            final(self).qd == old(self).qd,
            final(self).addr == old(self).addr,
            final(self).open == old(self).open,
            final(self).spec_is_active(),
            final(self).spec_write() == old(self).spec_write(),
            match old(self).spec_read() {
                Operation::Completed(Result::Err(e)) => {
                    &&& r.0 == Result::<Vec<u8>, PosixError>::Err(e)
                    &&& r.1 == false
                    &&& final(self).spec_read() is Idle
                },
                Operation::Completed(Result::Ok(it)) => {
                    if it.seg_off >= it.sga.segs.len() {
                        // already exhausted: consume and ask for the next pop
                        &&& r.0 == Result::<Vec<u8>, PosixError>::Err(PosixError::WOULDBLOCK)
                        &&& r.1 == true
                        &&& final(self).spec_read() is Idle
                    } else {
                        let after = crate::sga::spec_after_copy(it, max as int);
                        &&& r.0 matches Result::Ok(v) && v@ == it.remaining().take(
                            vstd::math::min(max as int, it.remaining().len() as int),
                        )
                        // the completion is consumed (and the next pop asked
                        // for) exactly when the copy exhausts the cursor;
                        // otherwise it is put back, advanced by the copy
                        &&& r.1 == (after.seg_off >= after.sga.segs.len())
                        &&& (r.1 ==> final(self).spec_read() is Idle)
                        &&& (!r.1 ==> final(self).spec_read() == Operation::<
                            (),
                            SgArrayByteIter,
                        >::Completed(Result::Ok(after)))
                    }
                },
                _ => false,
            },
    {
        match &mut self.data {
            SocketData::Active { read, .. } => {
                match read.take() {
                    Err(e) => (Err(e), false),
                    Ok(mut it) => {
                        match it.copy_bytes(max) {
                            None => (Err(PosixError::WOULDBLOCK), true),
                            Some(v) => {
                                if it.is_empty() {
                                    (Ok(v), true)
                                } else {
                                    read.put(Ok(it));
                                    (Ok(v), false)
                                }
                            },
                        }
                    },
                }
            },
            _ => vstd::pervasive::unreached(),
        }
    }

    /// As `read_ready`, but filling runs of the given lengths (the
    /// caller's iovecs) in order.
    pub fn readv_ready(&mut self, lens: &Vec<usize>) -> (r: (PosixResult<Vec<Vec<u8>>>, bool))
        requires
            old(self).wf(),
            old(self).spec_is_active(),
            old(self).spec_read() is Completed,
        ensures
            final(self).wf(),
            final(self).qd == old(self).qd,
            final(self).addr == old(self).addr,
            final(self).open == old(self).open,
            final(self).spec_is_active(),
            final(self).spec_write() == old(self).spec_write(),
            match old(self).spec_read() {
                Operation::Completed(Result::Err(e)) => {
                    &&& r.0 == Result::<Vec<Vec<u8>>, PosixError>::Err(e)
                    &&& r.1 == false
                    &&& final(self).spec_read() is Idle
                },
                Operation::Completed(Result::Ok(it)) => {
                    if it.seg_off >= it.sga.segs.len() {
                        &&& r.0 == Result::<Vec<Vec<u8>>, PosixError>::Err(
                            PosixError::WOULDBLOCK,
                        )
                        &&& r.1 == true
                        &&& final(self).spec_read() is Idle
                    } else {
                        let after = crate::sga::spec_after_iovecs(it, lens@);
                        &&& r.0 matches Result::Ok(vs) && {
                            &&& vs.len() <= lens.len()
                            &&& crate::sga::suffix_flat(vs.deep_view(), 0).len()
                                == vstd::math::min(
                                crate::sga::spec_len_sum(lens@, lens.len() as int),
                                it.remaining().len() as int,
                            )
                            &&& crate::sga::suffix_flat(vs.deep_view(), 0) == it.remaining().take(
                                crate::sga::suffix_flat(vs.deep_view(), 0).len() as int,
                            )
                            &&& forall|m: int|
                                0 <= m < vs.len() ==> (#[trigger] vs@[m])@.len() <= lens[m]
                            &&& forall|m: int|
                                0 <= m < vs.len() - 1 ==> (#[trigger] vs@[m])@.len() == lens[m]
                        }
                        // consumed (and the next pop asked for) exactly when
                        // the runs exhaust the cursor; otherwise put back,
                        // advanced by what was copied
                        &&& r.1 == (after.seg_off >= after.sga.segs.len())
                        &&& (r.1 ==> final(self).spec_read() is Idle)
                        &&& (!r.1 ==> final(self).spec_read() == Operation::<
                            (),
                            SgArrayByteIter,
                        >::Completed(Result::Ok(after)))
                    }
                },
                _ => false,
            },
    {
        match &mut self.data {
            SocketData::Active { read, .. } => {
                match read.take() {
                    Err(e) => (Err(e), false),
                    Ok(mut it) => {
                        match it.copy_into_iovecs(lens) {
                            None => (Err(PosixError::WOULDBLOCK), true),
                            Some(vs) => {
                                if it.is_empty() {
                                    (Ok(vs), true)
                                } else {
                                    read.put(Ok(it));
                                    (Ok(vs), false)
                                }
                            },
                        }
                    },
                }
            },
            _ => vstd::pervasive::unreached(),
        }
    }
}

/// The shim's shortcut for vectored I/O: a call with no iovec, or whose
/// first iovec is empty, returns 0 without touching any state.
pub fn iovec_shortcut(lens: &Vec<usize>) -> (r: bool)
    ensures
        r == (lens.len() == 0 || lens[0] == 0),
{
    lens.len() == 0 || lens[0] == 0
}


/// At most one operation per direction is ever in flight: a socket owns
/// exactly one accept operation (passive) or one write and one read
/// operation (active); a submission starts only an idle operation; and the
/// sweep collects at most the one running token per direction, asking for
/// a new submission only where the matching operation is idle.
pub proof fn lemma_one_inflight_per_direction(s: Socket, evs: Event)
    ensures
        s.spec_schedule_tokens(evs).len() <= 2,
        match s.spec_schedule_submit(evs) {
            Option::Some(SubmitKind::Accept) => s.spec_is_passive() && s.spec_accept() is Idle,
            Option::Some(SubmitKind::Pop) => s.spec_is_active() && s.spec_read() is Idle,
            Option::None => true,
        },
{
}

} // verus!
