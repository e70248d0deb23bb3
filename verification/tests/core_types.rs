use dpoll::buffer::Buffer;
use dpoll::completion::{AcceptResult, Opcode, OpcError, QResult, QResultValue, SockAddr};
use dpoll::errno::PosixError;
use dpoll::event::{DpollErrors, Event};
use dpoll::handle::{classify_fd, FdClass, Generation, Index};
use dpoll::sga::{gather, SgArray};

#[test]
fn handle_fields_round_trip() {
    let h = Index::from_parts(5, Generation::from_bits(3), true);
    assert_eq!(h.index(), 5);
    assert_eq!(h.generation().into_bits(), 3);
    assert!(h.is_socket());
    assert!(h.is_dpoll());
    let h2 = Index::from_bits(h.into_bits());
    assert_eq!(h2, h);
}

#[test]
fn handle_encodes_dpoll_bit_and_positive_fd() {
    let h = Index::from_parts(0x1F_FFFF, Generation::from_bits(255), false);
    assert!(h.is_dpoll());
    assert!(!h.is_socket());
    assert_eq!(h.index(), 0x1F_FFFF);
    let fd = h.into_fd();
    assert!(fd >= 0);
    assert_ne!(fd & 0x4000_0000, 0);
}

#[test]
fn classify_routes_kernel_and_library_descriptors() {
    // small non-negative integers are kernel fds: bit 30 clear
    assert_eq!(classify_fd(0), FdClass::Kernel);
    assert_eq!(classify_fd(7), FdClass::Kernel);
    let soc = Index::from_parts(2, Generation::from_bits(0), true);
    match classify_fd(soc.into_fd()) {
        FdClass::LibSocket(idx) => assert_eq!(idx, soc),
        _ => panic!("socket handle misrouted"),
    }
    let pol = Index::from_parts(2, Generation::from_bits(0), false);
    match classify_fd(pol.into_fd()) {
        FdClass::LibDpoll(idx) => assert_eq!(idx, pol),
        _ => panic!("dpoll handle misrouted"),
    }
}

#[test]
fn allocate_yields_valid_generational_handle() {
    let mut buf: Buffer<true, u32> = Buffer::new();
    let h = buf.allocate(42);
    assert!(h.is_dpoll());
    assert!(h.is_socket());
    assert_eq!(h.index(), 0);
    assert_eq!(h.generation().into_bits(), 0);
    assert_eq!(buf.get(h), Some(&42));
}

#[test]
fn free_then_lookup_misses_and_realloc_changes_generation() {
    let mut buf: Buffer<false, u32> = Buffer::new();
    let h = buf.allocate(1);
    let _ = buf.allocate(2);
    buf.free(h);
    assert_eq!(buf.get(h), None);
    let h2 = buf.allocate(3);
    // the freed slot is reused, but under a different generation
    assert_eq!(h2.index(), h.index());
    assert_ne!(h2.generation(), h.generation());
    assert_eq!(buf.get(h2), Some(&3));
    assert_eq!(buf.get(h), None);
}

#[test]
fn take_returns_item_and_leaves_slot_free() {
    let mut buf: Buffer<true, &str> = Buffer::new_with_cap(4);
    let h = buf.allocate("a");
    let got = buf.take(h);
    assert_eq!(got, "a");
    assert_eq!(buf.get(h), None);
    // the vacated slot advances its generation, so the handle a later
    // allocation hands out for the same index never equals the taken one
    let h2 = buf.allocate("b");
    assert_eq!(h2.index(), h.index());
    assert_ne!(h2.generation(), h.generation());
    assert_ne!(h2, h);
    assert_eq!(buf.get(h), None);
}

#[test]
fn wrong_kind_handle_fails_lookup() {
    // a dpoll-kind handle given to the socket slab reports "no such item"
    let mut socks: Buffer<true, u32> = Buffer::new();
    let h = socks.allocate(9);
    let wrong = Index::from_parts(h.index(), h.generation(), false);
    assert_eq!(socks.get(wrong), None);
    assert_eq!(socks.get(h), Some(&9));
}

#[test]
fn errno_codes_round_trip() {
    assert_eq!(PosixError::INVAL.code(), 22);
    assert_eq!(PosixError::WOULDBLOCK.code(), 11);
    assert_eq!(PosixError::TIMEDOUT.code(), 110);
    assert_eq!(PosixError::from_error_code(0), Ok(()));
    assert_eq!(PosixError::from_error_code(22), Err(PosixError::INVAL));
    assert_eq!(PosixError::from_error_code(110), Err(PosixError::TIMEDOUT));
    assert!(PosixError::errno_known(0));
    assert!(PosixError::errno_known(133));
    assert!(!PosixError::errno_known(41));
    assert!(!PosixError::errno_known(200));
    assert!(!PosixError::errno_known(-1));
}

#[test]
fn event_bits_round_trip_and_ops() {
    let io = Event { incoming: true, outgoing: true };
    assert_eq!(io.bits(), 5);
    assert_eq!(Event::from_bits(5), Ok(io));
    assert_eq!(Event::from_bits(1), Ok(Event { incoming: true, outgoing: false }));
    assert_eq!(Event::from_bits(4), Ok(Event { incoming: false, outgoing: true }));
    assert_eq!(Event::from_bits(0), Ok(Event::empty()));
    assert_eq!(Event::from_bits(8), Err(DpollErrors::InvalidEvent(8)));
    let input = Event::input();
    assert_eq!(input.union(Event::output()), Event::all());
    assert_eq!(Event::all().intersection(input), input);
    assert_eq!(Event::all().difference(input), Event::output());
    assert!(Event::all().intersects(input));
    assert!(!Event::output().intersects(input));
    assert!(Event::empty().is_empty());
}

#[test]
fn opcode_wire_values() {
    assert_eq!(Opcode::PUSH.code(), 1);
    assert_eq!(Opcode::from_code(2), Ok(Opcode::POP));
    assert_eq!(Opcode::from_code(6), Ok(Opcode::FAILED));
    assert_eq!(Opcode::from_code(9), Err(OpcError::ValueOutOfRange(9)));
}

#[test]
fn qresult_classification() {
    let r = QResult::from_opcode(Opcode::PUSH, 3, 77, 0, Some(QResultValue::Push)).unwrap();
    assert_eq!(r.qd, 3);
    assert_eq!(r.qt, 77);
    assert!(matches!(r.value, Some(QResultValue::Push)));
    let err = QResult::from_opcode(Opcode::FAILED, 3, 77, 110, None);
    assert_eq!(err.err(), Some(PosixError::TIMEDOUT));
    let close = QResult::from_opcode(Opcode::CLOSE, 3, 77, 0, None).unwrap();
    assert!(close.value.is_none());
}

#[test]
fn sga_from_slice_and_len() {
    let sga = SgArray::from_slice(&vec![1u8, 2, 3, 4, 5]);
    assert_eq!(sga.len(), 5);
    assert_eq!(sga.segments().len(), 1);
    assert_eq!(sga.segments()[0], vec![1, 2, 3, 4, 5]);
}

#[test]
fn sga_gather_concatenates_iovecs() {
    let flat = gather(&vec![vec![1u8, 2], vec![], vec![3, 4, 5]]);
    assert_eq!(flat, vec![1, 2, 3, 4, 5]);
    let sga = SgArray::from_slices(&vec![vec![9u8], vec![8, 7]]);
    assert_eq!(sga.len(), 3);
    assert_eq!(sga.segments()[0], vec![9, 8, 7]);
}

#[test]
fn cursor_walks_segments_in_order() {
    let sga = SgArray::from_segments(vec![vec![1u8, 2, 3], vec![4, 5]]);
    let mut it = sga.into_iter();
    assert!(!it.is_empty());
    let a = it.copy_bytes(2).unwrap();
    assert_eq!(a, vec![1, 2]);
    let b = it.copy_bytes(2).unwrap();
    assert_eq!(b, vec![3, 4]);
    let c = it.copy_bytes(2).unwrap();
    assert_eq!(c, vec![5]);
    assert!(it.is_empty());
    assert!(it.copy_bytes(2).is_none());
}

#[test]
fn cursor_fills_iovecs_in_order() {
    let sga = SgArray::from_segments(vec![vec![1u8, 2, 3, 4], vec![5, 6]]);
    let mut it = sga.into_iter();
    let pieces = it.copy_into_iovecs(&vec![3, 1, 10]).unwrap();
    assert_eq!(pieces, vec![vec![1, 2, 3], vec![4], vec![5, 6]]);
    assert!(it.is_empty());
}

#[test]
fn sga_new_is_zeroed() {
    let sga = SgArray::new(4);
    assert_eq!(sga.len(), 4);
    assert_eq!(sga.segments()[0], vec![0, 0, 0, 0]);
}

#[test]
fn accept_result_carries_peer_address() {
    let addr = SockAddr { family: 2, port: 8080, addr: 0x7f00_0001 };
    let res = AcceptResult { qd: 11, addr };
    assert_eq!(res.qd, 11);
    assert_eq!(res.addr.port, 8080);
}

#[test]
fn fill_preserves_segment_structure() {
    let mut sga = SgArray::from_segments(vec![vec![0u8; 3], vec![0u8; 2]]);
    sga.fill(&vec![1u8, 2, 3, 4, 5, 6, 7]);
    assert_eq!(sga.segments()[0], vec![1, 2, 3]);
    assert_eq!(sga.segments()[1], vec![4, 5]);
    assert_eq!(sga.len(), 5);
}

#[test]
fn fill_from_slices_gathers_iovecs_across_segments() {
    let mut sga = SgArray::from_segments(vec![vec![0u8; 2], vec![0u8; 2]]);
    sga.fill_from_slices(&vec![vec![9u8], vec![8, 7, 6]]);
    assert_eq!(sga.segments()[0], vec![9, 8]);
    assert_eq!(sga.segments()[1], vec![7, 6]);
}
