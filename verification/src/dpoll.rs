use vstd::prelude::*;

use crate::buffer::Buffer;
use crate::completion::QResultValue;
use crate::errno::{PosixError, PosixResult};
use crate::event::Event;
use crate::handle::Index;
use crate::operation::{Operation, SubmitKind};
use crate::socket::Socket;

verus! {

/// The `epoll_ctl` opcode for adding an interest.
pub const CTL_ADD: i32 = 1;

/// The `epoll_ctl` opcode for deleting an interest.
pub const CTL_DEL: i32 = 2;

/// The `epoll_ctl` opcode for changing an interest's event mask.
pub const CTL_MOD: i32 = 3;

/// One interest registration: the slab handle of the socket, the socket's
/// engine descriptor (the identity inside the items-set), the requested
/// event mask, the caller's opaque cookie, and the ready-list membership
/// flag.
#[derive(Clone, Copy, Debug, PartialEq, Eq, Structural)]
pub struct Item {
    pub soc: Index,
    pub qd: u32,
    pub evs: Event,
    pub data: u64,
    pub on_readylist: bool,
}

/// The items-set of a dpoll: interest items keyed by engine descriptor,
/// kept strictly ordered by it for deterministic iteration.
pub struct Items {
    pub inner: Vec<Item>,
}

impl Items {
    /// Strictly sorted by descriptor, hence each descriptor at most once.
    pub open spec fn wf(self) -> bool {
        forall|i: int, j: int|
            0 <= i < j < self.inner.len() ==> #[trigger] self.inner[i].qd < #[trigger] self.inner[j].qd
    }

    pub open spec fn spec_contains(self, qd: u32) -> bool {
        exists|i: int| 0 <= i < self.inner.len() && self.inner[i].qd == qd
    }

    /// The position of the item with this descriptor.
    pub open spec fn spec_index_of(self, qd: u32) -> int {
        choose|i: int| 0 <= i < self.inner.len() && self.inner[i].qd == qd
    }

    /// The item registered under this descriptor.
    pub open spec fn item_of(self, qd: u32) -> Item {
        self.inner[self.spec_index_of(qd)]
    }

    pub fn new() -> (r: Items)
        ensures
            r.wf(),
            r.inner.len() == 0,
    {
        Items { inner: Vec::new() }
    }

    pub fn len(&self) -> (r: usize)
        ensures
            r == self.inner.len(),
    {
        self.inner.len()
    }

    /// Position of the item with this descriptor, if registered.
    pub fn index_of(&self, qd: u32) -> (r: Option<usize>)
        requires
            self.wf(),
        ensures
            match r {
                Option::Some(i) => i < self.inner.len() && self.inner[i as int].qd == qd
                    && self.spec_contains(qd) && self.spec_index_of(qd) == i,
                Option::None => !self.spec_contains(qd),
            },
    {
        let mut i: usize = 0;
        while i < self.inner.len()
            invariant
                self.wf(),
                0 <= i <= self.inner.len(),
                forall|j: int| 0 <= j < i ==> #[trigger] self.inner[j].qd != qd,
            decreases self.inner.len() - i,
        {
            if self.inner[i].qd == qd {
                proof {
                    assert(self.spec_contains(qd));
                    let w = self.spec_index_of(qd);
                    assert(self.inner[w].qd == qd);
                    assert(w == i);
                }
                return Some(i);
            }
            i = i + 1;
        }
        None
    }
}

/// An entry of the ready list: the descriptor of a ready interest item and
/// the cookie recorded for it.
pub struct ReadyList {
    pub list: Vec<(u32, u64)>,
}

impl ReadyList {
    pub fn new() -> (r: ReadyList)
        ensures
            r.list.len() == 0,
    {
        ReadyList { list: Vec::new() }
    }

    pub fn is_empty(&self) -> (r: bool)
        ensures
            r == (self.list.len() == 0),
    {
        self.list.len() == 0
    }

    pub fn len(&self) -> (r: usize)
        ensures
            r == self.list.len(),
    {
        self.list.len()
    }
}

/// One event handed back to the caller of `pwait`: the events deliverable
/// right now and the caller's cookie.
#[derive(Clone, Copy, Debug, PartialEq, Eq, Structural)]
pub struct EventRecord {
    pub events: Event,
    pub data: u64,
}

/// A submission the readiness sweep asks the shim to make: submit an accept
/// or a pop on the socket behind `soc` (registered under `qd`), then hand
/// the queue token back through `note_submitted`.
#[derive(Clone, Copy, Debug, PartialEq, Eq, Structural)]
pub struct SubmitReq {
    pub soc: Index,
    pub qd: u32,
    pub kind: SubmitKind,
}

/// A control operation on a dpoll, already decoded from the raw ABI values.
pub enum DpollOperation {
    Add { soc: Index, evs: Event, data: u64 },
    Del { qd: u32 },
    Mod { qd: u32, evs: Event },
}

/// Whether `o` holds this exact ready entry somewhere.
pub open spec fn entry_in(o: Seq<(u32, u64)>, e: (u32, u64)) -> bool {
    exists|l: int| 0 <= l < o.len() && o[l] == e
}

/// Whether every entry of `s` also stands somewhere in `o`.
pub open spec fn sub_entries(s: Seq<(u32, u64)>, o: Seq<(u32, u64)>) -> bool {
    forall|k: int| 0 <= k < s.len() ==> entry_in(o, #[trigger] s[k])
}

/// Whether a list of ready entries holds one naming this descriptor.
pub open spec fn spec_pairs_contain(list: Seq<(u32, u64)>, qd: u32) -> bool {
    exists|k: int| 0 <= k < list.len() && list[k].0 == qd
}


/// Whether a sequence of interest items holds one with this descriptor.
pub open spec fn spec_items_contain(s: Seq<Item>, q: u32) -> bool {
    exists|k: int| 0 <= k < s.len() && s[k].qd == q
}

/// An interest item as the readiness sweep leaves it: promoted onto the
/// ready list if any requested event is deliverable right now.
pub open spec fn swept_item(socks: Buffer<true, Socket>, it: Item) -> Item {
    Item {
        on_readylist: it.on_readylist || spec_avail(socks, it) != Event::spec_empty(),
        ..it
    }
}

/// Whether `e` is the swept form of one of the first `bound` items of
/// `old_items` whose socket is live.
pub open spec fn swept_from(
    socks: Buffer<true, Socket>,
    old_items: Seq<Item>,
    bound: int,
    e: Item,
) -> bool {
    exists|j: int|
        0 <= j < bound && #[trigger] spec_live(socks, old_items[j]) && e == swept_item(
            socks,
            old_items[j],
        )
}

/// Whether `e` is the promotion entry of one of the first `bound` items of
/// `old_items`: live, not yet on the ready list, with a deliverable event.
pub open spec fn promoted_from(
    socks: Buffer<true, Socket>,
    old_items: Seq<Item>,
    bound: int,
    e: (u32, u64),
) -> bool {
    exists|j: int|
        0 <= j < bound && #[trigger] spec_live(socks, old_items[j]) && !old_items[j].on_readylist
            && spec_avail(socks, old_items[j]) != Event::spec_empty() && e == (old_items[j].qd,
        old_items[j].data)
}

/// Whether `e` is one of the first `bound` old ready entries whose
/// descriptor is still registered in `new_items`.
pub open spec fn kept_from(
    old_list: Seq<(u32, u64)>,
    new_items: Seq<Item>,
    bound: int,
    e: (u32, u64),
) -> bool {
    exists|l: int|
        0 <= l < bound && e == #[trigger] old_list[l] && spec_items_contain(
            new_items,
            old_list[l].0,
        )
}

/// Whether `rq` names one of the first `bound` items of `old_items` (by
/// descriptor and socket handle), with a live socket.
pub open spec fn sub_from(
    socks: Buffer<true, Socket>,
    old_items: Seq<Item>,
    bound: int,
    rq: SubmitReq,
) -> bool {
    exists|j: int|
        0 <= j < bound && old_items[j].qd == rq.qd && old_items[j].soc == rq.soc
            && #[trigger] spec_live(socks, old_items[j])
}

/// Whether a submission list holds a request for this descriptor.
pub open spec fn spec_subs_contain(s: Seq<SubmitReq>, qd: u32) -> bool {
    exists|k: int| 0 <= k < s.len() && s[k].qd == qd
}

/// The submission an interest item needs from a sweep, if any: what its
/// socket's scheduling decides for the requested events that are not
/// already deliverable.
pub open spec fn needed_submit(socks: Buffer<true, Socket>, it: Item) -> Option<SubmitKind> {
    match socks.spec_get(it.soc) {
        Option::Some(s) => s.spec_schedule_submit(
            it.evs.spec_difference(s.spec_available(it.evs)),
        ),
        Option::None => Option::None,
    }
}

/// The queue tokens a sweep collects from items `k..` of the old
/// items-set, in order: for each item whose socket is still there and
/// open, the running tokens its socket's scheduling yields for the
/// requested events that are not already deliverable; nothing for evicted
/// items, so a closed socket's tokens never reach the waited set.
pub open spec fn spec_sweep_tokens(
    socks: Buffer<true, Socket>,
    items: Seq<Item>,
    k: int,
) -> Seq<u64>
    decreases items.len() - k,
{
    if k < 0 || k >= items.len() {
        Seq::empty()
    } else {
        (match socks.spec_get(items[k].soc) {
            Option::Some(s) => if s.open {
                s.spec_schedule_tokens(
                    items[k].evs.spec_difference(s.spec_available(items[k].evs)),
                )
            } else {
                Seq::empty()
            },
            Option::None => Seq::empty(),
        }) + spec_sweep_tokens(socks, items, k + 1)
    }
}

/// Whether an interest item's socket is still there and open.
pub open spec fn spec_live(socks: Buffer<true, Socket>, it: Item) -> bool {
    match socks.spec_get(it.soc) {
        Option::Some(s) => s.open,
        Option::None => false,
    }
}

/// The events an interest item's socket could deliver right now.
pub open spec fn spec_avail(socks: Buffer<true, Socket>, it: Item) -> Event {
    match socks.spec_get(it.soc) {
        Option::Some(s) => s.spec_available(it.evs),
        Option::None => Event::spec_empty(),
    }
}

/// The readiness multiplexer: the items-set, the level-triggered ready
/// list, and the scratch vector of queue tokens rebuilt by every sweep.
/// (The wrapped kernel epoll descriptor lives with the unverified shim,
/// which interleaves its wait with the engine wait around these methods.)
pub struct Dpoll {
    pub items: Items,
    pub ready_list: ReadyList,
    pub qtoks: Vec<u64>,
}

impl Dpoll {
    /// Whether the ready list holds an entry for this descriptor.
    pub open spec fn ready_contains(self, qd: u32) -> bool {
        exists|k: int| 0 <= k < self.ready_list.list.len() && self.ready_list.list[k].0 == qd
    }

    /// Well-formedness: items strictly sorted; every ready entry names a
    /// registered item and appears at most once, carrying that item's
    /// cookie; and an item's `on_readylist` flag holds exactly when the
    /// ready list has its entry.
    pub open spec fn wf(self) -> bool {
        &&& self.items.wf()
        &&& forall|k: int|
            0 <= k < self.ready_list.list.len() ==> self.items.spec_contains(
                #[trigger] self.ready_list.list[k].0,
            )
        &&& forall|k: int, l: int|
            0 <= k < l < self.ready_list.list.len() ==> #[trigger] self.ready_list.list[k].0
                != #[trigger] self.ready_list.list[l].0
        &&& forall|k: int|
            0 <= k < self.ready_list.list.len() ==> #[trigger] self.ready_list.list[k].1
                == self.items.item_of(self.ready_list.list[k].0).data
        &&& forall|i: int|
            0 <= i < self.items.inner.len() ==> (#[trigger] self.items.inner[i].on_readylist
                <==> self.ready_contains(self.items.inner[i].qd))
    }

    /// A fresh dpoll: no interests, nothing ready, no tokens collected.
    pub fn new() -> (r: Dpoll)
        ensures
            r.wf(),
            r.items.inner.len() == 0,
            r.ready_list.list.len() == 0,
            r.qtoks.len() == 0,
    {
        Dpoll { items: Items::new(), ready_list: ReadyList::new(), qtoks: Vec::with_capacity(1024) }
    }

    pub fn has_ready(&self) -> (r: bool)
        ensures
            r == (self.ready_list.list.len() > 0),
    {
        self.ready_list.list.len() > 0
    }

    pub fn needs_engine_wait(&self) -> (r: bool)
        ensures
            r == (self.qtoks.len() > 0),
    {
        self.qtoks.len() > 0
    }

    /// The queue tokens the engine wait must cover.
    pub fn qtokens(&self) -> (r: &Vec<u64>)
        ensures
            r == &self.qtoks,
    {
        &self.qtoks
    }

    /// Whether `ctl` with this operation is admissible: `ADD` needs a live
    /// socket handle and an unregistered descriptor (registering a socket
    /// twice is a caller error); `DEL` and `MOD` need a registered one.
    pub open spec fn spec_ctl_ok(self, socks: Buffer<true, Socket>, op: DpollOperation) -> bool {
        match op {
            DpollOperation::Add { soc, .. } => match socks.spec_get(soc) {
                Option::Some(s) => !self.items.spec_contains(s.qd),
                Option::None => false,
            },
            DpollOperation::Del { qd } => self.items.spec_contains(qd),
            DpollOperation::Mod { qd, .. } => self.items.spec_contains(qd),
        }
    }

    /// Runtime form of `spec_ctl_ok`, for the shim to test before calling
    /// `ctl`; these caller errors are fatal, so the shim aborts on them.
    pub fn ctl_ok(&self, socks: &Buffer<true, Socket>, op: &DpollOperation) -> (r: bool)
        requires
            self.wf(),
        ensures
            r == self.spec_ctl_ok(*socks, *op),
    {
        match op {
            DpollOperation::Add { soc, .. } => {
                match socks.get(*soc) {
                    Some(s) => self.items.index_of(s.qd).is_none(),
                    None => false,
                }
            },
            DpollOperation::Del { qd } => self.items.index_of(*qd).is_some(),
            DpollOperation::Mod { qd, .. } => self.items.index_of(*qd).is_some(),
        }
    }

    /// Applies a control operation: `ADD` inserts a fresh interest item
    /// (not on the ready list), `DEL` removes the item and its ready-list
    /// entry, `MOD` replaces the event mask. The ready list is otherwise
    /// untouched, and the token scratch never changes.
    pub fn ctl(&mut self, socks: &Buffer<true, Socket>, op: DpollOperation) -> (r: PosixResult<()>)
        requires
            old(self).wf(),
            old(self).spec_ctl_ok(*socks, op),
        ensures
            final(self).wf(),
            r is Ok,
            final(self).qtoks == old(self).qtoks,
            match op {
                DpollOperation::Add { soc, evs, data } => {
                    let qd = socks.spec_get(soc)->Some_0.qd;
                    &&& final(self).ready_list == old(self).ready_list
                    &&& exists|pos: int|
                        0 <= pos <= old(self).items.inner.len() && final(self).items.inner@
                            == old(self).items.inner@.insert(
                            pos,
                            Item { soc, qd, evs, data, on_readylist: false },
                        )
                    &&& forall|q: u32|
                        #[trigger] final(self).items.spec_contains(q) == (
                        old(self).items.spec_contains(q) || q == qd)
                },
                DpollOperation::Del { qd } => {
                    &&& final(self).items.inner@ == old(self).items.inner@.remove(
                        old(self).items.spec_index_of(qd),
                    )
                    &&& forall|q: u32|
                        #[trigger] final(self).items.spec_contains(q) == (
                        old(self).items.spec_contains(q) && q != qd)
                    &&& (!old(self).items.item_of(qd).on_readylist ==> final(self).ready_list
                        == old(self).ready_list)
                    &&& (old(self).items.item_of(qd).on_readylist ==> exists|w: int|
                        0 <= w < old(self).ready_list.list.len() && #[trigger] old(
                            self,
                        ).ready_list.list@[w].0 == qd && final(self).ready_list.list@ == old(
                            self,
                        ).ready_list.list@.remove(w))
                    &&& forall|q: u32|
                        #[trigger] final(self).ready_contains(q) == (old(self).ready_contains(q)
                            && q != qd)
                },
                DpollOperation::Mod { qd, evs } => {
                    &&& final(self).ready_list == old(self).ready_list
                    &&& final(self).items.inner@ == old(self).items.inner@.update(
                        old(self).items.spec_index_of(qd),
                        Item { evs, ..old(self).items.item_of(qd) },
                    )
                },
            },
    {
        match op {
            DpollOperation::Add { soc, evs, data } => {
                let qd = match socks.get(soc) {
                    Some(s) => s.qd,
                    None => vstd::pervasive::unreached(),
                };
                let it = Item { soc, qd, evs, data, on_readylist: false };
                // find the insertion point that keeps the set sorted
                let mut pos: usize = 0;
                while pos < self.items.inner.len() && self.items.inner[pos].qd < qd
                    invariant
                        old(self).wf(),
                        self == old(self),
                        0 <= pos <= self.items.inner.len(),
                        forall|j: int| 0 <= j < pos ==> #[trigger] self.items.inner[j].qd < qd,
                    decreases self.items.inner.len() - pos,
                {
                    pos = pos + 1;
                }
                proof {
                    assert forall|j: int| pos <= j < self.items.inner.len() implies #[trigger] self
                        .items.inner[j].qd > qd by {
                        if j > pos {
                            assert(self.items.inner[pos as int].qd < self.items.inner[j].qd);
                        }
                        assert(self.items.inner[j].qd != qd);
                    }
                }
                self.items.inner.insert(pos, it);
                proof {
                    let s = *self;
                    let o = *old(self);
                    assert forall|q: u32| #[trigger] s.items.spec_contains(q) == (
                    o.items.spec_contains(q) || q == qd) by {
                        if s.items.spec_contains(q) {
                            let i = choose|i: int|
                                0 <= i < s.items.inner.len() && s.items.inner[i].qd == q;
                            if i < pos {
                                assert(o.items.inner[i].qd == q);
                            } else if i > pos {
                                assert(o.items.inner[i - 1].qd == q);
                            }
                        }
                        if o.items.spec_contains(q) {
                            let i = choose|i: int|
                                0 <= i < o.items.inner.len() && o.items.inner[i].qd == q;
                            if i < pos {
                                assert(s.items.inner[i].qd == q);
                            } else {
                                assert(s.items.inner[i + 1].qd == q);
                            }
                        }
                        if q == qd {
                            assert(s.items.inner[pos as int].qd == qd);
                        }
                    }
                    assert forall|k: int| 0 <= k < s.ready_list.list.len() implies s.items
                        .spec_contains(#[trigger] s.ready_list.list[k].0) by {
                        assert(o.items.spec_contains(o.ready_list.list[k].0));
                    }
                    assert forall|k: int| 0 <= k < s.ready_list.list.len() implies #[trigger] s
                        .ready_list.list[k].1 == s.items.item_of(s.ready_list.list[k].0).data by {
                        let q = o.ready_list.list[k].0;
                        assert(o.items.spec_contains(q));
                        let i = o.items.spec_index_of(q);
                        assert(o.items.inner[i].qd == q);
                        lemma_index_of_shift(o.items, s.items, pos as int, q);
                    }
                    assert forall|i: int| 0 <= i < s.items.inner.len() implies (
                    #[trigger] s.items.inner[i].on_readylist <==> s.ready_contains(
                        s.items.inner[i].qd,
                    )) by {
                        lemma_ready_contains_eq(o, s, s.items.inner[i].qd);
                        if i < pos {
                            assert(o.items.inner[i] == s.items.inner[i]);
                            assert(o.items.inner[i].on_readylist <==> o.ready_contains(
                                o.items.inner[i].qd,
                            ));
                        } else if i > pos {
                            assert(o.items.inner[i - 1] == s.items.inner[i]);
                            assert(o.items.inner[i - 1].on_readylist <==> o.ready_contains(
                                o.items.inner[i - 1].qd,
                            ));
                        } else {
                            // the fresh item: flag false, and qd is new, so no
                            // ready entry can name it
                            assert forall|k: int|
                                0 <= k < s.ready_list.list.len() implies #[trigger] s.ready_list.list[k].0
                                != qd by {
                                assert(o.items.spec_contains(o.ready_list.list[k].0));
                            }
                        }
                    }
                }
                Ok(())
            },
            DpollOperation::Del { qd } => {
                let pos = match self.items.index_of(qd) {
                    Some(p) => p,
                    None => vstd::pervasive::unreached(),
                };
                let it = self.items.inner[pos];
                self.items.inner.remove(pos);
                proof {
                    let s = *self;
                    let o = *old(self);
                    assert forall|q: u32| #[trigger] s.items.spec_contains(q) == (
                    o.items.spec_contains(q) && q != qd) by {
                        if s.items.spec_contains(q) {
                            let i = choose|i: int|
                                0 <= i < s.items.inner.len() && s.items.inner[i].qd == q;
                            if i < pos {
                                assert(o.items.inner[i].qd == q);
                                assert(o.items.inner[i].qd < o.items.inner[pos as int].qd);
                                assert(q != qd);
                            } else {
                                assert(o.items.inner[i + 1].qd == q);
                                assert(o.items.inner[pos as int].qd < o.items.inner[i + 1].qd);
                                assert(q != qd);
                            }
                        }
                        if o.items.spec_contains(q) && q != qd {
                            let i = choose|i: int|
                                0 <= i < o.items.inner.len() && o.items.inner[i].qd == q;
                            assert(i != pos);
                            if i < pos {
                                assert(s.items.inner[i].qd == q);
                            } else {
                                assert(s.items.inner[i - 1].qd == q);
                            }
                        }
                    }
                }
                if it.on_readylist {
                    let ghost mid = *self;
                    proof {
                        // the flag says the descriptor is on the ready list
                        assert(old(self).items.inner[pos as int].on_readylist);
                        assert(old(self).ready_contains(qd));
                    }
                    let ghost w = choose|w: int|
                        0 <= w < mid.ready_list.list.len() && mid.ready_list.list[w].0 == qd;
                    let mut kept: Vec<(u32, u64)> = Vec::new();
                    let mut k: usize = 0;
                    while k < self.ready_list.list.len()
                        invariant
                            *self == mid,
                            0 <= k <= mid.ready_list.list.len(),
                            0 <= w < mid.ready_list.list.len(),
                            mid.ready_list.list@[w].0 == qd,
                            k <= w ==> kept@ == mid.ready_list.list@.take(k as int),
                            k > w ==> kept@ == mid.ready_list.list@.take(k as int).remove(w),
                            forall|m: int, n: int|
                                0 <= m < n < mid.ready_list.list.len()
                                    ==> #[trigger] mid.ready_list.list[m].0 != #[trigger] mid.ready_list.list[n].0,
                            forall|m: int|
                                0 <= m < kept.len() ==> exists|l: int|
                                    0 <= l < k && #[trigger] kept[m] == mid.ready_list.list[l],
                            forall|m: int, n: int|
                                0 <= m < n < kept.len() ==> #[trigger] kept[m].0 != #[trigger] kept[n].0,
                            forall|q: u32|
                                #[trigger] spec_pairs_contain(kept@, q) == (exists|l: int|
                                    0 <= l < k && mid.ready_list.list[l].0 == q && q != qd),
                        decreases self.ready_list.list.len() - k,
                    {
                        let e = self.ready_list.list[k];
                        let ghost kept0 = kept@;
                        if e.0 != qd {
                            kept.push(e);
                            proof {
                                let ki = k as int;
                                assert(ki != w);
                                if ki < w {
                                    assert(kept@ =~= mid.ready_list.list@.take(ki + 1));
                                } else {
                                    assert(kept@ =~= mid.ready_list.list@.take(ki + 1).remove(w));
                                }
                                assert forall|m: int, n: int|
                                    0 <= m < n < kept.len() implies #[trigger] kept[m].0
                                    != #[trigger] kept[n].0 by {
                                    if n == kept.len() - 1 {
                                        let l = choose|l: int|
                                            0 <= l < k && kept0[m] == mid.ready_list.list[l];
                                        let ki = k as int;
                                        assert(mid.ready_list.list[l].0
                                            != mid.ready_list.list[ki].0);
                                    }
                                }
                                assert forall|q: u32| #[trigger] spec_pairs_contain(kept@, q) == (
                                exists|l: int|
                                    0 <= l < k + 1 && mid.ready_list.list[l].0 == q && q
                                        != qd) by {
                                    if spec_pairs_contain(kept@, q) {
                                        let m = choose|m: int|
                                            0 <= m < kept.len() && kept[m].0 == q;
                                        if m < kept.len() - 1 {
                                            assert(spec_pairs_contain(kept0, q));
                                        } else {
                                            assert(mid.ready_list.list[k as int].0 == q);
                                        }
                                    }
                                    if exists|l: int|
                                        0 <= l < k + 1 && mid.ready_list.list[l].0 == q && q
                                            != qd {
                                        let l = choose|l: int|
                                            0 <= l < k + 1 && mid.ready_list.list[l].0 == q;
                                        if l < k {
                                            assert(spec_pairs_contain(kept0, q));
                                            let m = choose|m: int|
                                                0 <= m < kept0.len() && kept0[m].0 == q;
                                            assert(kept[m].0 == q);
                                        } else {
                                            assert(kept[kept.len() - 1].0 == q);
                                        }
                                    }
                                }
                            }
                        } else {
                            proof {
                                let ki = k as int;
                                assert(ki == w) by {
                                    if ki != w {
                                        assert(mid.ready_list.list[ki].0
                                            != mid.ready_list.list[w as int].0);
                                    }
                                }
                                assert(kept@ =~= mid.ready_list.list@.take(ki + 1).remove(w));
                                assert forall|q: u32| #[trigger] spec_pairs_contain(kept@, q) == (
                                exists|l: int|
                                    0 <= l < k + 1 && mid.ready_list.list[l].0 == q && q
                                        != qd) by {
                                    if exists|l: int|
                                        0 <= l < k + 1 && mid.ready_list.list[l].0 == q && q
                                            != qd {
                                        let l = choose|l: int|
                                            0 <= l < k + 1 && mid.ready_list.list[l].0 == q && q
                                                != qd;
                                        assert(l < k);
                                    }
                                }
                            }
                        }
                        k = k + 1;
                    }
                    self.ready_list.list = kept;
                    proof {
                        let s = *self;
                        let o = *old(self);
                        assert(mid.ready_list.list == o.ready_list.list);
                        assert(k > w);
                        assert(mid.ready_list.list@.take(k as int) =~= mid.ready_list.list@);
                        assert(s.ready_list.list@ == o.ready_list.list@.remove(w));
                        assert(o.ready_list.list@[w].0 == qd);
                        assert forall|q: u32| #[trigger] s.ready_contains(q) == (o.ready_contains(
                            q,
                        ) && q != qd) by {
                            assert(s.ready_contains(q) == spec_pairs_contain(
                                s.ready_list.list@,
                                q,
                            ));
                            assert(o.ready_contains(q) == (exists|l: int|
                                0 <= l < o.ready_list.list.len() && o.ready_list.list[l].0 == q));
                        }
                        assert forall|k2: int| 0 <= k2 < s.ready_list.list@.len() implies entry_in(
                            o.ready_list.list@,
                            #[trigger] s.ready_list.list@[k2],
                        ) by {
                            let l = choose|l: int|
                                0 <= l < k && s.ready_list.list[k2] == mid.ready_list.list[l];
                            assert(o.ready_list.list@[l] == s.ready_list.list@[k2]);
                        }
                        lemma_del_wf(o, s, pos as int, qd);
                    }
                } else {
                    proof {
                        let s = *self;
                        let o = *old(self);
                        assert(o.items.inner[pos as int].qd == qd);
                        assert(!o.items.inner[pos as int].on_readylist);
                        assert(!o.ready_contains(qd));
                        assert(s.ready_list.list == o.ready_list.list);
                        assert forall|q: u32| #[trigger] s.ready_contains(q) == (o.ready_contains(
                            q,
                        ) && q != qd) by {
                            if o.ready_contains(q) && q != qd {
                                let w = choose|w: int|
                                    0 <= w < o.ready_list.list.len() && o.ready_list.list[w].0
                                        == q;
                                assert(s.ready_list.list@[w].0 == q);
                            }
                            if s.ready_contains(q) {
                                let w = choose|w: int|
                                    0 <= w < s.ready_list.list.len() && s.ready_list.list[w].0
                                        == q;
                                assert(o.ready_list.list@[w].0 == q);
                                assert(o.ready_contains(q));
                            }
                        }
                        assert forall|k2: int| 0 <= k2 < s.ready_list.list@.len() implies entry_in(
                            o.ready_list.list@,
                            #[trigger] s.ready_list.list@[k2],
                        ) by {
                            assert(o.ready_list.list@[k2] == s.ready_list.list@[k2]);
                        }
                        lemma_del_wf(o, s, pos as int, qd);
                    }
                }
                Ok(())
            },
            DpollOperation::Mod { qd, evs } => {
                let pos = match self.items.index_of(qd) {
                    Some(p) => p,
                    None => vstd::pervasive::unreached(),
                };
                let old_it = self.items.inner[pos];
                let r = &mut self.items.inner[pos];
                *r = Item { evs, ..old_it };
                proof {
                    let s = *self;
                    let o = *old(self);
                    assert forall|q: u32| #[trigger] s.items.spec_contains(q)
                        == o.items.spec_contains(q) by {
                        if s.items.spec_contains(q) {
                            let i = choose|i: int|
                                0 <= i < s.items.inner.len() && s.items.inner[i].qd == q;
                            assert(o.items.inner[i].qd == q);
                        }
                        if o.items.spec_contains(q) {
                            let i = choose|i: int|
                                0 <= i < o.items.inner.len() && o.items.inner[i].qd == q;
                            assert(s.items.inner[i].qd == q);
                        }
                    }
                    assert forall|q: u32| o.items.spec_contains(q) implies s.items.spec_index_of(q)
                        == o.items.spec_index_of(q) && s.items.item_of(q).data == o.items.item_of(
                        q,
                    ).data && s.items.item_of(q).on_readylist == o.items.item_of(
                        q,
                    ).on_readylist by {
                        let i = o.items.spec_index_of(q);
                        assert(o.items.inner[i].qd == q);
                        assert(s.items.inner[i].qd == q);
                        let i2 = s.items.spec_index_of(q);
                        assert(s.items.inner[i2].qd == q);
                        assert(i2 == i);
                    }
                    assert forall|i: int| 0 <= i < s.items.inner.len() implies (
                    #[trigger] s.items.inner[i].on_readylist <==> s.ready_contains(
                        s.items.inner[i].qd,
                    )) by {
                        assert(s.items.inner[i].on_readylist == o.items.inner[i].on_readylist);
                        assert(s.items.inner[i].qd == o.items.inner[i].qd);
                        assert(o.items.inner[i].on_readylist <==> o.ready_contains(
                            o.items.inner[i].qd,
                        ));
                        lemma_ready_contains_eq(o, s, s.items.inner[i].qd);
                    }
                }
                Ok(())
            },
        }
    }


    /// The per-`pwait` readiness sweep. Walks the interest items in order:
    /// items whose socket is gone or closed are evicted, from the items-set
    /// and the ready list both; for every other item the tokens of its
    /// already-running operations are collected into the token scratch
    /// (cleared first), the submissions needed to cover the remaining
    /// requested directions are returned for the shim to make, and items
    /// with deliverable events are promoted onto the ready list
    /// (idempotently, keeping the position of items already on it).
    #[verifier::rlimit(100)]
    pub fn sweep(&mut self, socks: &Buffer<true, Socket>) -> (subs: Vec<SubmitReq>)
        requires
            old(self).wf(),
        ensures
            final(self).wf(),
            forall|q: u32|
                #[trigger] final(self).items.spec_contains(q) == (old(self).items.spec_contains(q)
                    && spec_live(*socks, old(self).items.item_of(q))),
            forall|q: u32|
                #[trigger] final(self).items.spec_contains(q) ==> final(self).items.item_of(q)
                    == swept_item(*socks, old(self).items.item_of(q)),
            forall|q: u32|
                #[trigger] final(self).ready_contains(q) == (final(self).items.spec_contains(q) && (
                old(self).ready_contains(q) || spec_avail(*socks, old(self).items.item_of(q))
                    != Event::spec_empty())),
            forall|k: int|
                0 <= k < subs.len() ==> {
                    let rq = #[trigger] subs[k];
                    &&& final(self).items.spec_contains(rq.qd)
                    &&& final(self).items.item_of(rq.qd).soc == rq.soc
                    &&& match socks.spec_get(rq.soc) {
                        Option::Some(s) => s.open && (match rq.kind {
                            SubmitKind::Accept => s.spec_is_passive() && s.spec_accept() is Idle,
                            SubmitKind::Pop => s.spec_is_active() && s.spec_read() is Idle,
                        }),
                        Option::None => false,
                    }
                },
            // completeness: every surviving item whose scheduling needs a
            // submission has one in the returned list
            forall|q: u32|
                #[trigger] final(self).items.spec_contains(q) && needed_submit(
                    *socks,
                    old(self).items.item_of(q),
                ) is Some ==> spec_subs_contain(subs@, q),
            // the token scratch is rebuilt from scratch: exactly the
            // running tokens of the surviving items' requested directions,
            // in items order
            final(self).qtoks@ == spec_sweep_tokens(*socks, old(self).items.inner@, 0),
    {
        let ghost o = *old(self);
        self.qtoks.clear();
        let mut new_inner: Vec<Item> = Vec::new();
        let mut subs: Vec<SubmitReq> = Vec::new();
        let mut promote: Vec<(u32, u64)> = Vec::new();
        let mut i: usize = 0;
        while i < self.items.inner.len()
            invariant
                self.items == o.items,
                self.ready_list == o.ready_list,
                o.wf(),
                0 <= i <= o.items.inner.len(),
                forall|q: u32|
                    #[trigger] spec_items_contain(new_inner@, q) == (exists|j: int|
                        0 <= j < i && o.items.inner[j].qd == q && spec_live(
                            *socks,
                            o.items.inner[j],
                        )),
                forall|m: int|
                    0 <= m < new_inner.len() ==> swept_from(
                        *socks,
                        o.items.inner@,
                        i as int,
                        #[trigger] new_inner@[m],
                    ),
                forall|m: int, n: int|
                    0 <= m < n < new_inner.len() ==> #[trigger] new_inner[m].qd
                        < #[trigger] new_inner[n].qd,
                forall|m: int|
                    0 <= m < promote.len() ==> promoted_from(
                        *socks,
                        o.items.inner@,
                        i as int,
                        #[trigger] promote@[m],
                    ),
                forall|q: u32|
                    #[trigger] spec_pairs_contain(promote@, q) == (exists|j: int|
                        0 <= j < i && o.items.inner[j].qd == q && spec_live(
                            *socks,
                            o.items.inner[j],
                        ) && !o.items.inner[j].on_readylist && spec_avail(*socks, o.items.inner[j])
                            != Event::spec_empty()),
                forall|m: int, n: int|
                    0 <= m < n < promote.len() ==> #[trigger] promote[m].0 < #[trigger] promote[n].0,
                forall|k: int|
                    0 <= k < subs.len() ==> sub_from(
                        *socks,
                        o.items.inner@,
                        i as int,
                        #[trigger] subs@[k],
                    ),
                forall|j: int|
                    0 <= j < i && spec_live(*socks, #[trigger] o.items.inner[j]) && needed_submit(
                        *socks,
                        o.items.inner[j],
                    ) is Some ==> spec_subs_contain(subs@, o.items.inner[j].qd),
                self.qtoks@ + spec_sweep_tokens(*socks, o.items.inner@, i as int)
                    == spec_sweep_tokens(*socks, o.items.inner@, 0),
                forall|k: int|
                    0 <= k < subs.len() ==> {
                        let rq = #[trigger] subs[k];
                        match socks.spec_get(rq.soc) {
                            Option::Some(s) => s.open && (match rq.kind {
                                SubmitKind::Accept => s.spec_is_passive() && s.spec_accept()
                                    is Idle,
                                SubmitKind::Pop => s.spec_is_active() && s.spec_read() is Idle,
                            }),
                            Option::None => false,
                        }
                    },
            decreases o.items.inner.len() - i,
        {
            let it = self.items.inner[i];
            let ghost new0 = new_inner@;
            let ghost promote0 = promote@;
            let ghost subs0 = subs@;
            let mut live = false;
            match socks.get(it.soc) {
                Some(s) => {
                    if s.open {
                        live = true;
                        let ready = s.available_events(it.evs);
                        let to_sub = it.evs.difference(ready);
                        let sub = s.schedule_events(to_sub, &mut self.qtoks);
                        proof {
                            assert(sub == needed_submit(*socks, it));
                        }
                        match sub {
                            Some(kind) => {
                                subs.push(SubmitReq { soc: it.soc, qd: it.qd, kind });
                            },
                            None => {},
                        }
                        if !ready.is_empty() && !it.on_readylist {
                            promote.push((it.qd, it.data));
                        }
                        new_inner.push(
                            Item { on_readylist: it.on_readylist || !ready.is_empty(), ..it },
                        );
                    }
                },
                None => {},
            }
            i = i + 1;
            proof {
                let ii = i as int;
                assert(it == o.items.inner[ii - 1]);
                if live {
                    assert(spec_live(*socks, o.items.inner[ii - 1]));
                    assert(new_inner@[new_inner@.len() - 1] == swept_item(
                        *socks,
                        o.items.inner[ii - 1],
                    ));
                } else {
                    assert(!spec_live(*socks, o.items.inner[ii - 1]));
                    assert(new_inner@ == new0);
                    assert(promote@ == promote0);
                    assert(subs@ == subs0);
                }
                assert forall|m: int| 0 <= m < new_inner.len() implies swept_from(
                    *socks,
                    o.items.inner@,
                    ii,
                    #[trigger] new_inner@[m],
                ) by {
                    if m < new0.len() {
                        assert(new_inner@[m] == new0[m]);
                        assert(swept_from(*socks, o.items.inner@, ii - 1, new0[m]));
                        let j = choose|j: int|
                            0 <= j < ii - 1 && #[trigger] spec_live(*socks, o.items.inner@[j])
                                && new0[m] == swept_item(*socks, o.items.inner@[j]);
                        assert(spec_live(*socks, o.items.inner@[j]));
                    } else {
                        assert(spec_live(*socks, o.items.inner@[ii - 1]));
                    }
                }
                assert forall|m: int, n: int|
                    0 <= m < n < new_inner.len() implies #[trigger] new_inner[m].qd
                    < #[trigger] new_inner[n].qd by {
                    if n == new_inner@.len() - 1 && new0.len() < new_inner@.len() {
                        assert(swept_from(*socks, o.items.inner@, ii - 1, new0[m]));
                        let j = choose|j: int|
                            0 <= j < ii - 1 && #[trigger] spec_live(*socks, o.items.inner@[j])
                                && new0[m] == swept_item(*socks, o.items.inner@[j]);
                        assert(o.items.inner[j].qd < o.items.inner[ii - 1].qd);
                    }
                }
                assert forall|m: int| 0 <= m < promote.len() implies promoted_from(
                    *socks,
                    o.items.inner@,
                    ii,
                    #[trigger] promote@[m],
                ) by {
                    if m < promote0.len() {
                        assert(promote@[m] == promote0[m]);
                        assert(promoted_from(*socks, o.items.inner@, ii - 1, promote0[m]));
                        let j = choose|j: int|
                            0 <= j < ii - 1 && #[trigger] spec_live(*socks, o.items.inner@[j])
                                && !o.items.inner@[j].on_readylist && spec_avail(
                                *socks,
                                o.items.inner@[j],
                            ) != Event::spec_empty() && promote0[m] == (o.items.inner@[j].qd,
                            o.items.inner@[j].data);
                        assert(spec_live(*socks, o.items.inner@[j]));
                    } else {
                        assert(spec_live(*socks, o.items.inner@[ii - 1]));
                        assert(promote@[m] == (o.items.inner@[ii - 1].qd,
                        o.items.inner@[ii - 1].data));
                    }
                }
                assert forall|m: int, n: int|
                    0 <= m < n < promote.len() implies #[trigger] promote[m].0
                    < #[trigger] promote[n].0 by {
                    if n == promote@.len() - 1 && promote0.len() < promote@.len() {
                        assert(promoted_from(*socks, o.items.inner@, ii - 1, promote0[m]));
                        let j = choose|j: int|
                            0 <= j < ii - 1 && #[trigger] spec_live(*socks, o.items.inner@[j])
                                && !o.items.inner@[j].on_readylist && spec_avail(
                                *socks,
                                o.items.inner@[j],
                            ) != Event::spec_empty() && promote0[m] == (o.items.inner@[j].qd,
                            o.items.inner@[j].data);
                        assert(o.items.inner[j].qd < o.items.inner[ii - 1].qd);
                    }
                }
                assert forall|k: int| 0 <= k < subs.len() implies sub_from(
                    *socks,
                    o.items.inner@,
                    ii,
                    #[trigger] subs@[k],
                ) by {
                    if k < subs0.len() {
                        assert(subs@[k] == subs0[k]);
                        assert(sub_from(*socks, o.items.inner@, ii - 1, subs0[k]));
                        let j = choose|j: int|
                            0 <= j < ii - 1 && o.items.inner@[j].qd == subs0[k].qd
                                && o.items.inner@[j].soc == subs0[k].soc && #[trigger] spec_live(
                                *socks,
                                o.items.inner@[j],
                            );
                        assert(spec_live(*socks, o.items.inner@[j]));
                    } else {
                        assert(subs@[k].qd == o.items.inner@[ii - 1].qd);
                        assert(subs@[k].soc == o.items.inner@[ii - 1].soc);
                        assert(spec_live(*socks, o.items.inner@[ii - 1]));
                    }
                }
                assert forall|j: int|
                    0 <= j < ii && spec_live(*socks, #[trigger] o.items.inner[j]) && needed_submit(
                        *socks,
                        o.items.inner[j],
                    ) is Some implies spec_subs_contain(subs@, o.items.inner[j].qd) by {
                    if j < ii - 1 {
                        assert(spec_subs_contain(subs0, o.items.inner[j].qd));
                        let k = choose|k: int|
                            0 <= k < subs0.len() && subs0[k].qd == o.items.inner[j].qd;
                        assert(subs@[k].qd == o.items.inner[j].qd);
                    } else {
                        assert(subs@[subs@.len() - 1].qd == o.items.inner[j].qd);
                    }
                }
                assert forall|q: u32| #[trigger] spec_items_contain(new_inner@, q) == (exists|
                    j: int,
                |
                    0 <= j < ii && o.items.inner[j].qd == q && spec_live(
                        *socks,
                        o.items.inner[j],
                    )) by {
                    if spec_items_contain(new_inner@, q) {
                        let m = choose|m: int|
                            0 <= m < new_inner@.len() && new_inner@[m].qd == q;
                        if m < new0.len() {
                            assert(spec_items_contain(new0, q));
                        } else {
                            assert(new_inner@[m] == swept_item(*socks, o.items.inner[ii - 1]));
                            assert(o.items.inner[ii - 1].qd == q);
                        }
                    }
                    if exists|j: int|
                        0 <= j < ii && o.items.inner[j].qd == q && spec_live(
                            *socks,
                            o.items.inner[j],
                        ) {
                        let j = choose|j: int|
                            0 <= j < ii && o.items.inner[j].qd == q && spec_live(
                                *socks,
                                o.items.inner[j],
                            );
                        if j < ii - 1 {
                            assert(spec_items_contain(new0, q));
                            let m = choose|m: int| 0 <= m < new0.len() && new0[m].qd == q;
                            assert(new_inner@[m].qd == q);
                        } else {
                            assert(live);
                            assert(new_inner@[new_inner@.len() - 1].qd == q);
                        }
                    }
                }
                assert forall|q: u32| #[trigger] spec_pairs_contain(promote@, q) == (exists|
                    j: int,
                |
                    0 <= j < ii && o.items.inner[j].qd == q && spec_live(*socks, o.items.inner[j])
                        && !o.items.inner[j].on_readylist && spec_avail(*socks, o.items.inner[j])
                        != Event::spec_empty()) by {
                    if spec_pairs_contain(promote@, q) {
                        let m = choose|m: int|
                            0 <= m < promote@.len() && promote@[m].0 == q;
                        if m < promote0.len() {
                            assert(spec_pairs_contain(promote0, q));
                        } else {
                            assert(promote@[m] == (o.items.inner[ii - 1].qd, o.items.inner[ii
                                - 1].data));
                        }
                    }
                    if exists|j: int|
                        0 <= j < ii && o.items.inner[j].qd == q && spec_live(
                            *socks,
                            o.items.inner[j],
                        ) && !o.items.inner[j].on_readylist && spec_avail(*socks, o.items.inner[j])
                            != Event::spec_empty() {
                        let j = choose|j: int|
                            0 <= j < ii && o.items.inner[j].qd == q && spec_live(
                                *socks,
                                o.items.inner[j],
                            ) && !o.items.inner[j].on_readylist && spec_avail(
                                *socks,
                                o.items.inner[j],
                            ) != Event::spec_empty();
                        if j < ii - 1 {
                            assert(spec_pairs_contain(promote0, q));
                            let m = choose|m: int|
                                0 <= m < promote0.len() && promote0[m].0 == q;
                            assert(promote@[m].0 == q);
                        } else {
                            assert(promote@[promote@.len() - 1].0 == q);
                        }
                    }
                }
            }
        }
        let ghost newv = new_inner@;
        self.items = Items { inner: new_inner };
        let ghost mid = *self;
        proof {
            assert(mid.items.inner@ == newv);
            assert(mid.items.wf());
        }
        let mut kept: Vec<(u32, u64)> = Vec::new();
        let mut k: usize = 0;
        while k < self.ready_list.list.len()
            invariant
                *self == mid,
                mid.ready_list == o.ready_list,
                o.wf(),
                mid.items.wf(),
                0 <= k <= o.ready_list.list.len(),
                forall|m: int|
                    0 <= m < kept.len() ==> kept_from(
                        o.ready_list.list@,
                        mid.items.inner@,
                        k as int,
                        #[trigger] kept@[m],
                    ),
                forall|m: int, n: int|
                    0 <= m < n < kept.len() ==> #[trigger] kept[m].0 != #[trigger] kept[n].0,
                forall|q: u32|
                    #[trigger] spec_pairs_contain(kept@, q) == ((exists|l: int|
                        0 <= l < k && o.ready_list.list[l].0 == q) && mid.items.spec_contains(q)),
            decreases self.ready_list.list.len() - k,
        {
            let e = self.ready_list.list[k];
            let ghost kept0 = kept@;
            let found = self.items.index_of(e.0);
            match found {
                Some(_) => {
                    kept.push(e);
                },
                None => {},
            }
            k = k + 1;
            proof {
                let ki = k as int;
                if found is Some {
                    assert(kept@[kept@.len() - 1] == o.ready_list.list@[ki - 1]);
                    assert(mid.items.spec_contains(o.ready_list.list@[ki - 1].0));
                } else {
                    assert(kept@ == kept0);
                    assert(!mid.items.spec_contains(e.0));
                }
                assert forall|m: int| 0 <= m < kept.len() implies kept_from(
                    o.ready_list.list@,
                    mid.items.inner@,
                    ki,
                    #[trigger] kept@[m],
                ) by {
                    if m < kept0.len() {
                        assert(kept@[m] == kept0[m]);
                        assert(kept_from(o.ready_list.list@, mid.items.inner@, ki - 1, kept0[m]));
                        let l = choose|l: int|
                            0 <= l < ki - 1 && kept0[m] == #[trigger] o.ready_list.list@[l]
                                && spec_items_contain(mid.items.inner@, o.ready_list.list@[l].0);
                        assert(kept@[m] == o.ready_list.list@[l]);
                    } else {
                        assert(kept@[m] == o.ready_list.list@[ki - 1]);
                    }
                }
                assert forall|m: int, n: int|
                    0 <= m < n < kept.len() implies #[trigger] kept[m].0 != #[trigger] kept[n].0 by {
                    if n == kept@.len() - 1 && kept0.len() < kept@.len() {
                        assert(kept_from(o.ready_list.list@, mid.items.inner@, ki - 1, kept0[m]));
                        let l = choose|l: int|
                            0 <= l < ki - 1 && kept0[m] == #[trigger] o.ready_list.list@[l]
                                && spec_items_contain(mid.items.inner@, o.ready_list.list@[l].0);
                        assert(o.ready_list.list[l].0 != o.ready_list.list[ki - 1].0);
                    }
                }
                assert forall|q: u32| #[trigger] spec_pairs_contain(kept@, q) == ((exists|l: int|
                    0 <= l < ki && o.ready_list.list[l].0 == q) && mid.items.spec_contains(
                    q,
                )) by {
                    if spec_pairs_contain(kept@, q) {
                        let m = choose|m: int| 0 <= m < kept@.len() && kept@[m].0 == q;
                        if m < kept0.len() {
                            assert(spec_pairs_contain(kept0, q));
                        } else {
                            assert(o.ready_list.list@[ki - 1].0 == q);
                        }
                    }
                    if (exists|l: int| 0 <= l < ki && o.ready_list.list[l].0 == q)
                        && mid.items.spec_contains(q) {
                        let l = choose|l: int| 0 <= l < ki && o.ready_list.list[l].0 == q;
                        if l < ki - 1 {
                            assert(spec_pairs_contain(kept0, q));
                            let m = choose|m: int| 0 <= m < kept0.len() && kept0[m].0 == q;
                            assert(kept@[m].0 == q);
                        } else {
                            assert(o.ready_list.list@[ki - 1].0 == q);
                            if found is None {
                                assert(e.0 == q);
                                assert(false);
                            }
                            assert(kept@[kept@.len() - 1].0 == q);
                        }
                    }
                }
            }
        }
        let ghost keptmid = kept@;
        let mut p: usize = 0;
        while p < promote.len()
            invariant
                *self == mid,
                0 <= p <= promote.len(),
                kept@ == keptmid + promote@.take(p as int),
            decreases promote.len() - p,
        {
            kept.push(promote[p]);
            p = p + 1;
            proof {
                assert(kept@ =~= keptmid + promote@.take(p as int));
            }
        }
        self.ready_list.list = kept;
        proof {
            assert(promote@.take(promote@.len() as int) =~= promote@);
            assert(self.ready_list.list@ == keptmid + promote@);
            lemma_sweep_finish(o, *self, *socks, keptmid, promote@, subs@, i as int, k as int);
        }
        subs
    }

    /// Runtime form of `note_submitted`'s admissibility, for the shim to
    /// test before recording (a mismatch is a programmer error).
    pub fn can_record(socks: &Buffer<true, Socket>, req: &SubmitReq) -> (r: bool)
        ensures
            r == match socks.spec_get(req.soc) {
                Option::Some(s) => match req.kind {
                    SubmitKind::Accept => s.spec_is_passive() && s.spec_accept() is Idle,
                    SubmitKind::Pop => s.spec_is_active() && s.spec_read() is Idle,
                },
                Option::None => false,
            },
    {
        match socks.get(req.soc) {
            Some(s) => {
                match req.kind {
                    SubmitKind::Accept => {
                        match s.accept_gate() {
                            crate::socket::IoGate::Submit => true,
                            _ => false,
                        }
                    },
                    SubmitKind::Pop => {
                        match s.read_gate(false) {
                            crate::socket::IoGate::Submit => true,
                            _ => false,
                        }
                    },
                }
            },
            None => false,
        }
    }

    /// Records the queue token of a submission the shim just made for a
    /// sweep request: the socket's matching operation starts running under
    /// the token, and the token joins the wait set.
    pub fn note_submitted(
        &mut self,
        socks: &mut Buffer<true, Socket>,
        req: &SubmitReq,
        token: u64,
    )
        requires
            old(self).wf(),
            old(socks).wf(),
            match old(socks).spec_get(req.soc) {
                Option::Some(s) => match req.kind {
                    SubmitKind::Accept => s.spec_is_passive() && s.spec_accept() is Idle,
                    SubmitKind::Pop => s.spec_is_active() && s.spec_read() is Idle,
                },
                Option::None => false,
            },
        ensures
            final(self).wf(),
            final(socks).wf(),
            final(self).items == old(self).items,
            final(self).ready_list == old(self).ready_list,
            final(self).qtoks@ == old(self).qtoks@.push(token),
            final(socks).spec_get(req.soc) == Option::Some(
                match req.kind {
                    SubmitKind::Accept => Socket {
                        data: crate::socket::SocketData::Passive {
                            accept: Operation::Running { payload: (), token },
                        },
                        ..old(socks).spec_get(req.soc)->Some_0
                    },
                    SubmitKind::Pop => Socket {
                        data: crate::socket::SocketData::Active {
                            write: old(socks).spec_get(req.soc)->Some_0.spec_write(),
                            read: Operation::Running { payload: (), token },
                        },
                        ..old(socks).spec_get(req.soc)->Some_0
                    },
                },
            ),
            forall|idx: Index|
                idx.spec_index() != req.soc.spec_index() ==> #[trigger] final(socks).spec_get(idx)
                    == old(socks).spec_get(idx),
    {
        self.qtoks.push(token);
        let s = socks.get_mut(req.soc);
        match req.kind {
            SubmitKind::Accept => s.accept_started(token),
            SubmitKind::Pop => s.pop_started(token),
        }
        proof {
            crate::buffer::lemma_wf_item_update(
                *old(socks),
                *socks,
                req.soc.spec_index() as int,
            );
            lemma_wf_same_core(*old(self), *self);
        }
    }

    /// Runtime form of `deliver`'s admissibility, for the shim to test
    /// before delivering a completion; one that matches no registered,
    /// in-flight operation is a fatal error, so the shim aborts on it.
    pub fn can_deliver(
        &self,
        socks: &Buffer<true, Socket>,
        qd: u32,
        val: &QResultValue,
    ) -> (r: bool)
        requires
            self.wf(),
        ensures
            r == (self.items.spec_contains(qd) && match socks.spec_get(
                self.items.item_of(qd).soc,
            ) {
                Option::Some(s) => s.spec_accepts_event(*val),
                Option::None => false,
            }),
    {
        match self.items.index_of(qd) {
            Some(pos) => {
                let it = self.items.inner[pos];
                match socks.get(it.soc) {
                    Some(s) => s.accepts_event(val),
                    None => false,
                }
            },
            None => false,
        }
    }

    /// Delivers an engine completion observed by the wait: drives the
    /// registered socket's matching operation to completed and pushes the
    /// interest item onto the ready list (a no-op if it is already there).
    #[verifier::rlimit(60)]
    pub fn deliver(&mut self, socks: &mut Buffer<true, Socket>, qd: u32, val: QResultValue)
        requires
            old(self).wf(),
            old(socks).wf(),
            old(self).items.spec_contains(qd),
            match old(socks).spec_get(old(self).items.item_of(qd).soc) {
                Option::Some(s) => s.spec_accepts_event(val),
                Option::None => false,
            },
        ensures
            final(self).wf(),
            final(socks).wf(),
            final(self).qtoks == old(self).qtoks,
            forall|q: u32|
                #[trigger] final(self).items.spec_contains(q) == old(self).items.spec_contains(q),
            forall|q: u32|
                old(self).items.spec_contains(q) ==> {
                    let n = #[trigger] final(self).items.item_of(q);
                    let p = old(self).items.item_of(q);
                    n.soc == p.soc && n.qd == p.qd && n.evs == p.evs && n.data == p.data
                },
            forall|q: u32|
                #[trigger] final(self).ready_contains(q) == (old(self).ready_contains(q) || q
                    == qd),
            // an item already listed keeps the list untouched (original
            // position kept); a new one is appended at the tail with its
            // registration cookie
            final(self).ready_list.list@ == if old(self).items.item_of(qd).on_readylist {
                old(self).ready_list.list@
            } else {
                old(self).ready_list.list@.push((qd, old(self).items.item_of(qd).data))
            },
            final(socks).spec_get(old(self).items.item_of(qd).soc) == Option::Some(
                old(socks).spec_get(old(self).items.item_of(qd).soc)->Some_0.spec_after_event(val),
            ),
            forall|idx: Index|
                idx.spec_index() != old(self).items.item_of(qd).soc.spec_index()
                    ==> #[trigger] final(socks).spec_get(idx) == old(socks).spec_get(idx),
    {
        let pos = match self.items.index_of(qd) {
            Some(p) => p,
            None => vstd::pervasive::unreached(),
        };
        let it = self.items.inner[pos];
        let s = socks.get_mut(it.soc);
        s.process_event(val);
        proof {
            crate::buffer::lemma_wf_item_update(*old(socks), *socks, it.soc.spec_index() as int);
        }
        self.mark_ready(pos, qd);
    }


    /// Runtime form of `deliver_failure`'s admissibility, for the shim to
    /// test before delivering a failed completion; a failure that matches
    /// no registered, in-flight operation is a fatal error, so the shim
    /// aborts on it.
    pub fn can_fail(&self, socks: &Buffer<true, Socket>, qd: u32, qt: u64) -> (r: bool)
        requires
            self.wf(),
        ensures
            r == (self.items.spec_contains(qd) && match socks.spec_get(
                self.items.item_of(qd).soc,
            ) {
                Option::Some(s) => s.spec_has_running_token(qt),
                Option::None => false,
            }),
    {
        match self.items.index_of(qd) {
            Some(pos) => {
                let it = self.items.inner[pos];
                match socks.get(it.soc) {
                    Some(s) => s.has_running_token(qt),
                    None => false,
                }
            },
            None => false,
        }
    }

    /// Delivers a failed engine completion: the registered socket's
    /// operation running under the answered token completes carrying the
    /// mapped errno (propagated verbatim, to surface at the next accept,
    /// read or write), and the interest item goes onto the ready list like
    /// any other completion.
    pub fn deliver_failure(
        &mut self,
        socks: &mut Buffer<true, Socket>,
        qd: u32,
        qt: u64,
        e: PosixError,
    )
        requires
            old(self).wf(),
            old(socks).wf(),
            old(self).items.spec_contains(qd),
            match old(socks).spec_get(old(self).items.item_of(qd).soc) {
                Option::Some(s) => s.spec_has_running_token(qt),
                Option::None => false,
            },
        ensures
            final(self).wf(),
            final(socks).wf(),
            final(self).qtoks == old(self).qtoks,
            forall|q: u32|
                #[trigger] final(self).items.spec_contains(q) == old(self).items.spec_contains(q),
            forall|q: u32|
                old(self).items.spec_contains(q) ==> {
                    let n = #[trigger] final(self).items.item_of(q);
                    let p = old(self).items.item_of(q);
                    n.soc == p.soc && n.qd == p.qd && n.evs == p.evs && n.data == p.data
                },
            forall|q: u32|
                #[trigger] final(self).ready_contains(q) == (old(self).ready_contains(q) || q
                    == qd),
            final(self).ready_list.list@ == if old(self).items.item_of(qd).on_readylist {
                old(self).ready_list.list@
            } else {
                old(self).ready_list.list@.push((qd, old(self).items.item_of(qd).data))
            },
            final(socks).spec_get(old(self).items.item_of(qd).soc) == Option::Some(
                old(socks).spec_get(old(self).items.item_of(qd).soc)->Some_0.spec_after_failure(
                    qt,
                    e,
                ),
            ),
            forall|idx: Index|
                idx.spec_index() != old(self).items.item_of(qd).soc.spec_index()
                    ==> #[trigger] final(socks).spec_get(idx) == old(socks).spec_get(idx),
    {
        let pos = match self.items.index_of(qd) {
            Some(p) => p,
            None => vstd::pervasive::unreached(),
        };
        let it = self.items.inner[pos];
        let s = socks.get_mut(it.soc);
        s.process_failure(qt, e);
        proof {
            crate::buffer::lemma_wf_item_update(*old(socks), *socks, it.soc.spec_index() as int);
        }
        self.mark_ready(pos, qd);
    }

    /// Pushes the interest item at `pos` onto the ready list: a no-op when
    /// it is already there (keeping its position), otherwise an append at
    /// the tail with the registration cookie, setting the membership flag.
    #[verifier::rlimit(60)]
    fn mark_ready(&mut self, pos: usize, qd: u32)
        requires
            old(self).wf(),
            pos < old(self).items.inner.len(),
            old(self).items.inner[pos as int].qd == qd,
        ensures
            final(self).wf(),
            final(self).qtoks == old(self).qtoks,
            forall|q: u32|
                #[trigger] final(self).items.spec_contains(q) == old(self).items.spec_contains(q),
            forall|q: u32|
                old(self).items.spec_contains(q) ==> {
                    let n = #[trigger] final(self).items.item_of(q);
                    let p = old(self).items.item_of(q);
                    n.soc == p.soc && n.qd == p.qd && n.evs == p.evs && n.data == p.data
                },
            forall|q: u32|
                #[trigger] final(self).ready_contains(q) == (old(self).ready_contains(q) || q
                    == qd),
            final(self).ready_list.list@ == if old(self).items.item_of(qd).on_readylist {
                old(self).ready_list.list@
            } else {
                old(self).ready_list.list@.push((qd, old(self).items.item_of(qd).data))
            },
    {
        let it = self.items.inner[pos];
        proof {
            let o = *old(self);
            let posi = pos as int;
            assert(o.items.spec_contains(qd));
            assert(o.items.inner[o.items.spec_index_of(qd)].qd == qd);
            assert(o.items.spec_index_of(qd) == posi);
        }
        if !it.on_readylist {
            let r = &mut self.items.inner[pos];
            *r = Item { on_readylist: true, ..it };
            self.ready_list.list.push((qd, it.data));
            proof {
                let o = *old(self);
                let s2 = *self;
                let posi = pos as int;
                assert forall|q: u32| #[trigger] s2.items.spec_contains(q)
                    == o.items.spec_contains(q) by {
                    if s2.items.spec_contains(q) {
                        let i = choose|i: int|
                            0 <= i < s2.items.inner.len() && s2.items.inner[i].qd == q;
                        assert(o.items.inner[i].qd == q);
                    }
                    if o.items.spec_contains(q) {
                        let i = choose|i: int|
                            0 <= i < o.items.inner.len() && o.items.inner[i].qd == q;
                        assert(s2.items.inner[i].qd == q);
                    }
                }
                assert forall|q: u32| o.items.spec_contains(q) implies s2.items.spec_index_of(q)
                    == o.items.spec_index_of(q) by {
                    let i = o.items.spec_index_of(q);
                    assert(o.items.inner[i].qd == q);
                    assert(s2.items.inner[i].qd == q);
                    let i2 = s2.items.spec_index_of(q);
                    assert(s2.items.inner[i2].qd == q);
                    assert(i2 == i);
                }
                assert forall|q: u32| #[trigger] s2.ready_contains(q) == (o.ready_contains(q) || q
                    == qd) by {
                    if s2.ready_contains(q) {
                        let w = choose|w: int|
                            0 <= w < s2.ready_list.list.len() && s2.ready_list.list[w].0 == q;
                        if w < o.ready_list.list.len() {
                            assert(o.ready_list.list[w].0 == q);
                        } else {
                            assert(q == qd);
                        }
                    }
                    if o.ready_contains(q) {
                        let w = choose|w: int|
                            0 <= w < o.ready_list.list.len() && o.ready_list.list[w].0 == q;
                        assert(s2.ready_list.list[w].0 == q);
                    }
                    if q == qd {
                        assert(s2.ready_list.list[s2.ready_list.list.len() - 1].0 == qd);
                    }
                }
                assert(o.items.inner[posi].qd == qd);
                assert(!o.ready_contains(qd));
                assert forall|k: int| 0 <= k < s2.ready_list.list.len() implies s2.items
                    .spec_contains(#[trigger] s2.ready_list.list[k].0) && s2.ready_list.list[k].1
                    == s2.items.item_of(s2.ready_list.list[k].0).data by {
                    if k < o.ready_list.list.len() {
                        assert(s2.ready_list.list[k] == o.ready_list.list[k]);
                        assert(o.items.spec_contains(o.ready_list.list[k].0));
                        assert(o.ready_list.list[k].1 == o.items.item_of(
                            o.ready_list.list[k].0,
                        ).data);
                        let q = o.ready_list.list[k].0;
                        assert(s2.items.item_of(q).data == o.items.item_of(q).data) by {
                            let i = o.items.spec_index_of(q);
                            assert(o.items.inner[i].qd == q);
                            assert(s2.items.spec_index_of(q) == i);
                            if i == posi {
                                assert(s2.items.inner[i].data == o.items.inner[i].data);
                            }
                        }
                    } else {
                        assert(s2.ready_list.list[k] == (qd, o.items.inner[posi].data));
                        assert(o.items.spec_contains(qd));
                        assert(s2.items.spec_index_of(qd) == o.items.spec_index_of(qd));
                        assert(o.items.spec_index_of(qd) == posi);
                        assert(s2.items.item_of(qd).data == o.items.inner[posi].data);
                    }
                }
                assert forall|k: int, l: int|
                    0 <= k < l < s2.ready_list.list.len() implies #[trigger] s2.ready_list.list[k].0
                    != #[trigger] s2.ready_list.list[l].0 by {
                    if l == s2.ready_list.list.len() - 1 {
                        assert(s2.ready_list.list[k] == o.ready_list.list[k]);
                        assert(o.ready_list.list[k].0 != qd) by {
                            if o.ready_list.list[k].0 == qd {
                                assert(o.ready_contains(qd));
                            }
                        }
                    }
                }
                assert forall|i: int| 0 <= i < s2.items.inner.len() implies (
                #[trigger] s2.items.inner[i].on_readylist <==> s2.ready_contains(
                    s2.items.inner[i].qd,
                )) by {
                    if i == posi {
                        assert(s2.items.inner[i].on_readylist);
                        assert(s2.ready_contains(qd));
                    } else {
                        let q = s2.items.inner[i].qd;
                        assert(q != qd) by {
                            if i < posi {
                                assert(o.items.inner[i].qd < o.items.inner[posi].qd);
                            } else {
                                assert(o.items.inner[posi].qd < o.items.inner[i].qd);
                            }
                        }
                        assert(s2.items.inner[i].on_readylist == o.items.inner[i].on_readylist);
                        assert(o.items.inner[i].on_readylist <==> o.ready_contains(q));
                    }
                }
            }
        } else {
            proof {
                let o = *old(self);
                assert(o.items.inner[pos as int].qd == qd);
                assert(o.ready_contains(qd));
                assert forall|q: u32| #[trigger] self.ready_contains(q) == (o.ready_contains(q)
                    || q == qd) by {}
            }
        }
    }

    /// Whether every ready entry's socket is still in the table, as `drain`
    /// needs; between the sweep (which evicts dead items) and the drain of
    /// one `pwait` call nothing closes sockets, so the shim asserts this.
    pub fn ready_live(&self, socks: &Buffer<true, Socket>) -> (r: bool)
        requires
            self.wf(),
        ensures
            r == (forall|k: int|
                0 <= k < self.ready_list.list.len() ==> socks.spec_get(
                    self.items.item_of(#[trigger] self.ready_list.list[k].0).soc,
                ) is Some),
    {
        let mut k: usize = 0;
        while k < self.ready_list.list.len()
            invariant
                self.wf(),
                0 <= k <= self.ready_list.list.len(),
                forall|l: int|
                    0 <= l < k ==> socks.spec_get(
                        self.items.item_of(#[trigger] self.ready_list.list[l].0).soc,
                    ) is Some,
            decreases self.ready_list.list.len() - k,
        {
            let qd = self.ready_list.list[k].0;
            let pos = match self.items.index_of(qd) {
                Some(p) => p,
                None => vstd::pervasive::unreached(),
            };
            if !socks.contains(self.items.inner[pos].soc) {
                return false;
            }
            k = k + 1;
        }
        true
    }

    /// Pops up to `max` ready entries off the front of the ready list,
    /// producing for each an event record whose events are recomputed from
    /// the socket's state *now* (so stale readiness is not reported) and
    /// whose cookie is the one recorded at registration. Popped items'
    /// flags are cleared; everything else is untouched.
    #[verifier::rlimit(60)]
    pub fn drain(&mut self, socks: &Buffer<true, Socket>, max: usize) -> (out: Vec<EventRecord>)
        requires
            old(self).wf(),
            forall|k: int|
                0 <= k < old(self).ready_list.list.len() ==> socks.spec_get(
                    old(self).items.item_of(#[trigger] old(self).ready_list.list[k].0).soc,
                ) is Some,
        ensures
            final(self).wf(),
            final(self).qtoks == old(self).qtoks,
            out.len() == vstd::math::min(max as int, old(self).ready_list.list.len() as int),
            final(self).ready_list.list@ == old(self).ready_list.list@.skip(out.len() as int),
            final(self).items.inner.len() == old(self).items.inner.len(),
            forall|i: int|
                0 <= i < final(self).items.inner.len() ==> {
                    let n = #[trigger] final(self).items.inner[i];
                    let p = old(self).items.inner[i];
                    n.soc == p.soc && n.qd == p.qd && n.evs == p.evs && n.data == p.data
                },
            forall|k: int|
                0 <= k < out.len() ==> {
                    let e = old(self).ready_list.list[k];
                    &&& (#[trigger] out[k]).data == e.1
                    &&& out[k].events == socks.spec_get(
                        old(self).items.item_of(e.0).soc,
                    )->Some_0.spec_available(Event { incoming: true, outgoing: true })
                },
    {
        let ghost o = *old(self);
        let mut out: Vec<EventRecord> = Vec::new();
        while out.len() < max && self.ready_list.list.len() > 0
            invariant
                self.wf(),
                o.wf(),
                self.qtoks == o.qtoks,
                out.len() <= max,
                out.len() + self.ready_list.list.len() == o.ready_list.list.len(),
                self.ready_list.list@ == o.ready_list.list@.skip(out.len() as int),
                self.items.inner.len() == o.items.inner.len(),
                forall|i: int|
                    0 <= i < self.items.inner.len() ==> {
                        let n = #[trigger] self.items.inner[i];
                        let p = o.items.inner[i];
                        n.soc == p.soc && n.qd == p.qd && n.evs == p.evs && n.data == p.data
                    },
                forall|k: int|
                    0 <= k < o.ready_list.list.len() ==> socks.spec_get(
                        o.items.item_of(#[trigger] o.ready_list.list[k].0).soc,
                    ) is Some,
                forall|k: int|
                    0 <= k < out.len() ==> {
                        let e = o.ready_list.list[k];
                        &&& (#[trigger] out[k]).data == e.1
                        &&& out[k].events == socks.spec_get(
                            o.items.item_of(e.0).soc,
                        )->Some_0.spec_available(Event { incoming: true, outgoing: true })
                    },
            decreases self.ready_list.list.len(),
        {
            let ghost pre = *self;
            let e = self.ready_list.list.remove(0);
            proof {
                assert(e == o.ready_list.list@[out.len() as int]);
            }
            let pos = match self.items.index_of(e.0) {
                Some(p) => p,
                None => vstd::pervasive::unreached(),
            };
            let it = self.items.inner[pos];
            let r = &mut self.items.inner[pos];
            *r = Item { on_readylist: false, ..it };
            proof {
                // the popped descriptor was registered in the old items too,
                // at the same position
                let posi = pos as int;
                assert(o.items.inner[posi].qd == e.0);
                assert(o.items.spec_contains(e.0));
                assert(o.items.inner[o.items.spec_index_of(e.0)].qd == e.0);
                assert(o.items.spec_index_of(e.0) == posi);
                assert(socks.spec_get(o.items.inner[posi].soc) is Some);
            }
            let s = match socks.get(it.soc) {
                Some(s) => s,
                None => vstd::pervasive::unreached(),
            };
            let events = s.available_events(Event::all());
            out.push(EventRecord { events, data: e.1 });
            proof {
                let s2 = *self;
                let posi = pos as int;
                assert(s2.ready_list.list@ =~= o.ready_list.list@.skip(out.len() as int));
                // well-formedness: the popped entry was the only one naming
                // its descriptor, so clearing the flag matches membership
                assert forall|q: u32| #[trigger] s2.ready_contains(q) == (pre.ready_contains(q)
                    && q != e.0) by {
                    if s2.ready_contains(q) {
                        let w = choose|w: int|
                            0 <= w < s2.ready_list.list.len() && s2.ready_list.list[w].0 == q;
                        assert(pre.ready_list.list@[w + 1].0 == q);
                        assert(q != e.0) by {
                            if q == e.0 {
                                assert(pre.ready_list.list@[0].0 == e.0);
                            }
                        }
                    }
                    if pre.ready_contains(q) && q != e.0 {
                        let w = choose|w: int|
                            0 <= w < pre.ready_list.list.len() && pre.ready_list.list[w].0 == q;
                        assert(w != 0);
                        assert(s2.ready_list.list@[w - 1].0 == q);
                    }
                }
                assert forall|q: u32| #[trigger] s2.items.spec_contains(q)
                    == pre.items.spec_contains(q) by {
                    if s2.items.spec_contains(q) {
                        let i = choose|i: int|
                            0 <= i < s2.items.inner.len() && s2.items.inner[i].qd == q;
                        assert(pre.items.inner[i].qd == q);
                    }
                    if pre.items.spec_contains(q) {
                        let i = choose|i: int|
                            0 <= i < pre.items.inner.len() && pre.items.inner[i].qd == q;
                        assert(s2.items.inner[i].qd == q);
                    }
                }
                assert forall|q: u32| pre.items.spec_contains(q) implies s2.items.spec_index_of(q)
                    == pre.items.spec_index_of(q) by {
                    let i = pre.items.spec_index_of(q);
                    assert(pre.items.inner[i].qd == q);
                    assert(s2.items.inner[i].qd == q);
                    let i2 = s2.items.spec_index_of(q);
                    assert(s2.items.inner[i2].qd == q);
                    assert(i2 == i);
                }
                assert forall|k: int| 0 <= k < s2.ready_list.list.len() implies s2.items
                    .spec_contains(#[trigger] s2.ready_list.list[k].0) && s2.ready_list.list[k].1
                    == s2.items.item_of(s2.ready_list.list[k].0).data by {
                    let q = s2.ready_list.list[k].0;
                    assert(pre.ready_list.list@[k + 1].0 == q);
                    assert(pre.items.spec_contains(q));
                    assert(pre.ready_list.list[k + 1].1 == pre.items.item_of(q).data);
                    let i = pre.items.spec_index_of(q);
                    if i == posi {
                        assert(s2.items.inner[i].data == pre.items.inner[i].data);
                    }
                    assert(s2.items.item_of(q).data == pre.items.item_of(q).data);
                }
                assert forall|i: int| 0 <= i < s2.items.inner.len() implies (
                #[trigger] s2.items.inner[i].on_readylist <==> s2.ready_contains(
                    s2.items.inner[i].qd,
                )) by {
                    if i == posi {
                        assert(!s2.items.inner[i].on_readylist);
                        assert(!s2.ready_contains(e.0));
                    } else {
                        let q = s2.items.inner[i].qd;
                        assert(q != e.0) by {
                            if i < posi {
                                assert(pre.items.inner[i].qd < pre.items.inner[posi].qd);
                            } else {
                                assert(pre.items.inner[posi].qd < pre.items.inner[i].qd);
                            }
                        }
                        assert(s2.items.inner[i].on_readylist == pre.items.inner[i].on_readylist);
                        assert(pre.items.inner[i].on_readylist <==> pre.ready_contains(q));
                    }
                }
                // the record's events come from the registered socket's
                // current state
                assert(o.items.item_of(e.0).soc == it.soc);
            }
        }
        proof {
            if out.len() < max {
                assert(self.ready_list.list.len() == 0);
            }
        }
        out
    }

    /// The result of a `pwait` call that drained `k` library events and
    /// received `kernel_n` kernel events: their total, or the timeout
    /// signal when both sources were empty (the shim maps that to a return
    /// value of 0).
    pub fn pwait_result(k: usize, kernel_n: usize) -> (r: PosixResult<usize>)
        requires
            k + kernel_n <= usize::MAX,
        ensures
            r == if k + kernel_n == 0 {
                Result::<usize, PosixError>::Err(PosixError::TIMEDOUT)
            } else {
                Result::<usize, PosixError>::Ok((k + kernel_n) as usize)
            },
    {
        let total = k + kernel_n;
        if total == 0 {
            Err(PosixError::TIMEDOUT)
        } else {
            Ok(total)
        }
    }

    /// Decodes a raw `epoll_ctl` request on a library socket into a control
    /// operation: the shim has already looked the socket handle up and read
    /// the event structure (`bits`, cookie) where one is required.
    pub fn op_from_raw(
        socks: &Buffer<true, Socket>,
        op: i32,
        soc: Index,
        event: Option<(u32, u64)>,
    ) -> (r: DpollOperation)
        requires
            op == CTL_ADD || op == CTL_DEL || op == CTL_MOD,
            socks.spec_get(soc) is Some,
            (op == CTL_ADD || op == CTL_MOD) ==> (event matches Option::Some(e) && e.0
                & !crate::event::EVENT_ALL_BITS == 0),
        ensures
            match r {
                DpollOperation::Add { soc: s, evs, data } => op == CTL_ADD && s == soc && (
                event matches Option::Some(e) && evs.incoming == (e.0
                    & crate::event::EVENT_IN_BITS != 0) && evs.outgoing == (e.0
                    & crate::event::EVENT_OUT_BITS != 0) && data == e.1),
                DpollOperation::Del { qd } => op == CTL_DEL && qd == socks.spec_get(
                    soc,
                )->Some_0.qd,
                DpollOperation::Mod { qd, evs } => op == CTL_MOD && qd == socks.spec_get(
                    soc,
                )->Some_0.qd && (event matches Option::Some(e) && evs.incoming == (e.0
                    & crate::event::EVENT_IN_BITS != 0) && evs.outgoing == (e.0
                    & crate::event::EVENT_OUT_BITS != 0)),
            },
    {
        if op == CTL_ADD {
            let (bits, data) = match event {
                Some(e) => e,
                None => vstd::pervasive::unreached(),
            };
            let evs = match Event::from_bits(bits) {
                Ok(evs) => evs,
                Err(_) => vstd::pervasive::unreached(),
            };
            DpollOperation::Add { soc, evs, data }
        } else {
            let qd = match socks.get(soc) {
                Some(s) => s.qd,
                None => vstd::pervasive::unreached(),
            };
            if op == CTL_DEL {
                DpollOperation::Del { qd }
            } else {
                let bits = match event {
                    Some(e) => e.0,
                    None => vstd::pervasive::unreached(),
                };
                let evs = match Event::from_bits(bits) {
                    Ok(evs) => evs,
                    Err(_) => vstd::pervasive::unreached(),
                };
                DpollOperation::Mod { qd, evs }
            }
        }
    }
}

/// Assembles the sweep's postconditions from the three passes: the swept
/// live items, the ready entries that survived eviction, and the appended
/// promotions.
#[verifier::rlimit(100)]
proof fn lemma_sweep_finish(
    o: Dpoll,
    s: Dpoll,
    socks: Buffer<true, Socket>,
    kept: Seq<(u32, u64)>,
    promote: Seq<(u32, u64)>,
    subs: Seq<SubmitReq>,
    nitems: int,
    nready: int,
)
    requires
        o.wf(),
        s.items.wf(),
        nitems == o.items.inner.len(),
        nready == o.ready_list.list.len(),
        s.ready_list.list@ == kept + promote,
        forall|q: u32|
            #[trigger] spec_items_contain(s.items.inner@, q) == (exists|j: int|
                0 <= j < nitems && o.items.inner[j].qd == q && spec_live(
                    socks,
                    o.items.inner[j],
                )),
        forall|m: int|
            0 <= m < s.items.inner.len() ==> swept_from(
                socks,
                o.items.inner@,
                nitems,
                #[trigger] s.items.inner@[m],
            ),
        forall|m: int|
            0 <= m < kept.len() ==> kept_from(
                o.ready_list.list@,
                s.items.inner@,
                nready,
                #[trigger] kept[m],
            ),
        forall|m: int, n: int|
            0 <= m < n < kept.len() ==> #[trigger] kept[m].0 != #[trigger] kept[n].0,
        forall|q: u32|
            #[trigger] spec_pairs_contain(kept, q) == ((exists|l: int|
                0 <= l < nready && o.ready_list.list[l].0 == q) && spec_items_contain(
                s.items.inner@,
                q,
            )),
        forall|m: int|
            0 <= m < promote.len() ==> promoted_from(
                socks,
                o.items.inner@,
                nitems,
                #[trigger] promote[m],
            ),
        forall|q: u32|
            #[trigger] spec_pairs_contain(promote, q) == (exists|j: int|
                0 <= j < nitems && o.items.inner[j].qd == q && spec_live(
                    socks,
                    o.items.inner[j],
                ) && !o.items.inner[j].on_readylist && spec_avail(socks, o.items.inner[j])
                    != Event::spec_empty()),
        forall|m: int, n: int|
            0 <= m < n < promote.len() ==> #[trigger] promote[m].0 < #[trigger] promote[n].0,
        forall|k: int|
            0 <= k < subs.len() ==> sub_from(socks, o.items.inner@, nitems, #[trigger] subs[k]),
        forall|j: int|
            0 <= j < nitems && spec_live(socks, #[trigger] o.items.inner[j]) && needed_submit(
                socks,
                o.items.inner[j],
            ) is Some ==> spec_subs_contain(subs, o.items.inner[j].qd),
    ensures
        s.wf(),
        forall|q: u32|
            #[trigger] s.items.spec_contains(q) == (o.items.spec_contains(q) && spec_live(
                socks,
                o.items.item_of(q),
            )),
        forall|q: u32|
            #[trigger] s.items.spec_contains(q) ==> s.items.item_of(q) == swept_item(
                socks,
                o.items.item_of(q),
            ),
        forall|q: u32|
            #[trigger] s.ready_contains(q) == (s.items.spec_contains(q) && (o.ready_contains(q)
                || spec_avail(socks, o.items.item_of(q)) != Event::spec_empty())),
        forall|k: int|
            0 <= k < subs.len() ==> s.items.spec_contains(#[trigger] subs[k].qd)
                && s.items.item_of(subs[k].qd).soc == subs[k].soc,
        forall|q: u32|
            #[trigger] s.items.spec_contains(q) && needed_submit(socks, o.items.item_of(q))
                is Some ==> spec_subs_contain(subs, q),
{
    // membership of the new items-set, in item_of form
    assert forall|q: u32| #[trigger] s.items.spec_contains(q) == (o.items.spec_contains(q)
        && spec_live(socks, o.items.item_of(q))) by {
        assert(s.items.spec_contains(q) == spec_items_contain(s.items.inner@, q));
        if spec_items_contain(s.items.inner@, q) {
            let j = choose|j: int|
                0 <= j < nitems && o.items.inner[j].qd == q && spec_live(
                    socks,
                    o.items.inner[j],
                );
            assert(o.items.spec_contains(q));
            assert(o.items.inner[o.items.spec_index_of(q)].qd == q);
            assert(j == o.items.spec_index_of(q));
        }
        if o.items.spec_contains(q) && spec_live(socks, o.items.item_of(q)) {
            let j = o.items.spec_index_of(q);
            assert(o.items.inner[j].qd == q);
            assert(spec_items_contain(s.items.inner@, q));
        }
    }
    // field preservation through the sweep
    assert forall|q: u32| #[trigger] s.items.spec_contains(q) implies s.items.item_of(q)
        == swept_item(socks, o.items.item_of(q)) by {
        let m = s.items.spec_index_of(q);
        assert(s.items.inner[m].qd == q);
        assert(swept_from(socks, o.items.inner@, nitems, s.items.inner@[m]));
        let j = choose|j: int|
            0 <= j < nitems && #[trigger] spec_live(socks, o.items.inner@[j])
                && s.items.inner@[m] == swept_item(socks, o.items.inner@[j]);
        assert(o.items.inner[j].qd == q);
        assert(o.items.inner[o.items.spec_index_of(q)].qd == q);
        assert(j == o.items.spec_index_of(q));
    }
    // ready membership of the concatenated list
    assert forall|q: u32| #[trigger] s.ready_contains(q) == (s.items.spec_contains(q) && (
    o.ready_contains(q) || spec_avail(socks, o.items.item_of(q)) != Event::spec_empty())) by {
        if s.ready_contains(q) {
            let w = choose|w: int|
                0 <= w < s.ready_list.list.len() && s.ready_list.list[w].0 == q;
            if w < kept.len() {
                assert(kept[w].0 == q);
                assert(spec_pairs_contain(kept, q));
            } else {
                assert(promote[w - kept.len()].0 == q);
                assert(spec_pairs_contain(promote, q));
                let j = choose|j: int|
                    0 <= j < nitems && o.items.inner[j].qd == q && spec_live(
                        socks,
                        o.items.inner[j],
                    ) && !o.items.inner[j].on_readylist && spec_avail(socks, o.items.inner[j])
                        != Event::spec_empty();
                assert(spec_items_contain(s.items.inner@, q));
                assert(o.items.inner[o.items.spec_index_of(q)].qd == q);
                assert(j == o.items.spec_index_of(q));
            }
        }
        if s.items.spec_contains(q) && (o.ready_contains(q) || spec_avail(
            socks,
            o.items.item_of(q),
        ) != Event::spec_empty()) {
            let j = o.items.spec_index_of(q);
            assert(s.items.spec_contains(q) == spec_items_contain(s.items.inner@, q));
            assert(o.items.spec_contains(q)) by {
                let m = choose|m: int|
                    0 <= m < nitems && o.items.inner[m].qd == q && spec_live(
                        socks,
                        o.items.inner[m],
                    );
                assert(o.items.inner[m].qd == q);
            }
            assert(o.items.inner[j].qd == q);
            if o.ready_contains(q) {
                assert(spec_pairs_contain(kept, q));
                let m = choose|m: int| 0 <= m < kept.len() && kept[m].0 == q;
                assert(s.ready_list.list@[m].0 == q);
            } else {
                assert(spec_avail(socks, o.items.inner[j]) != Event::spec_empty());
                assert(o.items.inner[j].on_readylist <==> o.ready_contains(o.items.inner[j].qd));
                assert(!o.items.inner[j].on_readylist);
                assert(spec_live(socks, o.items.inner[j])) by {
                    let m = choose|m: int|
                        0 <= m < nitems && o.items.inner[m].qd == q && spec_live(
                            socks,
                            o.items.inner[m],
                        );
                    assert(m == j);
                }
                assert(spec_pairs_contain(promote, q));
                let m = choose|m: int| 0 <= m < promote.len() && promote[m].0 == q;
                assert(s.ready_list.list@[kept.len() + m].0 == q);
            }
        }
    }
    // the well-formedness clauses of the swept dpoll
    assert forall|k: int| 0 <= k < s.ready_list.list.len() implies s.items.spec_contains(
        #[trigger] s.ready_list.list[k].0,
    ) && s.ready_list.list[k].1 == s.items.item_of(s.ready_list.list[k].0).data by {
        let q = s.ready_list.list[k].0;
        if k < kept.len() {
            assert(kept_from(o.ready_list.list@, s.items.inner@, nready, kept[k]));
            let l = choose|l: int|
                0 <= l < nready && kept[k] == #[trigger] o.ready_list.list@[l]
                    && spec_items_contain(s.items.inner@, o.ready_list.list@[l].0);
            assert(o.items.spec_contains(q));
            assert(o.ready_list.list[l].1 == o.items.item_of(q).data);
            assert(s.items.spec_contains(q));
            assert(s.items.item_of(q) == swept_item(socks, o.items.item_of(q)));
        } else {
            let m = k - kept.len();
            assert(s.ready_list.list@[k] == promote[m]);
            assert(promoted_from(socks, o.items.inner@, nitems, promote[m]));
            let j = choose|j: int|
                0 <= j < nitems && #[trigger] spec_live(socks, o.items.inner@[j])
                    && !o.items.inner@[j].on_readylist && spec_avail(socks, o.items.inner@[j])
                    != Event::spec_empty() && promote[m] == (o.items.inner@[j].qd,
                o.items.inner@[j].data);
            assert(o.items.inner[j].qd == q);
            assert(spec_items_contain(s.items.inner@, q));
            assert(s.items.spec_contains(q));
            assert(o.items.inner[o.items.spec_index_of(q)].qd == q);
            assert(j == o.items.spec_index_of(q));
            assert(s.items.item_of(q) == swept_item(socks, o.items.item_of(q)));
        }
    }
    assert forall|k: int, l: int| 0 <= k < l < s.ready_list.list.len() implies #[trigger] s
        .ready_list.list[k].0 != #[trigger] s.ready_list.list[l].0 by {
        if l < kept.len() {
            assert(kept[k].0 != kept[l].0);
        } else if k >= kept.len() {
            assert(promote[k - kept.len()].0 != promote[l - kept.len()].0);
        } else {
            let q1 = s.ready_list.list[k].0;
            let q2 = s.ready_list.list[l].0;
            assert(kept[k].0 == q1);
            assert(spec_pairs_contain(kept, q1));
            assert(o.ready_contains(q1)) by {
                let w = choose|w: int| 0 <= w < nready && o.ready_list.list[w].0 == q1;
                assert(o.ready_list.list[w].0 == q1);
            }
            assert(promote[l - kept.len()].0 == q2);
            assert(spec_pairs_contain(promote, q2));
            let j = choose|j: int|
                0 <= j < nitems && o.items.inner[j].qd == q2 && spec_live(
                    socks,
                    o.items.inner[j],
                ) && !o.items.inner[j].on_readylist && spec_avail(socks, o.items.inner[j])
                    != Event::spec_empty();
            assert(o.items.inner[j].on_readylist <==> o.ready_contains(o.items.inner[j].qd));
            assert(!o.ready_contains(q2));
        }
    }
    assert forall|i: int| 0 <= i < s.items.inner.len() implies (
    #[trigger] s.items.inner[i].on_readylist <==> s.ready_contains(s.items.inner[i].qd)) by {
        let q = s.items.inner[i].qd;
        assert(spec_items_contain(s.items.inner@, q));
        assert(s.items.spec_contains(q));
        let m = s.items.spec_index_of(q);
        assert(s.items.inner[m].qd == q);
        assert(m == i);
        assert(swept_from(socks, o.items.inner@, nitems, s.items.inner@[i]));
        let j = choose|j: int|
            0 <= j < nitems && #[trigger] spec_live(socks, o.items.inner@[j])
                && s.items.inner@[i] == swept_item(socks, o.items.inner@[j]);
        assert(o.items.inner[j].qd == q);
        assert(o.items.inner[j].on_readylist <==> o.ready_contains(o.items.inner[j].qd));
        assert(o.items.spec_contains(q));
        assert(o.items.inner[o.items.spec_index_of(q)].qd == q);
        assert(j == o.items.spec_index_of(q));
        assert(o.items.item_of(q) == o.items.inner[j]);
    }
    // every needed submission was requested
    assert forall|q: u32|
        #[trigger] s.items.spec_contains(q) && needed_submit(socks, o.items.item_of(q))
            is Some implies spec_subs_contain(subs, q) by {
        let j = choose|j: int|
            0 <= j < nitems && o.items.inner[j].qd == q && spec_live(socks, o.items.inner[j]);
        assert(o.items.spec_contains(q)) by {
            assert(o.items.inner[j].qd == q);
        }
        assert(o.items.inner[o.items.spec_index_of(q)].qd == q);
        assert(j == o.items.spec_index_of(q));
        assert(o.items.item_of(q) == o.items.inner[j]);
        assert(spec_live(socks, o.items.inner[j]));
    }
    // submissions name registered items and their sockets
    assert forall|k: int| 0 <= k < subs.len() implies s.items.spec_contains(
        #[trigger] subs[k].qd,
    ) && s.items.item_of(subs[k].qd).soc == subs[k].soc by {
        assert(sub_from(socks, o.items.inner@, nitems, subs[k]));
        let j = choose|j: int|
            0 <= j < nitems && o.items.inner@[j].qd == subs[k].qd && o.items.inner@[j].soc
                == subs[k].soc && #[trigger] spec_live(socks, o.items.inner@[j]);
        assert(spec_items_contain(s.items.inner@, subs[k].qd));
        assert(s.items.spec_contains(subs[k].qd));
        assert(o.items.inner[o.items.spec_index_of(subs[k].qd)].qd == subs[k].qd);
        assert(j == o.items.spec_index_of(subs[k].qd));
        assert(s.items.item_of(subs[k].qd) == swept_item(socks, o.items.item_of(subs[k].qd)));
    }
}

/// Well-formedness depends only on the items-set and the ready list, not
/// on the token scratch.
proof fn lemma_wf_same_core(a: Dpoll, b: Dpoll)
    requires
        a.wf(),
        b.items == a.items,
        b.ready_list == a.ready_list,
    ensures
        b.wf(),
{
    assert forall|k: int| 0 <= k < b.ready_list.list.len() implies b.items.spec_contains(
        #[trigger] b.ready_list.list[k].0,
    ) && b.ready_list.list[k].1 == b.items.item_of(b.ready_list.list[k].0).data by {
        assert(a.items.spec_contains(a.ready_list.list[k].0));
        assert(a.ready_list.list[k].1 == a.items.item_of(a.ready_list.list[k].0).data);
    }
    assert forall|k: int, l: int|
        0 <= k < l < b.ready_list.list.len() implies #[trigger] b.ready_list.list[k].0
        != #[trigger] b.ready_list.list[l].0 by {
        assert(a.ready_list.list[k].0 != a.ready_list.list[l].0);
    }
    assert forall|i: int| 0 <= i < b.items.inner.len() implies (
    #[trigger] b.items.inner[i].on_readylist <==> b.ready_contains(b.items.inner[i].qd)) by {
        assert(a.items.inner[i].on_readylist <==> a.ready_contains(a.items.inner[i].qd));
        lemma_ready_contains_eq(a, b, b.items.inner[i].qd);
    }
}

/// Two dpolls with the same ready list agree on ready membership.
proof fn lemma_ready_contains_eq(o: Dpoll, s: Dpoll, q: u32)
    requires
        s.ready_list.list == o.ready_list.list,
    ensures
        s.ready_contains(q) == o.ready_contains(q),
{
    if o.ready_contains(q) {
        let w = choose|w: int|
            0 <= w < o.ready_list.list.len() && o.ready_list.list[w].0 == q;
        assert(s.ready_list.list@[w].0 == q);
    }
    if s.ready_contains(q) {
        let w = choose|w: int|
            0 <= w < s.ready_list.list.len() && s.ready_list.list[w].0 == q;
        assert(o.ready_list.list@[w].0 == q);
    }
}

/// After inserting at `pos`, every descriptor's item keeps its fields.
proof fn lemma_index_of_shift(o: Items, s: Items, pos: int, q: u32)
    requires
        o.wf(),
        s.wf(),
        0 <= pos <= o.inner.len(),
        s.inner.len() == o.inner.len() + 1,
        forall|j: int| 0 <= j < pos ==> #[trigger] s.inner[j] == o.inner[j],
        forall|j: int| pos <= j < o.inner.len() ==> #[trigger] s.inner[j + 1] == o.inner[j],
        o.spec_contains(q),
    ensures
        s.spec_contains(q),
        s.item_of(q) == o.item_of(q),
{
    let i = o.spec_index_of(q);
    assert(o.inner[i].qd == q);
    if i < pos {
        assert(s.inner[i].qd == q);
    } else {
        assert(s.inner[i + 1].qd == q);
    }
    assert(s.spec_contains(q));
    let i2 = s.spec_index_of(q);
    assert(s.inner[i2].qd == q);
    if i2 < pos {
        assert(s.item_of(q) == o.inner[i2]);
        assert(i2 == i);
    } else {
        assert(s.inner[i2] == o.inner[i2 - 1]);
        assert(i2 - 1 == i);
    }
}

/// Well-formedness of a dpoll survives deleting the item at `pos` together
/// with its ready entry.
proof fn lemma_del_wf(o: Dpoll, s: Dpoll, pos: int, qd: u32)
    requires
        o.wf(),
        0 <= pos < o.items.inner.len(),
        o.items.inner[pos].qd == qd,
        s.items.inner@ == o.items.inner@.remove(pos),
        forall|q: u32| #[trigger] s.ready_contains(q) == (o.ready_contains(q) && q != qd),
        // the surviving ready entries all come from the old list
        sub_entries(s.ready_list.list@, o.ready_list.list@),
        forall|k: int, l: int|
            0 <= k < l < s.ready_list.list.len() ==> #[trigger] s.ready_list.list[k].0
                != #[trigger] s.ready_list.list[l].0,
    ensures
        s.wf(),
{
    assert forall|q: u32| o.items.spec_contains(q) && q != qd implies s.items.spec_contains(q)
        && s.items.item_of(q) == o.items.item_of(q) by {
        let i = o.items.spec_index_of(q);
        assert(o.items.inner[i].qd == q);
        assert(i != pos);
        if i < pos {
            assert(s.items.inner[i].qd == q);
        } else {
            assert(s.items.inner[i - 1].qd == q);
        }
        let i2 = s.items.spec_index_of(q);
        assert(s.items.inner[i2].qd == q);
        if i2 < pos {
            assert(o.items.inner[i2].qd == q);
            assert(i2 == o.items.spec_index_of(q));
        } else {
            assert(o.items.inner[i2 + 1].qd == q);
            assert(i2 + 1 == o.items.spec_index_of(q));
        }
    }
    assert forall|k: int| 0 <= k < s.ready_list.list.len() implies s.items.spec_contains(
        #[trigger] s.ready_list.list[k].0,
    ) && s.ready_list.list[k].1 == s.items.item_of(s.ready_list.list[k].0).data by {
        assert(entry_in(o.ready_list.list@, s.ready_list.list@[k]));
        let l = choose|l: int|
            0 <= l < o.ready_list.list@.len() && o.ready_list.list@[l] == s.ready_list.list@[k];
        let q = s.ready_list.list[k].0;
        assert(o.items.spec_contains(q));
        assert(s.ready_contains(q));
        assert(q != qd);
    }
    assert forall|i: int| 0 <= i < s.items.inner.len() implies (
    #[trigger] s.items.inner[i].on_readylist <==> s.ready_contains(s.items.inner[i].qd)) by {
        let q = s.items.inner[i].qd;
        if i < pos {
            assert(s.items.inner[i] == o.items.inner[i]);
        } else {
            assert(s.items.inner[i] == o.items.inner[i + 1]);
        }
        assert(q != qd) by {
            if i < pos {
                assert(o.items.inner[i].qd < o.items.inner[pos].qd);
            } else {
                assert(o.items.inner[pos].qd < o.items.inner[i + 1].qd);
            }
        }
    }
}


/// Round trip of the control path: adding an interest and deleting it
/// again returns the dpoll to the state it had before the add — the
/// items-set, the ready list and the token scratch are all as before.
/// `d1` is the dpoll after `ctl` with `Add { soc, evs, data }` on `d0`,
/// and `d2` the dpoll after `ctl` with `Del` of that socket's descriptor
/// on `d1`, each characterized by `ctl`'s postconditions.
pub proof fn lemma_ctl_add_del_round_trip(
    d0: Dpoll,
    d1: Dpoll,
    d2: Dpoll,
    socks: Buffer<true, Socket>,
    soc: Index,
    evs: Event,
    data: u64,
)
    requires
        d0.wf(),
        d1.wf(),
        socks.spec_get(soc) is Some,
        !d0.items.spec_contains(socks.spec_get(soc)->Some_0.qd),
        ({
            let qd = socks.spec_get(soc)->Some_0.qd;
            &&& d1.ready_list == d0.ready_list
            &&& d1.qtoks == d0.qtoks
            &&& exists|pos: int|
                0 <= pos <= d0.items.inner.len() && d1.items.inner@ == d0.items.inner@.insert(
                    pos,
                    Item { soc, qd, evs, data, on_readylist: false },
                )
        }),
        ({
            let qd = socks.spec_get(soc)->Some_0.qd;
            &&& d2.items.inner@ == d1.items.inner@.remove(d1.items.spec_index_of(qd))
            &&& (!d1.items.item_of(qd).on_readylist ==> d2.ready_list == d1.ready_list)
            &&& d2.qtoks == d1.qtoks
        }),
    ensures
        d2.items.inner@ == d0.items.inner@,
        d2.ready_list == d0.ready_list,
        d2.qtoks == d0.qtoks,
{
    let qd = socks.spec_get(soc)->Some_0.qd;
    let it = Item { soc, qd, evs, data, on_readylist: false };
    let pos = choose|pos: int|
        0 <= pos <= d0.items.inner.len() && d1.items.inner@ == d0.items.inner@.insert(pos, it);
    assert(d1.items.inner@[pos] == it);
    assert(d1.items.spec_contains(qd));
    let i = d1.items.spec_index_of(qd);
    assert(d1.items.inner[i].qd == qd);
    assert(i == pos) by {
        if i < pos {
            assert(d1.items.inner[i].qd < d1.items.inner[pos].qd);
        } else if i > pos {
            assert(d1.items.inner[pos].qd < d1.items.inner[i].qd);
        }
    }
    assert(!d1.items.item_of(qd).on_readylist);
    assert(d2.items.inner@ =~= d0.items.inner@);
}

/// The level-triggered law, one cycle of it: a registered open socket
/// with a stored (undrained) receive completion and `IN` interest is put
/// — or kept — on the ready list by every sweep. As `drain` recomputes
/// the reported events from the socket's state at drain time and the
/// stored completion is still there, every later `pwait` on which the
/// caller performs no read reports `IN` for the socket again.
pub proof fn lemma_level_triggered(pre: Dpoll, post: Dpoll, socks: Buffer<true, Socket>, qd: u32)
    requires
        pre.wf(),
        pre.items.spec_contains(qd),
        pre.items.item_of(qd).evs.incoming,
        ({
            let s = socks.spec_get(pre.items.item_of(qd).soc);
            &&& s is Some
            &&& s->Some_0.open
            &&& s->Some_0.spec_is_active()
            &&& s->Some_0.spec_read() is Completed
        }),
        // what `sweep` ensures of `post`:
        forall|q: u32|
            #[trigger] post.items.spec_contains(q) == (pre.items.spec_contains(q) && spec_live(
                socks,
                pre.items.item_of(q),
            )),
        forall|q: u32|
            #[trigger] post.ready_contains(q) == (post.items.spec_contains(q) && (
            pre.ready_contains(q) || spec_avail(socks, pre.items.item_of(q))
                != Event::spec_empty())),
    ensures
        post.ready_contains(qd),
{
    assert(spec_live(socks, pre.items.item_of(qd)));
    assert(spec_avail(socks, pre.items.item_of(qd)).incoming);
}

/// Determinism of consecutive `pwait` calls: with no completion delivered
/// and no `ctl` in between, the sweep computes ready-list membership from
/// the interest items and the sockets alone, so two sweeps from the same
/// state put exactly the same descriptors on the ready list — both calls
/// then report the same ready sockets, or both time out.
pub proof fn lemma_pwait_deterministic(
    pre: Dpoll,
    post1: Dpoll,
    post2: Dpoll,
    socks: Buffer<true, Socket>,
)
    requires
        // what `sweep` ensures of each of the two runs from `pre`:
        forall|q: u32|
            #[trigger] post1.items.spec_contains(q) == (pre.items.spec_contains(q) && spec_live(
                socks,
                pre.items.item_of(q),
            )),
        forall|q: u32|
            #[trigger] post1.ready_contains(q) == (post1.items.spec_contains(q) && (
            pre.ready_contains(q) || spec_avail(socks, pre.items.item_of(q))
                != Event::spec_empty())),
        forall|q: u32|
            #[trigger] post2.items.spec_contains(q) == (pre.items.spec_contains(q) && spec_live(
                socks,
                pre.items.item_of(q),
            )),
        forall|q: u32|
            #[trigger] post2.ready_contains(q) == (post2.items.spec_contains(q) && (
            pre.ready_contains(q) || spec_avail(socks, pre.items.item_of(q))
                != Event::spec_empty())),
    ensures
        forall|q: u32| #[trigger] post1.ready_contains(q) == post2.ready_contains(q),
{
    assert forall|q: u32| #[trigger] post1.ready_contains(q) == post2.ready_contains(q) by {
        assert(post1.items.spec_contains(q) == post2.items.spec_contains(q));
    }
}

/// Bounds of a `pwait` result: with `k` drained library events and
/// `kernel_n` kernel events into the remaining capacity of a buffer of
/// `n`, the total lies between 0 and `n`, and it is 0 — the timeout
/// signal — exactly when the engine had no completion to drain and the
/// kernel epoll had no ready event.
pub proof fn lemma_pwait_bounds(k: usize, kernel_n: usize, n: usize)
    requires
        k <= n,
        kernel_n <= n - k,
    ensures
        k + kernel_n <= n,
        (k + kernel_n == 0) <==> (k == 0 && kernel_n == 0),
{
}

} // verus!
