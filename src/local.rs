use vstd::prelude::*;

use crate::engine::{
    disconnected,
    drained,
    empty_slot,
    empty_slots,
    keeps_session,
    num_connected,
    slots_wf,
    ClientSlot,
    Engine,
    EngineConfig,
    SentLog,
};
use crate::limits::MAX_PACKET_SIZE;

verus! {

/// One client slot of a `LocalEngine`.
struct LocalSlot {
    connected: bool,
    client_id: u64,
    inbox: Vec<Vec<u8>>,
}

impl LocalSlot {
    spec fn view(&self) -> ClientSlot {
        ClientSlot {
            connected: self.connected,
            client_id: self.client_id,
            inbox: self.inbox@.map_values(|p: Vec<u8>| p@),
        }
    }

    fn empty() -> (r: LocalSlot)
        ensures
            r.view() == empty_slot(),
    {
        let r = LocalSlot { connected: false, client_id: 0, inbox: Vec::new() };
        assert(r.view().inbox =~= Seq::<Seq<u8>>::empty());
        r
    }
}

/// Something that reaches a `LocalEngine` from the network.
pub enum Arrival {
    /// A client with this identifier completes its handshake.
    Connect(u64),
    /// The client in this slot sends this payload.
    Payload(usize, Vec<u8>),
}

/// Whether some connected slot holds the client `client_id`.
pub open spec fn holds_client(slots: Seq<ClientSlot>, client_id: u64) -> bool {
    exists|i: int| 0 <= i < slots.len() && #[trigger] slots[i].connected && slots[i].client_id == client_id
}

/// An engine that runs inside the process, with no socket: clients join through
/// `connect` and their payloads arrive through `deliver`, at once or, once scheduled,
/// at the first `update` whose time has reached theirs. It keeps the payloads queued
/// for the server and the ones the server sent.
pub struct LocalEngine {
    public_addr: String,
    bind_addr: String,
    private_key: Vec<u8>,
    protocol_id: u64,
    time: u64,
    slots: Vec<LocalSlot>,
    sent: Vec<(i32, Vec<u8>)>,
    pending: Vec<(u64, Arrival)>,
}

impl LocalEngine {
    spec fn slot_views(&self) -> Seq<ClientSlot> {
        self.slots@.map_values(|s: LocalSlot| s.view())
    }

    /// The arrivals that wait for their time, in the order they were scheduled.
    pub closed spec fn pending(&self) -> Seq<(u64, Arrival)> {
        self.pending@
    }

    /// The protocol identifier the session was opened with.
    pub fn protocol_id(&self) -> (r: u64)
        ensures
            r == self.config().protocol_id,
    {
        self.protocol_id
    }

    /// How many payloads have been handed to the engine for sending.
    pub fn num_sent(&self) -> (r: usize)
        ensures
            r == self.sent().len(),
    {
        self.sent.len()
    }

    /// Holds `arrival` back until the first `update` at or after `at`.
    pub fn schedule(&mut self, at: u64, arrival: Arrival)
        ensures
            final(self).slots() == old(self).slots(),
            keeps_session(*old(self), *final(self)),
            final(self).pending() == old(self).pending().push((at, arrival)),
    {
        self.pending.push((at, arrival));
    }

    /// A client with identifier `client_id` completes its handshake and takes the lowest
    /// free slot; `None`, with nothing changed, where every slot is taken or a client with
    /// that identifier is already connected.
    pub fn connect(&mut self, client_id: u64) -> (r: Option<usize>)
        ensures
            keeps_session(*old(self), *final(self)),
            final(self).pending() == old(self).pending(),
            match r {
                None => {
                    &&& final(self).slots() == old(self).slots()
                    &&& holds_client(old(self).slots(), client_id) || forall|i: int|
                        0 <= i < old(self).slots().len() ==> #[trigger] old(self).slots()[i].connected
                },
                Some(k) => {
                    &&& !holds_client(old(self).slots(), client_id)
                    &&& k < old(self).slots().len()
                    &&& !old(self).slots()[k as int].connected
                    &&& forall|i: int| 0 <= i < k ==> #[trigger] old(self).slots()[i].connected
                    &&& final(self).slots() == old(self).slots().update(
                        k as int,
                        ClientSlot { connected: true, client_id, inbox: Seq::empty() },
                    )
                },
            },
    {
        self.take_slot(client_id)
    }

    /// The client in slot `client_index` sends `data`; it is queued behind the payloads
    /// that arrived before it. Nothing arrives from an empty slot, and a payload longer
    /// than the protocol allows is dropped: `false`, with nothing changed.
    pub fn deliver(&mut self, client_index: usize, data: Vec<u8>) -> (r: bool)
        requires
            client_index < old(self).slots().len(),
        ensures
            keeps_session(*old(self), *final(self)),
            final(self).pending() == old(self).pending(),
            r == (old(self).slots()[client_index as int].connected && data@.len()
                <= MAX_PACKET_SIZE),
            r ==> final(self).slots() == old(self).slots().update(
                client_index as int,
                ClientSlot {
                    inbox: old(self).slots()[client_index as int].inbox.push(data@),
                    ..old(self).slots()[client_index as int]
                },
            ),
            !r ==> final(self).slots() == old(self).slots(),
    {
        self.push_payload(client_index, data)
    }

    /// Everything but the slots and the arrivals is as in `before`.
    spec fn kept(&self, before: &Self) -> bool {
        &&& self.public_addr == before.public_addr
        &&& self.bind_addr == before.bind_addr
        &&& self.private_key == before.private_key
        &&& self.protocol_id == before.protocol_id
        &&& self.time == before.time
        &&& self.sent == before.sent
    }

    /// A client with identifier `client_id` completes its handshake and takes the lowest
    /// free slot; `None`, with nothing changed, where every slot is taken or a client with
    /// that identifier is already connected.
    fn take_slot(&mut self, client_id: u64) -> (r: Option<usize>)
        ensures
            final(self).kept(old(self)),
            final(self).pending@ == old(self).pending@,
            match r {
                None => {
                    &&& final(self).slot_views() == old(self).slot_views()
                    &&& holds_client(old(self).slot_views(), client_id) || forall|i: int|
                        0 <= i < old(self).slot_views().len() ==> #[trigger] old(self).slot_views()[i].connected
                },
                Some(k) => {
                    &&& !holds_client(old(self).slot_views(), client_id)
                    &&& k < old(self).slot_views().len()
                    &&& !old(self).slot_views()[k as int].connected
                    &&& forall|i: int| 0 <= i < k ==> #[trigger] old(self).slot_views()[i].connected
                    &&& final(self).slot_views() == old(self).slot_views().update(
                        k as int,
                        ClientSlot { connected: true, client_id, inbox: Seq::empty() },
                    )
                },
            },
    {
        let mut free: Option<usize> = None;
        let mut k: usize = 0;
        while k < self.slots.len()
            invariant
                k <= self.slots@.len(),
                *self == *old(self),
                forall|i: int|
                    0 <= i < k ==> !(#[trigger] self.slot_views()[i].connected && self.slot_views()[i].client_id
                        == client_id),
                match free {
                    None => forall|i: int| 0 <= i < k ==> #[trigger] self.slot_views()[i].connected,
                    Some(f) => f < k && !self.slot_views()[f as int].connected && forall|i: int|
                        0 <= i < f ==> #[trigger] self.slot_views()[i].connected,
                },
            decreases self.slots@.len() - k,
        {
            let s = &self.slots[k];
            if s.connected && s.client_id == client_id {
                assert(self.slot_views()[k as int].connected);
                return None;
            }
            if !s.connected && free.is_none() {
                free = Some(k);
            }
            k = k + 1;
        }
        match free {
            None => None,
            Some(f) => {
                let ghost before = self.slot_views();
                let fresh = LocalSlot { connected: true, client_id, inbox: Vec::new() };
                self.slots.set(f, fresh);
                assert(fresh.view().inbox =~= Seq::<Seq<u8>>::empty());
                assert(self.slot_views() =~= before.update(
                    f as int,
                    ClientSlot { connected: true, client_id, inbox: Seq::empty() },
                ));
                Some(f)
            },
        }
    }

    /// The client in slot `client_index` sends `data`; it is queued behind the payloads
    /// that arrived before it. Nothing arrives from an empty slot, and a payload longer
    /// than the protocol allows is dropped: `false`, with nothing changed.
    fn push_payload(&mut self, client_index: usize, data: Vec<u8>) -> (r: bool)
        requires
            client_index < old(self).slot_views().len(),
        ensures
            final(self).kept(old(self)),
            final(self).pending@ == old(self).pending@,
            r == (old(self).slot_views()[client_index as int].connected && data@.len()
                <= MAX_PACKET_SIZE),
            r ==> final(self).slot_views() == old(self).slot_views().update(
                client_index as int,
                ClientSlot {
                    inbox: old(self).slot_views()[client_index as int].inbox.push(data@),
                    ..old(self).slot_views()[client_index as int]
                },
            ),
            !r ==> final(self).slot_views() == old(self).slot_views(),
    {
        if !self.slots[client_index].connected || data.len() > MAX_PACKET_SIZE {
            return false;
        }
        let ghost before = self.slot_views();
        let ghost p = data@;
        let slot = &mut self.slots[client_index];
        slot.inbox.push(data);
        assert(slot.view().inbox =~= before[client_index as int].inbox.push(p));
        assert(self.slot_views() =~= before.update(
            client_index as int,
            ClientSlot { inbox: before[client_index as int].inbox.push(p), ..before[client_index as int] },
        ));
        true
    }

    /// Applies one arrival whose time has come.
    fn apply_arrival(&mut self, arrival: Arrival)
        ensures
            final(self).slot_views().len() == old(self).slot_views().len(),
            slots_wf(old(self).slot_views()) ==> slots_wf(final(self).slot_views()),
            final(self).kept(old(self)),
            final(self).pending@ == old(self).pending@,
    {
        let ghost before = self.slot_views();
        match arrival {
            Arrival::Connect(client_id) => {
                let r = self.take_slot(client_id);
                proof {
                    let after = self.slot_views();
                    if slots_wf(before) {
                        assert forall|i: int, j: int|
                            0 <= i < after.len() && 0 <= j < after[i].inbox.len() implies #[trigger] after[i].inbox[j].len()
                                <= MAX_PACKET_SIZE by {
                            assert(after[i] == before[i]);
                        }
                        assert forall|i: int, j: int|
                            0 <= i < after.len() && 0 <= j < after.len() && i != j
                                && #[trigger] after[i].connected && #[trigger] after[j].connected
                                implies after[i].client_id != after[j].client_id by {
                            if r is Some {
                                let k = r->Some_0 as int;
                                if i == k {
                                    assert(before[j].connected);
                                    assert(!(before[j].connected && before[j].client_id == client_id));
                                } else if j == k {
                                    assert(before[i].connected);
                                    assert(!(before[i].connected && before[i].client_id == client_id));
                                } else {
                                    assert(before[i] == after[i] && before[j] == after[j]);
                                }
                            }
                        }
                    }
                }
            },
            Arrival::Payload(client_index, data) => {
                if client_index < self.slots.len() {
                    let ghost p = data@;
                    let _ = self.push_payload(client_index, data);
                    proof {
                        let after = self.slot_views();
                        if slots_wf(before) {
                            assert forall|i: int, j: int|
                                0 <= i < after.len() && 0 <= j < after[i].inbox.len() implies #[trigger] after[i].inbox[j].len()
                                    <= MAX_PACKET_SIZE by {
                                if i == client_index as int && j == before[i].inbox.len() {
                                    assert(after[i].inbox[j] == p);
                                } else {
                                    assert(after[i].inbox[j] == before[i].inbox[j]);
                                }
                            }
                            assert forall|i: int, j: int|
                                0 <= i < after.len() && 0 <= j < after.len() && i != j
                                    && #[trigger] after[i].connected && #[trigger] after[j].connected
                                    implies after[i].client_id != after[j].client_id by {
                                assert(after[i].connected == before[i].connected);
                                assert(after[i].client_id == before[i].client_id);
                                assert(after[j].connected == before[j].connected);
                                assert(after[j].client_id == before[j].client_id);
                            }
                        }
                    }
                }
            },
        }
    }
}

impl Engine for LocalEngine {
    closed spec fn slots(&self) -> Seq<ClientSlot> {
        self.slot_views()
    }

    closed spec fn config(&self) -> EngineConfig {
        EngineConfig {
            public_addr: self.public_addr@,
            bind_addr: self.bind_addr@,
            private_key: self.private_key@,
            protocol_id: self.protocol_id,
        }
    }

    closed spec fn clock(&self) -> u64 {
        self.time
    }

    closed spec fn sent(&self) -> SentLog {
        self.sent@.map_values(|p: (i32, Vec<u8>)| (p.0, p.1@))
    }

    /// Always opens: nothing is bound.
    fn create(public_addr: &str, bind_addr: &str, private_key: &[u8], protocol_id: u64) -> (r:
        Option<Self>)
        ensures
            r matches Some(e) && e.clock() == 0 && e.pending().len() == 0,
    {
        let e = LocalEngine {
            public_addr: public_addr.to_owned(),
            bind_addr: bind_addr.to_owned(),
            private_key: vstd::slice::slice_to_vec(private_key),
            protocol_id,
            time: 0,
            slots: Vec::new(),
            sent: Vec::new(),
            pending: Vec::new(),
        };
        assert(e.slot_views() =~= Seq::<ClientSlot>::empty());
        assert(e.sent() =~= Seq::<(i32, Seq<u8>)>::empty());
        Some(e)
    }

    fn start(&mut self, max_clients: usize) {
        let mut slots: Vec<LocalSlot> = Vec::new();
        let mut i: usize = 0;
        while i < max_clients
            invariant
                i <= max_clients,
                slots@.len() == i,
                forall|j: int| 0 <= j < i ==> #[trigger] slots@[j].view() == empty_slot(),
            decreases max_clients - i,
        {
            slots.push(LocalSlot::empty());
            i = i + 1;
        }
        self.slots = slots;
        assert(self.slot_views() =~= empty_slots(max_clients as nat));
    }

    /// Admits, in the order they were scheduled, the arrivals whose time has come; the
    /// others keep waiting, in their order.
    fn update(&mut self, time: u64)
        ensures
            forall|i: int| 0 <= i < final(self).pending().len() ==> #[trigger] final(self).pending()[i].0 > time,
    {
        let mut due: Vec<(u64, Arrival)> = Vec::new();
        std::mem::swap(&mut due, &mut self.pending);
        let ghost n = self.slot_views().len();
        while due.len() > 0
            invariant
                self.slot_views().len() == n,
                slots_wf(old(self).slot_views()) ==> slots_wf(self.slot_views()),
                self.public_addr == old(self).public_addr,
                self.bind_addr == old(self).bind_addr,
                self.private_key == old(self).private_key,
                self.protocol_id == old(self).protocol_id,
                self.time == old(self).time,
                self.sent == old(self).sent,
                forall|i: int| 0 <= i < self.pending@.len() ==> #[trigger] self.pending@[i].0 > time,
            decreases due@.len(),
        {
            let (at, arrival) = due.remove(0);
            if at > time {
                self.pending.push((at, arrival));
            } else {
                self.apply_arrival(arrival);
            }
        }
        self.time = time;
    }

    fn send_packet(&mut self, client_index: i32, data: &[u8]) {
        let ghost before = self.sent();
        self.sent.push((client_index, vstd::slice::slice_to_vec(data)));
        assert(self.sent() =~= before.push((client_index, data@)));
    }

    fn client_connected(&self, client_index: i32) -> (r: bool) {
        self.slots[client_index as usize].connected
    }

    fn receive_packet(&mut self, client_index: i32) -> (r: Option<Vec<u8>>) {
        let k = client_index as usize;
        if self.slots[k].inbox.len() == 0 {
            return None;
        }
        let ghost before = self.slot_views();
        let slot = &mut self.slots[k];
        let p = slot.inbox.remove(0);
        assert(slot.view().inbox =~= before[k as int].inbox.drop_first());
        assert(self.slot_views() =~= drained(before, k as int));
        Some(p)
    }

    fn client_id(&self, client_index: usize) -> (r: u64) {
        let s = &self.slots[client_index];
        if s.connected {
            s.client_id
        } else {
            0
        }
    }

    fn num_clients_connected(&self) -> (r: usize) {
        let mut n: usize = 0;
        let mut i: usize = 0;
        while i < self.slots.len()
            invariant
                i <= self.slots@.len(),
                n == num_connected(self.slot_views().subrange(0, i as int)),
                n <= i,
            decreases self.slots@.len() - i,
        {
            let ghost s = self.slot_views();
            assert(s.subrange(0, i + 1).drop_last() =~= s.subrange(0, i as int));
            if self.slots[i].connected {
                n = n + 1;
            }
            i = i + 1;
        }
        assert(self.slot_views().subrange(0, i as int) =~= self.slot_views());
        n
    }

    fn disconnect_client(&mut self, client_index: i32) {
        let ghost before = self.slot_views();
        let k = client_index as usize;
        self.slots.set(k, LocalSlot::empty());
        assert(self.slot_views() =~= disconnected(before, k as int));
    }

    fn disconnect_all_clients(&mut self) {
        let ghost n = self.slots@.len();
        let mut i: usize = 0;
        while i < self.slots.len()
            invariant
                i <= self.slots@.len(),
                self.slots@.len() == n,
                self.public_addr == old(self).public_addr,
                self.bind_addr == old(self).bind_addr,
                self.private_key == old(self).private_key,
                self.protocol_id == old(self).protocol_id,
                self.time == old(self).time,
                self.sent == old(self).sent,
                forall|j: int| 0 <= j < i ==> #[trigger] self.slot_views()[j] == empty_slot(),
            decreases self.slots@.len() - i,
        {
            let ghost before = self.slot_views();
            self.slots.set(i, LocalSlot::empty());
            assert(self.slot_views() =~= before.update(i as int, empty_slot()));
            i = i + 1;
        }
        assert(self.slot_views() =~= empty_slots(n));
    }
}

} // verus!
