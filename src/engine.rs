use vstd::prelude::*;

verus! {

/// What the secure transport engine shows of one client slot.
pub struct ClientSlot {
    pub connected: bool,
    pub client_id: u64,
    /// Application payloads received from the client and not yet handed out, oldest first.
    pub inbox: Seq<Seq<u8>>,
}

/// The client slots of a session, in slot order.
pub type SlotsView = Seq<ClientSlot>;

/// What a session was opened with.
pub struct EngineConfig {
    pub public_addr: Seq<char>,
    pub bind_addr: Seq<char>,
    pub private_key: Seq<u8>,
    pub protocol_id: u64,
}

/// The payloads handed to a session for sending, oldest first, each with its slot.
pub type SentLog = Seq<(i32, Seq<u8>)>;

/// A slot that holds no client.
pub open spec fn empty_slot() -> ClientSlot {
    ClientSlot { connected: false, client_id: 0, inbox: Seq::empty() }
}

/// `n` slots that hold no client.
pub open spec fn empty_slots(n: nat) -> Seq<ClientSlot> {
    Seq::new(n, |i: int| empty_slot())
}

/// Number of connected slots.
pub open spec fn num_connected(slots: Seq<ClientSlot>) -> nat
    decreases slots.len(),
{
    if slots.len() == 0 {
        0
    } else {
        num_connected(slots.drop_last()) + if slots.last().connected {
            1nat
        } else {
            0nat
        }
    }
}

/// The identifiers of the connected clients, in slot order.
pub open spec fn connected_ids(slots: Seq<ClientSlot>) -> Seq<u64>
    decreases slots.len(),
{
    if slots.len() == 0 {
        Seq::empty()
    } else {
        let rest = connected_ids(slots.drop_last());
        if slots.last().connected {
            rest.push(slots.last().client_id)
        } else {
            rest
        }
    }
}

/// The slots after the client in slot `index` has been disconnected.
pub open spec fn disconnected(slots: Seq<ClientSlot>, index: int) -> Seq<ClientSlot> {
    slots.update(index, empty_slot())
}

/// The slots after one payload has been taken from slot `index`, if it had any.
pub open spec fn drained(slots: Seq<ClientSlot>, index: int) -> Seq<ClientSlot> {
    let s = slots[index];
    if s.inbox.len() == 0 {
        slots
    } else {
        slots.update(index, ClientSlot { inbox: s.inbox.drop_first(), ..s })
    }
}

/// No payload waiting in any slot is longer than the protocol allows.
pub open spec fn payloads_bounded(slots: Seq<ClientSlot>) -> bool {
    forall|i: int, j: int|
        0 <= i < slots.len() && 0 <= j < slots[i].inbox.len() ==> #[trigger] slots[i].inbox[j].len()
            <= crate::limits::MAX_PACKET_SIZE
}

/// No two connected clients share an identifier.
pub open spec fn ids_distinct(slots: Seq<ClientSlot>) -> bool {
    forall|i: int, j: int|
        0 <= i < slots.len() && 0 <= j < slots.len() && i != j && #[trigger] slots[i].connected
            && #[trigger] slots[j].connected ==> slots[i].client_id != slots[j].client_id
}

/// What every session keeps of its slots: payloads within the protocol's limit, and
/// distinct identifiers for the connected clients.
pub open spec fn slots_wf(slots: Seq<ClientSlot>) -> bool {
    payloads_bounded(slots) && ids_distinct(slots)
}

/// Whether `index` names a slot of `slots`.
pub open spec fn valid_index(slots: Seq<ClientSlot>, index: i32) -> bool {
    0 <= index < slots.len()
}

/// `after` has the configuration, clock and sent payloads of `before`.
pub open spec fn keeps_session<E: Engine>(before: E, after: E) -> bool {
    &&& after.config() == before.config()
    &&& after.clock() == before.clock()
    &&& after.sent() == before.sent()
}

/// A secure transport session: it binds a socket, runs the handshake, encrypts and
/// decrypts packets, and keeps one slot per client.
///
/// Its observable state is `slots()`, with what it was opened with (`config()`), the time
/// of its last tick (`clock()`) and what it was given to send (`sent()`). A session that
/// has not been started has no slots; `start` gives it its slots; `update` may connect,
/// time out or feed any slot.
pub trait Engine: Sized {
    /// The client slots of the session.
    spec fn slots(&self) -> SlotsView;

    /// What the session was opened with.
    spec fn config(&self) -> EngineConfig;

    /// The time of the last tick.
    spec fn clock(&self) -> u64;

    /// Every payload handed to the session for sending.
    spec fn sent(&self) -> SentLog;

    /// Opens a session bound to `bind_addr`, announcing `public_addr`; `None` where the
    /// addresses cannot be parsed or the socket cannot be bound.
    fn create(public_addr: &str, bind_addr: &str, private_key: &[u8], protocol_id: u64) -> (r:
        Option<Self>)
        requires
            private_key@.len() == crate::limits::PRIVATE_KEY_BYTES,
        ensures
            r matches Some(e) ==> {
                &&& e.slots().len() == 0
                &&& e.sent().len() == 0
                &&& e.config() == (EngineConfig {
                    public_addr: public_addr@,
                    bind_addr: bind_addr@,
                    private_key: private_key@,
                    protocol_id,
                })
            },
    ;

    /// Starts accepting clients into `max_clients` slots.
    fn start(&mut self, max_clients: usize)
        requires
            old(self).slots().len() == 0,
        ensures
            final(self).slots() == empty_slots(max_clients as nat),
            final(self).config() == old(self).config(),
            final(self).clock() == old(self).clock(),
            final(self).sent() == old(self).sent(),
    ;

    /// Processes incoming datagrams, handshakes, keep-alives and timeouts up to `time`
    /// (milliseconds of a monotonic clock). A payload longer than the protocol allows is
    /// never queued, and a client is never admitted under an identifier already connected.
    fn update(&mut self, time: u64)
        ensures
            final(self).slots().len() == old(self).slots().len(),
            slots_wf(old(self).slots()) ==> slots_wf(final(self).slots()),
            final(self).clock() == time,
            final(self).config() == old(self).config(),
            final(self).sent() == old(self).sent(),
    ;

    /// Queues `data` for encrypted transmission to the client in slot `client_index`.
    fn send_packet(&mut self, client_index: i32, data: &[u8])
        requires
            valid_index(old(self).slots(), client_index),
            data@.len() <= crate::limits::MAX_PACKET_SIZE,
        ensures
            final(self).slots() == old(self).slots(),
            final(self).sent() == old(self).sent().push((client_index, data@)),
            final(self).config() == old(self).config(),
            final(self).clock() == old(self).clock(),
    ;

    /// Whether a client holds slot `client_index`.
    fn client_connected(&self, client_index: i32) -> (r: bool)
        requires
            valid_index(self.slots(), client_index),
        ensures
            r == self.slots()[client_index as int].connected,
    ;

    /// Takes the oldest payload received in slot `client_index`.
    fn receive_packet(&mut self, client_index: i32) -> (r: Option<Vec<u8>>)
        requires
            valid_index(old(self).slots(), client_index),
        ensures
            final(self).slots() == drained(old(self).slots(), client_index as int),
            final(self).config() == old(self).config(),
            final(self).clock() == old(self).clock(),
            final(self).sent() == old(self).sent(),
            match r {
                None => old(self).slots()[client_index as int].inbox.len() == 0,
                Some(p) => {
                    &&& old(self).slots()[client_index as int].inbox.len() > 0
                    &&& p@ == old(self).slots()[client_index as int].inbox.first()
                },
            },
    ;

    /// The protocol-level identifier of the client in slot `client_index`, 0 for an empty slot.
    fn client_id(&self, client_index: usize) -> (r: u64)
        requires
            client_index < self.slots().len(),
        ensures
            r == if self.slots()[client_index as int].connected {
                self.slots()[client_index as int].client_id
            } else {
                0
            },
    ;

    /// How many slots hold a client.
    fn num_clients_connected(&self) -> (r: usize)
        ensures
            r == num_connected(self.slots()),
    ;

    /// Ends the session of the client in slot `client_index`, if any.
    fn disconnect_client(&mut self, client_index: i32)
        requires
            valid_index(old(self).slots(), client_index),
        ensures
            final(self).slots() == disconnected(old(self).slots(), client_index as int),
            final(self).config() == old(self).config(),
            final(self).clock() == old(self).clock(),
            final(self).sent() == old(self).sent(),
    ;

    /// Ends the sessions of all clients.
    fn disconnect_all_clients(&mut self)
        ensures
            final(self).slots() == empty_slots(old(self).slots().len()),
            final(self).config() == old(self).config(),
            final(self).clock() == old(self).clock(),
            final(self).sent() == old(self).sent(),
    ;
}

/// Disconnecting a client is idempotent: disconnecting the same slot a second time leaves
/// every slot as the first time left it.
pub proof fn lemma_disconnect_idempotent(slots: Seq<ClientSlot>, index: int)
    requires
        0 <= index < slots.len(),
    ensures
        disconnected(disconnected(slots, index), index) == disconnected(slots, index),
{
    assert(disconnected(disconnected(slots, index), index) =~= disconnected(slots, index));
}

/// Once all clients are disconnected, no slot counts as connected: the count that
/// `num_clients_connected` reports after `disconnect_all_clients` is 0.
pub proof fn lemma_empty_slots_none_connected(n: nat)
    ensures
        num_connected(empty_slots(n)) == 0,
    decreases n,
{
    if n > 0 {
        assert(empty_slots(n).drop_last() =~= empty_slots((n - 1) as nat));
        lemma_empty_slots_none_connected((n - 1) as nat);
    }
}

/// There are never more connected clients than slots.
pub proof fn lemma_num_connected_bounded(slots: Seq<ClientSlot>)
    ensures
        num_connected(slots) <= slots.len(),
    decreases slots.len(),
{
    if slots.len() > 0 {
        lemma_num_connected_bounded(slots.drop_last());
    }
}

/// There is one connected identifier for each connected slot.
pub proof fn lemma_connected_ids_len(slots: Seq<ClientSlot>)
    ensures
        connected_ids(slots).len() == num_connected(slots),
    decreases slots.len(),
{
    if slots.len() > 0 {
        lemma_connected_ids_len(slots.drop_last());
    }
}

/// The connected identifiers of the first `m` slots begin those of all the slots.
pub proof fn lemma_connected_ids_prefix(slots: Seq<ClientSlot>, m: int)
    requires
        0 <= m <= slots.len(),
    ensures
        connected_ids(slots.subrange(0, m)).len() <= connected_ids(slots).len(),
        forall|k: int|
            0 <= k < connected_ids(slots.subrange(0, m)).len() ==> #[trigger] connected_ids(
                slots.subrange(0, m),
            )[k] == connected_ids(slots)[k],
    decreases slots.len() - m,
{
    if m == slots.len() {
        assert(slots.subrange(0, m) =~= slots);
    } else {
        lemma_connected_ids_prefix(slots, m + 1);
        assert(slots.subrange(0, m + 1).drop_last() =~= slots.subrange(0, m));
        let a = connected_ids(slots.subrange(0, m));
        let b = connected_ids(slots.subrange(0, m + 1));
        assert(a.len() <= b.len());
        assert forall|k: int| 0 <= k < a.len() implies #[trigger] a[k] == connected_ids(slots)[k] by {
            assert(a[k] == b[k]);
        }
    }
}

/// Each connected identifier belongs to a connected slot.
pub proof fn lemma_connected_ids_member(slots: Seq<ClientSlot>, k: int)
    requires
        0 <= k < connected_ids(slots).len(),
    ensures
        exists|i: int|
            0 <= i < slots.len() && #[trigger] slots[i].connected && slots[i].client_id
                == connected_ids(slots)[k],
    decreases slots.len(),
{
    let rest = slots.drop_last();
    if k < connected_ids(rest).len() {
        lemma_connected_ids_member(rest, k);
        let i = choose|i: int|
            0 <= i < rest.len() && #[trigger] rest[i].connected && rest[i].client_id
                == connected_ids(rest)[k];
        assert(slots[i] == rest[i]);
    } else {
        assert(slots[slots.len() - 1].connected);
    }
}

/// Where no two connected clients share an identifier, the connected identifiers are
/// pairwise distinct: the dense index names each client once.
pub proof fn lemma_connected_ids_distinct(slots: Seq<ClientSlot>)
    requires
        ids_distinct(slots),
    ensures
        connected_ids(slots).no_duplicates(),
    decreases slots.len(),
{
    if slots.len() > 0 {
        let rest = slots.drop_last();
        assert(ids_distinct(rest)) by {
            assert forall|i: int, j: int|
                0 <= i < rest.len() && 0 <= j < rest.len() && i != j && #[trigger] rest[i].connected
                    && #[trigger] rest[j].connected implies rest[i].client_id != rest[j].client_id by {
                assert(rest[i] == slots[i] && rest[j] == slots[j]);
            }
        }
        lemma_connected_ids_distinct(rest);
        if slots.last().connected {
            let ids = connected_ids(rest);
            assert forall|k: int| 0 <= k < ids.len() implies ids[k] != slots.last().client_id by {
                lemma_connected_ids_member(rest, k);
                let i = choose|i: int|
                    0 <= i < rest.len() && #[trigger] rest[i].connected && rest[i].client_id == ids[k];
                assert(slots[i] == rest[i]);
                assert(slots[slots.len() - 1].connected);
            }
            let all = ids.push(slots.last().client_id);
            assert forall|a: int, b: int| 0 <= a < all.len() && 0 <= b < all.len() && a != b implies all[a]
                != all[b] by {
                if a < ids.len() && b < ids.len() {
                } else if a < ids.len() {
                    assert(all[b] == slots.last().client_id);
                } else {
                    assert(all[a] == slots.last().client_id);
                }
            }
        }
    }
}

} // verus!
