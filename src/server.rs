use vstd::prelude::*;

use crate::engine::{
    disconnected,
    drained,
    empty_slots,
    connected_ids,
    lemma_connected_ids_distinct,
    lemma_connected_ids_len,
    lemma_connected_ids_prefix,
    lemma_num_connected_bounded,
    num_connected,
    slots_wf,
    valid_index,
    ClientSlot,
    Engine,
    EngineConfig,
    SentLog,
};
use crate::limits::{MAX_CLIENTS, MAX_PACKET_SIZE, PRIVATE_KEY_BYTES};

verus! {

/// Why a server could not be created.
#[derive(Debug, PartialEq, Eq, Structural)]
pub enum ServerError {
    /// The engine could not open the session (an address it cannot parse, a socket it
    /// cannot bind).
    Create,
    /// More clients were asked for than the protocol allows.
    MaxClients,
}

/// Why a packet was not sent.
#[derive(Debug, PartialEq, Eq, Structural)]
pub enum SendError {
    /// The payload is longer than the protocol allows.
    LengthExceeded,
}

/// Whether `s` can be handed to the engine as a nul-terminated string.
pub open spec fn nul_free(s: Seq<char>) -> bool {
    forall|i: int| 0 <= i < s.len() ==> s[i] != '\0'
}

/// A started server session: the engine that runs it, and the number of client slots it
/// was started with. Dropping the server drops the engine, which closes the session.
pub struct Server<E: Engine> {
    engine: E,
    max_clients: usize,
}

impl<E: Engine> Server<E> {
    /// The client slots of the session.
    pub closed spec fn slots(&self) -> Seq<ClientSlot> {
        self.engine.slots()
    }

    /// The number of client slots the server was started with.
    pub closed spec fn capacity(&self) -> nat {
        self.max_clients as nat
    }

    /// What the session was opened with.
    pub closed spec fn config(&self) -> EngineConfig {
        self.engine.config()
    }

    /// The time of the session's last tick.
    pub closed spec fn clock(&self) -> u64 {
        self.engine.clock()
    }

    /// Every payload handed to the engine for sending, oldest first, with its slot.
    pub closed spec fn sent(&self) -> SentLog {
        self.engine.sent()
    }

    /// The session has one slot per client it was started for, no more than the protocol
    /// allows; no payload waits that is longer than the protocol allows, and no two
    /// connected clients share an identifier.
    pub closed spec fn wf(&self) -> bool {
        &&& self.engine.slots().len() == self.max_clients
        &&& self.max_clients <= MAX_CLIENTS
        &&& slots_wf(self.engine.slots())
    }

    /// A well-formed server has one slot per client it was started for, no more than the
    /// protocol allows, no more connected clients than slots, and distinct identifiers for
    /// its connected clients.
    pub proof fn lemma_bounds(&self)
        requires
            self.wf(),
        ensures
            self.slots().len() == self.capacity(),
            self.capacity() <= MAX_CLIENTS,
            num_connected(self.slots()) <= self.capacity(),
            slots_wf(self.slots()),
    {
        lemma_num_connected_bounded(self.engine.slots());
    }

    /// The engine that runs the session.
    pub fn engine(&self) -> (r: &E)
        ensures
            r.slots() == self.slots(),
            r.config() == self.config(),
            r.clock() == self.clock(),
            r.sent() == self.sent(),
    {
        &self.engine
    }

    /// Opens a session through `E` with the given addresses, key and protocol identifier,
    /// and starts it with `max_clients` slots.
    ///
    /// A request for more clients than the protocol allows is refused before the engine
    /// is asked for anything, and before the other arguments are looked at.
    pub fn new(
        public_addr: &str,
        bind_addr: &str,
        private_key: &[u8],
        protocol_id: u64,
        max_clients: usize,
    ) -> (r: Result<Server<E>, ServerError>)
        requires
            max_clients <= MAX_CLIENTS ==> {
                &&& nul_free(public_addr@)
                &&& nul_free(bind_addr@)
                &&& private_key@.len() == PRIVATE_KEY_BYTES
            },
        ensures
            max_clients > MAX_CLIENTS ==> r == Err::<Server<E>, ServerError>(ServerError::MaxClients),
            max_clients <= MAX_CLIENTS ==> match r {
                Ok(s) => {
                    &&& s.wf()
                    &&& s.capacity() == max_clients
                    &&& s.slots() == empty_slots(max_clients as nat)
                    &&& s.sent().len() == 0
                    &&& s.config() == (EngineConfig {
                        public_addr: public_addr@,
                        bind_addr: bind_addr@,
                        private_key: private_key@,
                        protocol_id,
                    })
                },
                Err(e) => e == ServerError::Create,
            },
    {
        if max_clients > MAX_CLIENTS {
            return Err(ServerError::MaxClients);
        }
        let engine = E::create(public_addr, bind_addr, private_key, protocol_id);
        Self::from_engine(engine, max_clients)
    }

    /// Starts the session that the engine opened, with `max_clients` slots; `Create` where
    /// the engine could not open one.
    pub fn from_engine(engine: Option<E>, max_clients: usize) -> (r: Result<Server<E>, ServerError>)
        requires
            max_clients <= MAX_CLIENTS,
            engine matches Some(e) ==> e.slots().len() == 0,
        ensures
            match engine {
                None => r == Err::<Server<E>, ServerError>(ServerError::Create),
                Some(e) => r matches Ok(s) && s.wf() && s.capacity() == max_clients && s.slots()
                    == empty_slots(max_clients as nat) && s.config() == e.config() && s.clock()
                    == e.clock() && s.sent() == e.sent(),
            },
    {
        match engine {
            None => Err(ServerError::Create),
            Some(mut e) => {
                e.start(max_clients);
                Ok(Server { engine: e, max_clients })
            },
        }
    }

    /// Lets the engine process what arrived up to `time` (milliseconds of a monotonic
    /// clock): handshakes, payloads, keep-alives and timeouts.
    pub fn update(&mut self, time: u64)
        requires
            old(self).wf(),
        ensures
            final(self).wf(),
            final(self).capacity() == old(self).capacity(),
            final(self).slots().len() == old(self).slots().len(),
            final(self).clock() == time,
            final(self).config() == old(self).config(),
            final(self).sent() == old(self).sent(),
    {
        self.engine.update(time);
    }

    /// Hands `data` to the engine for the client in slot `client_index`; refused, with
    /// nothing handed to the engine, where it is longer than the protocol allows.
    pub fn send(&mut self, client_index: i32, data: &[u8]) -> (r: Result<(), SendError>)
        requires
            old(self).wf(),
            data@.len() <= MAX_PACKET_SIZE ==> valid_index(old(self).slots(), client_index),
        ensures
            final(self).wf(),
            final(self).capacity() == old(self).capacity(),
            final(self).slots() == old(self).slots(),
            final(self).config() == old(self).config(),
            final(self).clock() == old(self).clock(),
            r is Ok <==> data@.len() <= MAX_PACKET_SIZE,
            r is Ok ==> final(self).sent() == old(self).sent().push((client_index, data@)),
            r is Err ==> r == Err::<(), SendError>(SendError::LengthExceeded) && *final(self)
                == *old(self),
    {
        if data.len() > MAX_PACKET_SIZE {
            return Err(SendError::LengthExceeded);
        }
        self.engine.send_packet(client_index, data);
        Ok(())
    }

    /// Whether a client holds slot `client_index`.
    pub fn client_connected(&mut self, client_index: i32) -> (r: bool)
        requires
            old(self).wf(),
            valid_index(old(self).slots(), client_index),
        ensures
            *final(self) == *old(self),
            r == old(self).slots()[client_index as int].connected,
    {
        self.engine.client_connected(client_index)
    }

    /// Takes the oldest payload received from the client in slot `client_index`; `None`
    /// where none is waiting. The packet borrows the server, so it is released before the
    /// server is used again or dropped.
    pub fn receive_packet(&mut self, client_index: i32) -> (r: Option<ServerPacket<'_, E>>)
        requires
            old(self).wf(),
            valid_index(old(self).slots(), client_index),
        ensures
            final(self).wf(),
            final(self).capacity() == old(self).capacity(),
            final(self).slots() == drained(old(self).slots(), client_index as int),
            final(self).config() == old(self).config(),
            final(self).clock() == old(self).clock(),
            final(self).sent() == old(self).sent(),
            match r {
                None => old(self).slots()[client_index as int].inbox.len() == 0,
                Some(p) => {
                    &&& old(self).slots()[client_index as int].inbox.len() > 0
                    &&& p@ == old(self).slots()[client_index as int].inbox.first()
                    &&& p@.len() <= MAX_PACKET_SIZE
                },
            },
    {
        proof {
            let s = self.engine.slots();
            let k = client_index as int;
            if s[k].inbox.len() > 0 {
                assert(s[k].inbox[0].len() <= MAX_PACKET_SIZE);
                let d = drained(s, k);
                assert forall|i: int, j: int|
                    0 <= i < d.len() && 0 <= j < d[i].inbox.len() implies #[trigger] d[i].inbox[j].len()
                        <= MAX_PACKET_SIZE by {
                    if i == k {
                        assert(d[i].inbox[j] == s[i].inbox[j + 1]);
                    } else {
                        assert(d[i].inbox[j] == s[i].inbox[j]);
                    }
                }
                assert forall|i: int, j: int|
                    0 <= i < d.len() && 0 <= j < d.len() && i != j && #[trigger] d[i].connected
                        && #[trigger] d[j].connected implies d[i].client_id != d[j].client_id by {
                    assert(d[i].connected == s[i].connected && d[i].client_id == s[i].client_id);
                    assert(d[j].connected == s[j].connected && d[j].client_id == s[j].client_id);
                }
            }
        }
        match self.engine.receive_packet(client_index) {
            None => None,
            Some(bytes) => Some(ServerPacket::new(self, bytes)),
        }
    }

    /// The protocol-level identifier of the client in slot `client_index`, 0 for an empty
    /// slot.
    pub fn client_id(&mut self, client_index: usize) -> (r: u64)
        requires
            old(self).wf(),
            client_index < old(self).slots().len(),
        ensures
            *final(self) == *old(self),
            r == if old(self).slots()[client_index as int].connected {
                old(self).slots()[client_index as int].client_id
            } else {
                0
            },
    {
        self.engine.client_id(client_index)
    }

    /// The protocol-level identifier of the `index`-th connected client, counting connected
    /// slots only, in slot order. An index at or past `num_clients_connected()` is the
    /// caller's error.
    pub fn client_id_at(&mut self, index: usize) -> (r: u64)
        requires
            old(self).wf(),
            index < num_connected(old(self).slots()),
        ensures
            *final(self) == *old(self),
            r == connected_ids(old(self).slots())[index as int],
    {
        let ghost s = self.engine.slots();
        proof {
            lemma_connected_ids_len(s);
        }
        let mut i: usize = 0;
        let mut c: usize = 0;
        while i < self.max_clients
            invariant
                self.wf(),
                self.engine.slots() == s,
                i <= self.max_clients,
                c == connected_ids(s.subrange(0, i as int)).len(),
                c <= index,
            decreases self.max_clients - i,
        {
            proof {
                assert(s.subrange(0, i + 1).drop_last() =~= s.subrange(0, i as int));
            }
            if self.engine.client_connected(i as i32) {
                if c == index {
                    proof {
                        lemma_connected_ids_prefix(s, i + 1);
                        assert(connected_ids(s.subrange(0, i + 1))[c as int] == s[i as int].client_id);
                    }
                    return self.engine.client_id(i);
                }
                c = c + 1;
            }
            i = i + 1;
        }
        proof {
            assert(s.subrange(0, i as int) =~= s);
        }
        0
    }

    /// The dense index names every connected client once: the connected clients are
    /// numbered `0..num_clients_connected()`, and two indices give two different
    /// identifiers.
    pub proof fn lemma_client_ids_distinct(&self, i: int, j: int)
        requires
            self.wf(),
            0 <= i < num_connected(self.slots()),
            0 <= j < num_connected(self.slots()),
            i != j,
        ensures
            connected_ids(self.slots()).len() == num_connected(self.slots()),
            connected_ids(self.slots())[i] != connected_ids(self.slots())[j],
    {
        lemma_connected_ids_len(self.engine.slots());
        lemma_connected_ids_distinct(self.engine.slots());
    }

    /// How many slots hold a client.
    pub fn num_clients_connected(&mut self) -> (r: usize)
        requires
            old(self).wf(),
        ensures
            *final(self) == *old(self),
            r == num_connected(old(self).slots()),
            r <= old(self).capacity() <= MAX_CLIENTS,
    {
        proof {
            lemma_num_connected_bounded(self.engine.slots());
        }
        self.engine.num_clients_connected()
    }

    /// Ends the session of the client in slot `client_index`; nothing happens to an empty
    /// slot.
    pub fn disconnect_client(&mut self, client_index: i32)
        requires
            old(self).wf(),
            valid_index(old(self).slots(), client_index),
        ensures
            final(self).wf(),
            final(self).capacity() == old(self).capacity(),
            final(self).slots() == disconnected(old(self).slots(), client_index as int),
            final(self).config() == old(self).config(),
            final(self).clock() == old(self).clock(),
            final(self).sent() == old(self).sent(),
    {
        proof {
            let s = self.engine.slots();
            let d = disconnected(s, client_index as int);
            assert forall|i: int, j: int|
                0 <= i < d.len() && 0 <= j < d[i].inbox.len() implies #[trigger] d[i].inbox[j].len()
                    <= MAX_PACKET_SIZE by {
                assert(d[i].inbox[j] == s[i].inbox[j]);
            }
            assert forall|i: int, j: int|
                0 <= i < d.len() && 0 <= j < d.len() && i != j && #[trigger] d[i].connected
                    && #[trigger] d[j].connected implies d[i].client_id != d[j].client_id by {
                assert(d[i] == s[i] && d[j] == s[j]);
            }
        }
        self.engine.disconnect_client(client_index);
    }

    /// Ends the sessions of all clients.
    pub fn disconnect_all_clients(&mut self)
        requires
            old(self).wf(),
        ensures
            final(self).wf(),
            final(self).capacity() == old(self).capacity(),
            final(self).slots() == empty_slots(old(self).capacity()),
            final(self).config() == old(self).config(),
            final(self).clock() == old(self).clock(),
            final(self).sent() == old(self).sent(),
    {
        self.engine.disconnect_all_clients();
    }
}

/// One payload received from a client, borrowed from the server that received it.
pub struct ServerPacket<'a, E: Engine> {
    // Held only for its lifetime: the packet cannot outlive, nor coexist with a change to,
    // the server that received it.
    #[allow(dead_code)]
    server: &'a Server<E>,
    bytes: Vec<u8>,
}

impl<'a, E: Engine> View for ServerPacket<'a, E> {
    type V = Seq<u8>;

    closed spec fn view(&self) -> Seq<u8> {
        self.bytes@
    }
}

impl<'a, E: Engine> ServerPacket<'a, E> {
    /// The packet holding `bytes`, received by `server`.
    pub fn new(server: &'a Server<E>, bytes: Vec<u8>) -> (r: ServerPacket<'a, E>)
        ensures
            r@ == bytes@,
    {
        ServerPacket { server, bytes }
    }

    /// The payload: every byte the engine received, and no more.
    pub fn data(&self) -> (r: &[u8])
        ensures
            r@ == self@,
    {
        self.bytes.as_slice()
    }
}

} // verus!
