use netcode::limits::{MAX_CLIENTS, MAX_PACKET_SIZE, PRIVATE_KEY_BYTES};
use netcode::{Arrival, Engine, LocalEngine, SendError, Server, ServerError, SessionCount};

const PUBLIC_ADDR: &str = "127.0.0.1:40000";
const BIND_ADDR: &str = "0.0.0.0:40000";
const PROTOCOL_ID: u64 = 0x1122334455667788;

fn key() -> Vec<u8> {
    vec![7u8; PRIVATE_KEY_BYTES]
}

fn server(max_clients: usize) -> Server<LocalEngine> {
    match Server::<LocalEngine>::new(PUBLIC_ADDR, BIND_ADDR, &key(), PROTOCOL_ID, max_clients) {
        Ok(s) => s,
        Err(e) => panic!("server not created: {:?}", e),
    }
}

/// A server whose engine admits the given arrivals at time 1.
fn server_with(max_clients: usize, arrivals: Vec<Arrival>) -> Server<LocalEngine> {
    let mut engine = LocalEngine::create(PUBLIC_ADDR, BIND_ADDR, &key(), PROTOCOL_ID).unwrap();
    for a in arrivals {
        engine.schedule(1, a);
    }
    let mut s = match Server::from_engine(Some(engine), max_clients) {
        Ok(s) => s,
        Err(e) => panic!("server not started: {:?}", e),
    };
    s.update(1);
    s
}

#[test]
fn create_refuses_more_clients_than_the_protocol_allows() {
    for n in [MAX_CLIENTS + 1, MAX_CLIENTS + 2, 1000, usize::MAX] {
        let r = Server::<LocalEngine>::new(PUBLIC_ADDR, BIND_ADDR, &key(), PROTOCOL_ID, n);
        assert!(matches!(r, Err(ServerError::MaxClients)));
    }
}

#[test]
fn create_accepts_the_ceiling_and_zero() {
    let mut s = server(MAX_CLIENTS);
    assert_eq!(s.num_clients_connected(), 0);
    assert!(!s.client_connected(63));
    assert_eq!(s.engine().protocol_id(), PROTOCOL_ID);
    let mut z = server(0);
    assert_eq!(z.num_clients_connected(), 0);
}

#[test]
fn engine_failure_is_a_create_error() {
    let r = Server::<LocalEngine>::from_engine(None, 4);
    assert!(matches!(r, Err(ServerError::Create)));
}

#[test]
fn oversized_send_is_refused_and_the_ceiling_is_sent() {
    let mut s = server_with(4, vec![Arrival::Connect(1)]);
    assert_eq!(MAX_PACKET_SIZE, 1200);
    assert_eq!(s.send(0, &vec![0u8; 1201]), Err(SendError::LengthExceeded));
    assert_eq!(s.engine().num_sent(), 0);
    assert_eq!(s.send(0, &vec![0u8; 1200]), Ok(()));
    assert_eq!(s.engine().num_sent(), 1);
    assert_eq!(s.send(0, &[]), Ok(()));
    assert_eq!(s.engine().num_sent(), 2);
}

#[test]
fn refused_send_leaves_the_queues_alone() {
    let mut s = server_with(2, vec![Arrival::Connect(5), Arrival::Payload(0, vec![1, 2])]);
    assert_eq!(s.send(0, &vec![9u8; 5000]), Err(SendError::LengthExceeded));
    assert_eq!(s.engine().num_sent(), 0);
    let p = s.receive_packet(0).unwrap();
    assert_eq!(p.data(), &[1u8, 2][..]);
}

#[test]
fn packet_data_has_the_received_length() {
    let payload: Vec<u8> = (0..=255u8).collect();
    let mut s = server_with(2, vec![Arrival::Connect(9), Arrival::Payload(0, payload.clone())]);
    let p = s.receive_packet(0).unwrap();
    assert_eq!(p.data().len(), 256);
    assert_eq!(p.data(), &payload[..]);
}

#[test]
fn empty_payload_is_a_packet_not_none() {
    let mut s = server_with(2, vec![Arrival::Connect(9), Arrival::Payload(0, vec![])]);
    {
        let p = s.receive_packet(0);
        assert!(p.is_some());
        assert_eq!(p.unwrap().data().len(), 0);
    }
    assert!(s.receive_packet(0).is_none());
}

#[test]
fn packets_come_out_in_arrival_order() {
    let mut s = server_with(
        2,
        vec![
            Arrival::Connect(9),
            Arrival::Payload(0, vec![1]),
            Arrival::Payload(0, vec![2, 2]),
            Arrival::Payload(0, vec![3, 3, 3]),
        ],
    );
    for expected in [vec![1u8], vec![2, 2], vec![3, 3, 3]] {
        let p = s.receive_packet(0).unwrap();
        assert_eq!(p.data(), &expected[..]);
    }
    assert!(s.receive_packet(0).is_none());
}

#[test]
fn dropped_packet_frees_the_server_for_the_next_one() {
    let mut s = server_with(
        2,
        vec![Arrival::Connect(9), Arrival::Payload(0, vec![4]), Arrival::Payload(0, vec![5])],
    );
    let first = s.receive_packet(0).unwrap();
    let byte = first.data()[0];
    drop(first);
    assert_eq!(byte, 4);
    let second = s.receive_packet(0).unwrap();
    assert_eq!(second.data(), &[5u8][..]);
}

#[test]
fn disconnect_twice_is_the_same_as_once() {
    let mut s = server_with(
        4,
        vec![Arrival::Connect(10), Arrival::Connect(20), Arrival::Payload(0, vec![1])],
    );
    s.disconnect_client(0);
    assert!(!s.client_connected(0));
    assert_eq!(s.num_clients_connected(), 1);
    assert_eq!(s.client_id(0), 0);
    s.disconnect_client(0);
    assert!(!s.client_connected(0));
    assert_eq!(s.num_clients_connected(), 1);
    assert_eq!(s.client_id(0), 0);
    assert!(s.receive_packet(0).is_none());
    assert_eq!(s.client_id(1), 20);
}

#[test]
fn two_clients_connect_and_all_are_disconnected() {
    let mut s = server_with(4, vec![Arrival::Connect(0xAAAA), Arrival::Connect(0xBBBB)]);
    assert_eq!(s.num_clients_connected(), 2);
    let a = s.client_id(0);
    let b = s.client_id(1);
    assert_ne!(a, b);
    assert_eq!(a, 0xAAAA);
    assert_eq!(b, 0xBBBB);
    assert_eq!(s.client_id_at(0), 0xAAAA);
    assert_eq!(s.client_id_at(1), 0xBBBB);
    assert!(s.client_connected(0));
    assert!(s.client_connected(1));
    assert!(!s.client_connected(2));
    s.disconnect_all_clients();
    assert_eq!(s.num_clients_connected(), 0);
    assert!(!s.client_connected(0));
    assert!(!s.client_connected(1));
}

#[test]
fn arrivals_wait_for_their_time() {
    let mut engine = LocalEngine::create(PUBLIC_ADDR, BIND_ADDR, &key(), PROTOCOL_ID).unwrap();
    engine.schedule(100, Arrival::Connect(3));
    let mut s = Server::from_engine(Some(engine), 2).ok().unwrap();
    s.update(50);
    assert_eq!(s.num_clients_connected(), 0);
    s.update(100);
    assert_eq!(s.num_clients_connected(), 1);
    assert_eq!(s.client_id(0), 3);
}

#[test]
fn full_engine_turns_clients_away() {
    let mut engine = LocalEngine::create(PUBLIC_ADDR, BIND_ADDR, &key(), PROTOCOL_ID).unwrap();
    engine.start(2);
    assert_eq!(engine.connect(1), Some(0));
    assert_eq!(engine.connect(2), Some(1));
    assert_eq!(engine.connect(3), None);
    engine.disconnect_client(0);
    assert_eq!(engine.connect(4), Some(0));
    assert_eq!(engine.client_id(0), 4);
}

#[test]
fn payload_from_an_empty_slot_is_dropped() {
    let mut engine = LocalEngine::create(PUBLIC_ADDR, BIND_ADDR, &key(), PROTOCOL_ID).unwrap();
    engine.start(2);
    assert!(!engine.deliver(1, vec![1, 2, 3]));
    assert_eq!(engine.connect(8), Some(0));
    assert!(engine.deliver(0, vec![1, 2, 3]));
    assert_eq!(engine.receive_packet(0), Some(vec![1, 2, 3]));
    assert_eq!(engine.receive_packet(1), None);
}

#[test]
fn oversized_arrival_is_never_queued() {
    let mut s = server_with(
        2,
        vec![
            Arrival::Connect(9),
            Arrival::Payload(0, vec![1u8; MAX_PACKET_SIZE + 1]),
            Arrival::Payload(0, vec![2u8; MAX_PACKET_SIZE]),
        ],
    );
    let p = s.receive_packet(0).unwrap();
    assert_eq!(p.data().len(), 1200);
    assert!(p.data().iter().all(|b| *b == 2));
    drop(p);
    assert!(s.receive_packet(0).is_none());
}

#[test]
fn payload_for_a_slot_out_of_range_is_ignored() {
    let mut s = server_with(2, vec![Arrival::Connect(9), Arrival::Payload(5, vec![1])]);
    assert_eq!(s.num_clients_connected(), 1);
    assert!(s.receive_packet(0).is_none());
    assert!(s.receive_packet(1).is_none());
}

#[test]
fn disconnect_drops_what_was_waiting() {
    let mut s = server_with(2, vec![Arrival::Connect(9), Arrival::Payload(0, vec![1, 2, 3])]);
    s.disconnect_all_clients();
    assert!(s.receive_packet(0).is_none());
}

#[test]
fn too_many_clients_is_refused_before_the_arguments_are_read() {
    let r = Server::<LocalEngine>::new("bad\0addr", "0.0.0.0:1", &[1, 2, 3], PROTOCOL_ID, MAX_CLIENTS + 1);
    assert!(matches!(r, Err(ServerError::MaxClients)));
}

#[test]
fn oversized_send_is_refused_whatever_the_slot() {
    let mut s = server(2);
    assert_eq!(s.send(-1, &vec![0u8; 1201]), Err(SendError::LengthExceeded));
    assert_eq!(s.send(99, &vec![0u8; 5000]), Err(SendError::LengthExceeded));
    assert_eq!(s.engine().num_sent(), 0);
}

#[test]
fn a_connected_identifier_is_not_admitted_twice() {
    let mut engine = LocalEngine::create(PUBLIC_ADDR, BIND_ADDR, &key(), PROTOCOL_ID).unwrap();
    engine.start(3);
    assert_eq!(engine.connect(7), Some(0));
    assert_eq!(engine.connect(7), None);
    assert_eq!(engine.num_clients_connected(), 1);
    assert_eq!(engine.connect(8), Some(1));
}

#[test]
fn scheduled_arrivals_keep_their_order_across_ticks() {
    let mut engine = LocalEngine::create(PUBLIC_ADDR, BIND_ADDR, &key(), PROTOCOL_ID).unwrap();
    engine.schedule(10, Arrival::Connect(1));
    engine.schedule(20, Arrival::Payload(0, vec![2]));
    engine.schedule(10, Arrival::Payload(0, vec![1]));
    let mut s = Server::from_engine(Some(engine), 1).ok().unwrap();
    s.update(10);
    assert_eq!(s.receive_packet(0).unwrap().data(), &[1u8][..]);
    assert!(s.receive_packet(0).is_none());
    s.update(20);
    assert_eq!(s.receive_packet(0).unwrap().data(), &[2u8][..]);
}

#[test]
fn dense_index_skips_empty_slots() {
    let mut s = server_with(
        4,
        vec![Arrival::Connect(11), Arrival::Connect(22), Arrival::Connect(33)],
    );
    s.disconnect_client(0);
    assert_eq!(s.num_clients_connected(), 2);
    assert_eq!(s.client_id(0), 0);
    assert_eq!(s.client_id_at(0), 22);
    assert_eq!(s.client_id_at(1), 33);
}

#[test]
fn library_is_set_up_first_and_torn_down_last() {
    let mut c = SessionCount::new();
    assert!(c.is_idle());
    assert!(c.opened());
    assert!(!c.is_idle());
    assert!(c.opened());
    assert_eq!(c.open_sessions(), 2);
    assert!(!c.closed());
    assert!(c.closed());
    assert!(c.is_idle());
}
