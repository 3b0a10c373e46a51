use custom_tcp::client;
use custom_tcp::connection::{AbortReason, Action, ConnectionType, Event, HandshakeState};
use custom_tcp::endpoint::Endpoint;
use custom_tcp::ip::{Outgoing, HANDSHAKE_PROTOCOL, RENDEZVOUS_PROTOCOL};
use custom_tcp::server;
use custom_tcp::tcp::{
    decode, CustomTcpFlags, CustomTcpHeader, CustomTcpPayload, MAX_SEGMENT_SIZE,
};
use custom_tcp::Connection;
use etherparse::{IpNumber, Ipv4Header};

fn wrap(protocol: u8, from: Endpoint, to: Endpoint, body: &[u8]) -> Vec<u8> {
    let header = Ipv4Header::new(body.len() as u16, 64, IpNumber(protocol), from.ip, to.ip).unwrap();
    let mut bytes = header.to_bytes().to_vec();
    bytes.extend_from_slice(body);
    bytes
}

fn client_endpoint() -> Endpoint {
    Endpoint::new([10, 0, 0, 5], 5000)
}

fn server_endpoint() -> Endpoint {
    Endpoint::new([10, 0, 0, 9], 9000)
}

fn bound_pair() -> (Connection, Connection) {
    let client_socket = client::CustomSocket::new(client_endpoint(), server_endpoint());
    let server_socket = server::CustomSocket::new(server_endpoint());
    let announcement = wrap(
        RENDEZVOUS_PROTOCOL,
        client_endpoint(),
        server_endpoint(),
        &client_socket.send().bytes,
    );
    let (server_side, reply) = server::accept(&server_socket, &announcement).unwrap();
    let reply = wrap(RENDEZVOUS_PROTOCOL, server_endpoint(), client_endpoint(), &reply.bytes);
    let client_side = client::connect(&client_socket, &reply).unwrap();
    (client_side, server_side)
}

fn segment(src_port: u16, dst_port: u16, flags: Vec<CustomTcpFlags>) -> Vec<u8> {
    CustomTcpPayload::new(src_port, dst_port, flags).into_vec()
}

fn to_server(body: &[u8]) -> Vec<u8> {
    wrap(HANDSHAKE_PROTOCOL, client_endpoint(), server_endpoint(), body)
}

fn to_client(body: &[u8]) -> Vec<u8> {
    wrap(HANDSHAKE_PROTOCOL, server_endpoint(), client_endpoint(), body)
}

fn sent(action: Action, peer: Endpoint) -> Vec<u8> {
    match action {
        Action::Send(outgoing) => {
            assert_eq!(outgoing.peer, peer);
            outgoing.bytes
        }
        other => panic!("expected a send, got {:?}", other),
    }
}

#[test]
fn end_to_end_handshake() {
    let (client, server) = bound_pair();

    let (client_state, action) = client.handshake(HandshakeState::Idle, Event::Start);
    assert_eq!(client_state, HandshakeState::SynSent);
    let syn = sent(action, server_endpoint());
    assert_eq!(syn, segment(5000, 9000, vec![CustomTcpFlags::Syn]));
    assert_eq!(
        CustomTcpHeader::from_bytes(&syn),
        Ok(CustomTcpHeader {
            src_port: 5000,
            dst_port: 9000,
            seq_no: 0,
            ack_flag: false,
            syn_flag: true,
            fin_flag: false,
            payload_size: 0,
        })
    );
    let (client_state, action) = client.handshake(client_state, Event::Sent);
    assert_eq!((client_state, action), (HandshakeState::SynSent, Action::Receive));

    let (server_state, action) = server.handshake(HandshakeState::Idle, Event::Start);
    assert_eq!((server_state, action), (HandshakeState::AwaitingSyn, Action::Receive));
    let (server_state, action) = server.handshake(server_state, Event::Received(&to_server(&syn)));
    assert_eq!(server_state, HandshakeState::SynReceived);
    let syn_ack = sent(action, client_endpoint());
    assert_eq!(syn_ack, segment(9000, 5000, vec![CustomTcpFlags::Syn, CustomTcpFlags::Ack]));
    let (server_state, action) = server.handshake(server_state, Event::Sent);
    assert_eq!((server_state, action), (HandshakeState::SynReceived, Action::Receive));

    let (client_state, action) =
        client.handshake(client_state, Event::Received(&to_client(&syn_ack)));
    assert_eq!(client_state, HandshakeState::SynAckReceived);
    let ack = sent(action, server_endpoint());
    assert_eq!(ack, segment(5000, 9000, vec![CustomTcpFlags::Ack]));
    let (client_state, action) = client.handshake(client_state, Event::Sent);
    assert_eq!((client_state, action), (HandshakeState::Established, Action::Finish));

    let (server_state, action) = server.handshake(server_state, Event::Received(&to_server(&ack)));
    assert_eq!((server_state, action), (HandshakeState::Established, Action::Finish));

    assert!(client_state.is_terminal());
    assert!(server_state.is_terminal());
}

#[test]
fn loopback_drives_both_sides_to_established() {
    let (client, server) = bound_pair();
    let mut to_server_queue: Vec<Vec<u8>> = Vec::new();
    let mut to_client_queue: Vec<Vec<u8>> = Vec::new();
    let (mut client_state, mut client_action) = client.handshake(HandshakeState::Idle, Event::Start);
    let (mut server_state, mut server_action) = server.handshake(HandshakeState::Idle, Event::Start);
    let mut states = vec![client_state, server_state];
    for _ in 0..20 {
        let next_client = match &client_action {
            Action::Send(outgoing) => {
                to_server_queue.push(to_server(&outgoing.bytes));
                Some(client.handshake(client_state, Event::Sent))
            }
            Action::Receive if !to_client_queue.is_empty() => {
                let datagram = to_client_queue.remove(0);
                Some(client.handshake(client_state, Event::Received(&datagram)))
            }
            _ => None,
        };
        if let Some((state, action)) = next_client {
            client_state = state;
            client_action = action;
            states.push(state);
        }
        let next_server = match &server_action {
            Action::Send(outgoing) => {
                to_client_queue.push(to_client(&outgoing.bytes));
                Some(server.handshake(server_state, Event::Sent))
            }
            Action::Receive if !to_server_queue.is_empty() => {
                let datagram = to_server_queue.remove(0);
                Some(server.handshake(server_state, Event::Received(&datagram)))
            }
            _ => None,
        };
        if let Some((state, action)) = next_server {
            server_state = state;
            server_action = action;
            states.push(state);
        }
    }
    assert_eq!(client_state, HandshakeState::Established);
    assert_eq!(server_state, HandshakeState::Established);
    assert_eq!(client_action, Action::Finish);
    assert_eq!(server_action, Action::Finish);
    assert!(states.iter().all(|state| !matches!(state, HandshakeState::Aborted(_))));
}

#[test]
fn unrelated_ports_never_advance_the_client() {
    let (client, _) = bound_pair();
    for (src, dst) in [(9000, 5001), (9001, 5000), (5000, 9000), (1, 2)] {
        let noise = to_client(&segment(src, dst, vec![CustomTcpFlags::Syn, CustomTcpFlags::Ack]));
        assert_eq!(
            client.handshake(HandshakeState::SynSent, Event::Received(&noise)),
            (HandshakeState::SynSent, Action::Receive)
        );
        assert_eq!(client.recv_payload(&noise), None);
    }
}

#[test]
fn unrelated_ports_never_advance_the_server() {
    let (_, server) = bound_pair();
    for (src, dst) in [(5000, 9001), (5001, 9000), (9000, 5000), (1, 2)] {
        let noise = to_server(&segment(src, dst, vec![CustomTcpFlags::Syn, CustomTcpFlags::Ack]));
        assert_eq!(
            server.handshake(HandshakeState::AwaitingSyn, Event::Received(&noise)),
            (HandshakeState::AwaitingSyn, Action::Receive)
        );
        assert_eq!(
            server.handshake(HandshakeState::SynReceived, Event::Received(&noise)),
            (HandshakeState::SynReceived, Action::Receive)
        );
    }
}

#[test]
fn other_noise_never_advances_the_handshake() {
    let (client, server) = bound_pair();
    let good = segment(9000, 5000, vec![CustomTcpFlags::Syn, CustomTcpFlags::Ack]);
    let mut bad_flag = good.clone();
    bad_flag[9] = 2;
    let datagrams = [
        Vec::new(),
        good.clone(),
        wrap(RENDEZVOUS_PROTOCOL, server_endpoint(), client_endpoint(), &good),
        wrap(6, server_endpoint(), client_endpoint(), &good),
        to_client(&good[..good.len() - 1]),
        to_client(&good[..13]),
        to_client(&bad_flag),
        to_client(b"5000::10.0.0.9:9000"),
    ];
    for datagram in &datagrams {
        assert_eq!(
            client.handshake(HandshakeState::SynSent, Event::Received(datagram)),
            (HandshakeState::SynSent, Action::Receive)
        );
        assert_eq!(
            server.handshake(HandshakeState::AwaitingSyn, Event::Received(datagram)),
            (HandshakeState::AwaitingSyn, Action::Receive)
        );
    }
}

#[test]
fn client_aborts_on_reply_without_ack() {
    let (client, _) = bound_pair();
    let reply = to_client(&segment(9000, 5000, vec![CustomTcpFlags::Syn]));
    let (state, action) = client.handshake(HandshakeState::SynSent, Event::Received(&reply));
    assert_eq!(state, HandshakeState::Aborted(AbortReason::MissingSynAck));
    assert_eq!(action, Action::Finish);
    assert_eq!(AbortReason::MissingSynAck.message(), "missing syn-ack flags");
}

#[test]
fn client_aborts_on_reply_without_syn() {
    let (client, _) = bound_pair();
    let reply = to_client(&segment(9000, 5000, vec![CustomTcpFlags::Ack]));
    assert_eq!(
        client.handshake(HandshakeState::SynSent, Event::Received(&reply)),
        (HandshakeState::Aborted(AbortReason::MissingSynAck), Action::Finish)
    );
    let bare = to_client(&segment(9000, 5000, vec![]));
    assert_eq!(
        client.handshake(HandshakeState::SynSent, Event::Received(&bare)),
        (HandshakeState::Aborted(AbortReason::MissingSynAck), Action::Finish)
    );
}

#[test]
fn server_aborts_on_first_segment_without_syn() {
    let (_, server) = bound_pair();
    let first = to_server(&segment(5000, 9000, vec![CustomTcpFlags::Ack]));
    let (state, action) = server.handshake(HandshakeState::AwaitingSyn, Event::Received(&first));
    assert_eq!(state, HandshakeState::Aborted(AbortReason::MissingInitialSyn));
    assert_eq!(action, Action::Finish);
    assert_eq!(AbortReason::MissingInitialSyn.message(), "missing initial syn flag");
}

#[test]
fn server_aborts_on_last_segment_without_ack() {
    let (_, server) = bound_pair();
    let last = to_server(&segment(5000, 9000, vec![CustomTcpFlags::Syn]));
    let (state, action) = server.handshake(HandshakeState::SynReceived, Event::Received(&last));
    assert_eq!(state, HandshakeState::Aborted(AbortReason::MissingFinalAck));
    assert_eq!(action, Action::Finish);
    assert_eq!(AbortReason::MissingFinalAck.message(), "missing final ack flag");
}

#[test]
fn server_takes_any_segment_with_the_flag_it_waits_for() {
    let (_, server) = bound_pair();
    let both = to_server(&segment(5000, 9000, vec![CustomTcpFlags::Syn, CustomTcpFlags::Ack]));
    let (state, _) = server.handshake(HandshakeState::AwaitingSyn, Event::Received(&both));
    assert_eq!(state, HandshakeState::SynReceived);
    assert_eq!(
        server.handshake(HandshakeState::SynReceived, Event::Received(&both)),
        (HandshakeState::Established, Action::Finish)
    );
}

#[test]
fn final_states_stay() {
    let (client, server) = bound_pair();
    let syn = to_server(&segment(5000, 9000, vec![CustomTcpFlags::Syn]));
    for conn in [client, server] {
        for state in [
            HandshakeState::Established,
            HandshakeState::Aborted(AbortReason::MissingSynAck),
            HandshakeState::Aborted(AbortReason::MissingInitialSyn),
            HandshakeState::Aborted(AbortReason::MissingFinalAck),
        ] {
            assert!(state.is_terminal());
            assert_eq!(conn.handshake(state, Event::Start), (state, Action::Finish));
            assert_eq!(conn.handshake(state, Event::Sent), (state, Action::Finish));
            assert_eq!(conn.handshake(state, Event::Received(&syn)), (state, Action::Finish));
        }
    }
}

#[test]
fn events_out_of_turn_change_nothing() {
    let (client, server) = bound_pair();
    let syn = to_server(&segment(5000, 9000, vec![CustomTcpFlags::Syn]));
    assert!(!HandshakeState::Idle.is_terminal());
    assert_eq!(
        client.handshake(HandshakeState::Idle, Event::Sent),
        (HandshakeState::Idle, Action::Finish)
    );
    assert_eq!(
        server.handshake(HandshakeState::Idle, Event::Received(&syn)),
        (HandshakeState::Idle, Action::Finish)
    );
    assert_eq!(
        client.handshake(HandshakeState::SynSent, Event::Start),
        (HandshakeState::SynSent, Action::Receive)
    );
    assert_eq!(
        server.handshake(HandshakeState::AwaitingSyn, Event::Sent),
        (HandshakeState::AwaitingSyn, Action::Receive)
    );
    assert_eq!(
        client.handshake(HandshakeState::SynAckReceived, Event::Start),
        (
            HandshakeState::SynAckReceived,
            Action::Send(Outgoing {
                peer: server_endpoint(),
                bytes: segment(5000, 9000, vec![CustomTcpFlags::Ack]),
            })
        )
    );
    assert_eq!(
        client.handshake(HandshakeState::AwaitingSyn, Event::Start),
        (HandshakeState::AwaitingSyn, Action::Finish)
    );
    assert_eq!(
        server.handshake(HandshakeState::SynSent, Event::Start),
        (HandshakeState::SynSent, Action::Finish)
    );
}

#[test]
fn roles_have_their_own_step_functions() {
    let (client, server) = bound_pair();
    assert_eq!(client.conn_type(), ConnectionType::Client);
    assert_eq!(
        client.handshake_client(HandshakeState::Idle, Event::Start),
        client.handshake(HandshakeState::Idle, Event::Start)
    );
    assert_eq!(
        server.handshake_server(HandshakeState::Idle, Event::Start),
        server.handshake(HandshakeState::Idle, Event::Start)
    );
}

#[test]
fn send_frames_a_message_without_flags() {
    let (client, _) = bound_pair();
    let outgoing = client.send(b"hello").unwrap();
    assert_eq!(outgoing.peer, server_endpoint());
    let payload = decode(&outgoing.bytes).unwrap();
    assert_eq!(
        payload.header,
        CustomTcpHeader {
            src_port: 5000,
            dst_port: 9000,
            seq_no: 0,
            ack_flag: false,
            syn_flag: false,
            fin_flag: false,
            payload_size: 5,
        }
    );
    assert_eq!(&payload.data[..5], b"hello");
    assert!(payload.data[5..].iter().all(|b| *b == 0));
}

#[test]
fn send_refuses_a_message_that_does_not_fit() {
    let (client, _) = bound_pair();
    assert_eq!(client.send(&[1u8; MAX_SEGMENT_SIZE + 1]), None);
    assert!(client.send(&[1u8; MAX_SEGMENT_SIZE]).is_some());
    assert!(client.send(&[]).is_some());
}

#[test]
fn send_with_flags_sets_them() {
    let (client, _) = bound_pair();
    let outgoing = client.send_with_tcp_flags(b"x", vec![CustomTcpFlags::Syn]).unwrap();
    assert_eq!(outgoing.peer, server_endpoint());
    let header = CustomTcpHeader::from_bytes(&outgoing.bytes).unwrap();
    assert!(header.syn_flag && !header.ack_flag);
    assert_eq!(header.payload_size, 1);
}

#[test]
fn recv_mirrors_send() {
    let (client, server) = bound_pair();
    for msg in [&b""[..], b"hello", &[0u8, 0, 0], &[7u8; MAX_SEGMENT_SIZE]] {
        let frame = client.send(msg).unwrap();
        assert_eq!(frame.peer, server_endpoint());
        assert_eq!(server.recv(&to_server(&frame.bytes)), Some(msg.to_vec()));
        let frame = server.send(msg).unwrap();
        assert_eq!(frame.peer, client_endpoint());
        assert_eq!(client.recv(&to_client(&frame.bytes)), Some(msg.to_vec()));
    }
}

#[test]
fn recv_skips_what_is_not_a_message_for_this_connection() {
    let (client, server) = bound_pair();
    let frame = client.send(b"hello").unwrap().bytes;
    assert_eq!(client.recv(&to_client(&frame)), None);
    assert_eq!(server.recv(&frame), None);
    assert_eq!(
        server.recv(&wrap(RENDEZVOUS_PROTOCOL, client_endpoint(), server_endpoint(), &frame)),
        None
    );
    let ack = segment(5000, 9000, vec![CustomTcpFlags::Ack]);
    assert_eq!(server.recv(&to_server(&ack)), None);
    let syn = client.send_with_tcp_flags(b"hello", vec![CustomTcpFlags::Syn]).unwrap();
    assert_eq!(server.recv(&to_server(&syn.bytes)), None);
    let mut oversized = frame.clone();
    oversized[11] = 0x05;
    oversized[12] = 0xb5;
    assert_eq!(server.recv(&to_server(&oversized)), None);
    oversized[12] = 0xb4;
    assert_eq!(server.recv(&to_server(&oversized)).map(|msg| msg.len()), Some(1460));
}

#[test]
fn recv_payload_returns_the_segment() {
    let (client, server) = bound_pair();
    let frame = client.send(b"hello").unwrap().bytes;
    let payload = server.recv_payload(&to_server(&frame)).unwrap();
    assert_eq!(payload.src_port(), 5000);
    assert_eq!(payload.dst_port(), 9000);
    assert_eq!(payload.into_vec(), frame);
}
