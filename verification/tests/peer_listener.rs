use rita::peer_listener::{
    find_interface, hear, receive_im_here, send_im_here, GetPeers, Heard, Listen, ListenError,
    ListenInterface, Message, Peer, PeerListener, Received, Reply, SocketAddress, UnListen,
};
use rita::wire::{encode_im_here, DecodeError};
use std::collections::HashMap;

const DISCOVERY: u128 = 0xff02_0000_0000_0000_0000_0000_0000_0008;
const PORT: u16 = 4876;
const OWN_A: u128 = 0xfe80_0000_0000_0000_0000_0000_0000_00a1;
const OWN_B: u128 = 0xfe80_0000_0000_0000_0000_0000_0000_00b1;
const PEER_X: u128 = 0xfe80_0000_0000_0000_0000_0000_0000_0c01;
const PEER_Y: u128 = 0xfe80_0000_0000_0000_0000_0000_0000_0c02;

fn iface(name: &str, own: u128, idx: u32) -> ListenInterface {
    ListenInterface::new(name, Some(own), Some(idx), DISCOVERY, PORT).unwrap()
}

fn from(name: &str, datagram: Vec<u8>) -> Received {
    Received {
        ifname: name.to_string(),
        datagram,
    }
}

fn two_interfaces() -> PeerListener {
    let mut listener = PeerListener::new();
    assert!(listener.listen(iface("eth0", OWN_A, 2)));
    assert!(listener.listen(iface("wlan0", OWN_B, 3)));
    listener
}

#[test]
fn peer_new_builds_contact_socket() {
    let peer = Peer::new(PEER_X, 7, PORT);
    assert_eq!(peer.ifidx, 7);
    assert_eq!(
        peer.contact_socket,
        SocketAddress {
            ip: PEER_X,
            port: PORT,
            flowinfo: 0,
            scope_id: 7
        }
    );
}

#[test]
fn listen_interface_new_builds_socket_addresses() {
    let iface = ListenInterface::new("eth0", Some(OWN_A), Some(2), DISCOVERY, PORT).unwrap();
    assert_eq!(iface.ifname, "eth0");
    assert_eq!(iface.ifidx, 2);
    assert_eq!(iface.linklocal_ip, OWN_A);
    assert_eq!(
        iface.multicast_socketaddr,
        SocketAddress {
            ip: DISCOVERY,
            port: PORT,
            flowinfo: 0,
            scope_id: 2
        }
    );
    assert_eq!(
        iface.linklocal_socketaddr,
        SocketAddress {
            ip: OWN_A,
            port: PORT,
            flowinfo: 0,
            scope_id: 2
        }
    );
}

#[test]
fn listen_interface_without_index_gets_zero() {
    let iface = ListenInterface::new("eth0", Some(OWN_A), None, DISCOVERY, PORT).unwrap();
    assert_eq!(iface.ifidx, 0);
    assert_eq!(iface.multicast_socketaddr.scope_id, 0);
    assert_eq!(iface.linklocal_socketaddr.scope_id, 0);
}

#[test]
fn listen_interface_needs_link_local_address() {
    let r = ListenInterface::new("eth0", None, Some(2), DISCOVERY, PORT);
    assert_eq!(r.err(), Some(ListenError::NoLinkLocalAddress));
}

#[test]
fn new_listener_is_empty() {
    let listener = PeerListener::new();
    assert_eq!(listener.interface_count(), 0);
    assert!(listener.get_peers().is_empty());
    let listener = PeerListener::default();
    assert_eq!(listener.interface_count(), 0);
    assert!(listener.get_peers().is_empty());
}

#[test]
fn double_registration_is_a_no_op() {
    let mut listener = PeerListener::new();
    assert!(listener.listen(iface("eth0", OWN_A, 2)));
    assert_eq!(listener.interface_count(), 1);
    // same name, other details: refused, the first registration stays
    assert!(!listener.listen(iface("eth0", OWN_B, 9)));
    assert_eq!(listener.interface_count(), 1);
    let sent = listener.announcements();
    assert_eq!(sent.len(), 1);
    assert_eq!(sent[0].from.ip, OWN_A);
    assert_eq!(sent[0].from.scope_id, 2);
}

#[test]
fn unlisten_removes_the_interface() {
    let mut listener = two_interfaces();
    assert!(listener.is_listening(&"eth0".to_string()));
    assert!(listener.unlisten(&"eth0".to_string()));
    assert!(!listener.is_listening(&"eth0".to_string()));
    assert!(listener.is_listening(&"wlan0".to_string()));
    assert_eq!(listener.interface_count(), 1);
    // not there any more: nothing happens
    assert!(!listener.unlisten(&"eth0".to_string()));
    assert_eq!(listener.interface_count(), 1);
    // and it can be listened on again
    assert!(listener.listen(iface("eth0", OWN_A, 2)));
    assert_eq!(listener.interface_count(), 2);
}

#[test]
fn service_started_listens_in_order() {
    let mut listener = PeerListener::new();
    listener.service_started(vec![
        iface("eth0", OWN_A, 2),
        iface("wlan0", OWN_B, 3),
        iface("eth0", PEER_X, 4),
    ]);
    assert_eq!(listener.interface_count(), 2);
    let sent = listener.announcements();
    assert_eq!(sent[0].ifname, "eth0");
    assert_eq!(sent[0].from.ip, OWN_A);
    assert_eq!(sent[1].ifname, "wlan0");
    assert_eq!(sent[1].from.ip, OWN_B);
}

#[test]
fn announcements_go_from_link_local_to_multicast() {
    let listener = two_interfaces();
    let sent = listener.announcements();
    assert_eq!(sent.len(), 2);
    assert_eq!(sent[0].ifname, "eth0");
    assert_eq!(sent[0].packet, encode_im_here(OWN_A));
    assert_eq!(
        sent[0].to,
        SocketAddress {
            ip: DISCOVERY,
            port: PORT,
            flowinfo: 0,
            scope_id: 2
        }
    );
    assert_eq!(sent[1].ifname, "wlan0");
    assert_eq!(sent[1].packet, encode_im_here(OWN_B));
    assert_eq!(sent[1].from.ip, OWN_B);
    assert_eq!(sent[1].to.scope_id, 3);
    let again = send_im_here(&vec![iface("eth1", PEER_X, 5)]);
    assert_eq!(again.len(), 1);
    assert_eq!(again[0].packet, encode_im_here(PEER_X));
}

#[test]
fn tick_replaces_the_table() {
    let mut listener = two_interfaces();
    let mut malformed = encode_im_here(PEER_Y);
    malformed[0] = 0;
    listener.tick(
        &vec![
            from("eth0", encode_im_here(PEER_X)),
            from("eth0", malformed),
            from("wlan0", encode_im_here(PEER_Y)),
        ],
        PORT,
    );
    let peers = listener.get_peers();
    assert_eq!(peers.len(), 2);
    assert_eq!(peers[&PEER_X], Peer::new(PEER_X, 2, PORT));
    assert_eq!(peers[&PEER_Y], Peer::new(PEER_Y, 3, PORT));

    // a peer that is silent for one tick is gone
    listener.tick(&vec![from("wlan0", encode_im_here(PEER_Y))], PORT);
    let peers = listener.get_peers();
    assert_eq!(peers.len(), 1);
    assert!(peers.contains_key(&PEER_Y));

    listener.tick(&Vec::new(), PORT);
    assert!(listener.get_peers().is_empty());
    assert_eq!(listener.interface_count(), 2);
}

#[test]
fn first_announcement_of_an_address_wins() {
    let interfaces = vec![iface("eth0", OWN_A, 2), iface("wlan0", OWN_B, 3)];
    let peers = receive_im_here(
        &interfaces,
        &vec![
            from("wlan0", encode_im_here(PEER_X)),
            from("eth0", encode_im_here(PEER_X)),
            from("eth0", encode_im_here(PEER_X)),
        ],
        PORT,
    );
    assert_eq!(peers.len(), 1);
    assert_eq!(peers[&PEER_X].ifidx, 3);
    assert_eq!(peers[&PEER_X].contact_socket.scope_id, 3);
}

#[test]
fn own_announcement_is_ignored() {
    let interfaces = vec![iface("eth0", OWN_A, 2), iface("wlan0", OWN_B, 3)];
    let peers = receive_im_here(
        &interfaces,
        &vec![
            from("eth0", encode_im_here(OWN_A)),
            from("wlan0", encode_im_here(OWN_B)),
        ],
        PORT,
    );
    assert!(peers.is_empty());
    // the address of another interface of this node is a peer like any other
    let peers = receive_im_here(&interfaces, &vec![from("eth0", encode_im_here(OWN_B))], PORT);
    assert_eq!(peers.len(), 1);
    assert_eq!(peers[&OWN_B].ifidx, 2);
}

#[test]
fn datagram_of_unknown_interface_is_ignored() {
    let interfaces = vec![iface("eth0", OWN_A, 2)];
    let peers = receive_im_here(&interfaces, &vec![from("eth9", encode_im_here(PEER_X))], PORT);
    assert!(peers.is_empty());
    assert_eq!(find_interface(&interfaces, &"eth9".to_string()), None);
    assert_eq!(find_interface(&interfaces, &"eth0".to_string()), Some(0));
}

#[test]
fn hear_says_what_became_of_a_datagram() {
    let eth0 = iface("eth0", OWN_A, 2);
    let mut table: HashMap<u128, Peer> = HashMap::new();
    assert_eq!(
        hear(&mut table, &eth0, &encode_im_here(PEER_X), PORT),
        Heard::NewPeer(Peer::new(PEER_X, 2, PORT))
    );
    assert_eq!(table.len(), 1);
    assert_eq!(
        hear(&mut table, &eth0, &encode_im_here(PEER_X), PORT),
        Heard::Duplicate
    );
    assert_eq!(
        hear(&mut table, &eth0, &encode_im_here(OWN_A), PORT),
        Heard::Myself
    );
    assert_eq!(
        hear(&mut table, &eth0, &Vec::new(), PORT),
        Heard::Malformed(DecodeError::Empty)
    );
    assert_eq!(
        hear(&mut table, &eth0, &encode_im_here(1), PORT),
        Heard::Malformed(DecodeError::InvalidAddress)
    );
    assert_eq!(
        hear(&mut table, &eth0, &vec![0x5b, 0, 3], PORT),
        Heard::Malformed(DecodeError::TooSmall)
    );
    assert_eq!(table.len(), 1);
    assert_eq!(table[&PEER_X], Peer::new(PEER_X, 2, PORT));
}

fn listen_on(name: &str, own: u128, idx: u32) -> Message {
    Message::Listen(Listen(name.to_string()), Ok(iface(name, own, idx)))
}

fn peers_of(listener: &mut PeerListener) -> HashMap<u128, Peer> {
    match listener.handle(Message::GetPeers(GetPeers())) {
        Reply::Peers(peers) => peers,
        other => panic!("no peers but {:?}", other),
    }
}

#[test]
fn handled_tick_replaces_the_table() {
    let mut listener = PeerListener::new();
    assert!(matches!(
        listener.handle(listen_on("eth0", OWN_A, 2)),
        Reply::Listened(true)
    ));
    assert!(matches!(
        listener.handle(listen_on("wlan0", OWN_B, 3)),
        Reply::Listened(true)
    ));
    let mut malformed = encode_im_here(PEER_Y);
    malformed[2] = 3;
    let reply = listener.handle(Message::Tick {
        received: vec![
            from("eth0", encode_im_here(PEER_X)),
            from("wlan0", malformed),
            from("wlan0", encode_im_here(PEER_Y)),
        ],
        port: PORT,
    });
    assert!(matches!(reply, Reply::Ticked));
    let peers = peers_of(&mut listener);
    assert_eq!(peers.len(), 2);
    assert_eq!(peers[&PEER_X], Peer::new(PEER_X, 2, PORT));
    assert_eq!(peers[&PEER_Y], Peer::new(PEER_Y, 3, PORT));
    // asking changes nothing
    assert_eq!(peers_of(&mut listener), peers);

    // the next tick hears X alone: Y is gone, nothing is merged in
    listener.handle(Message::Tick {
        received: vec![from("wlan0", encode_im_here(PEER_X))],
        port: PORT,
    });
    let peers = peers_of(&mut listener);
    assert_eq!(peers.len(), 1);
    assert_eq!(peers[&PEER_X], Peer::new(PEER_X, 3, PORT));
    assert_eq!(listener.interface_count(), 2);
}

#[test]
fn handled_double_listen_keeps_the_first() {
    let mut listener = PeerListener::new();
    assert!(matches!(
        listener.handle(listen_on("eth0", OWN_A, 2)),
        Reply::Listened(true)
    ));
    assert!(matches!(
        listener.handle(listen_on("eth0", OWN_B, 9)),
        Reply::Listened(false)
    ));
    assert_eq!(listener.interface_count(), 1);
    let sent = listener.announcements();
    assert_eq!(sent.len(), 1);
    assert_eq!(sent[0].ifname, "eth0");
    assert_eq!(sent[0].from.ip, OWN_A);
    assert_eq!(sent[0].from.scope_id, 2);
    assert_eq!(sent[0].to.scope_id, 2);
}

#[test]
fn handled_listen_needs_a_set_up_interface_of_that_name() {
    let mut listener = PeerListener::new();
    let failed = Message::Listen(
        Listen("eth0".to_string()),
        Err(ListenError::NoLinkLocalAddress),
    );
    assert!(matches!(listener.handle(failed), Reply::Listened(false)));
    let other = Message::Listen(Listen("eth0".to_string()), Ok(iface("eth1", OWN_A, 2)));
    assert!(matches!(listener.handle(other), Reply::Listened(false)));
    assert_eq!(listener.interface_count(), 0);
}

#[test]
fn handled_unlisten() {
    let mut listener = two_interfaces();
    let gone = Message::UnListen(UnListen("eth0".to_string()));
    assert!(matches!(listener.handle(gone), Reply::UnListened(true)));
    let gone = Message::UnListen(UnListen("eth0".to_string()));
    assert!(matches!(listener.handle(gone), Reply::UnListened(false)));
    assert_eq!(listener.interface_count(), 1);
    assert!(listener.is_listening(&"wlan0".to_string()));
}
