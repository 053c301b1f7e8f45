//! Detection of nearby mesh peers. Every registered interface announces this
//! node to a link-local multicast group and listens there for the
//! announcements of others; what is heard during one tick is the peer table
//! until the next.

use crate::wire::{decode_im_here, decoded_im_here, encode_im_here, im_here_packet, DecodeError};
use std::collections::HashMap;
use vstd::prelude::*;

verus! {

broadcast use vstd::std_specs::hash::group_hash_axioms;

/// An IPv6 socket address: address bits, port, flow information and the index
/// of the interface that scopes a link-local address.
#[derive(Debug, Clone, Copy, PartialEq, Eq, Hash, Structural)]
pub struct SocketAddress {
    pub ip: u128,
    pub port: u16,
    pub flowinfo: u32,
    pub scope_id: u32,
}

/// A neighbor heard during the current tick.
#[derive(Debug, Clone, Copy, PartialEq, Eq, Hash, Structural)]
pub struct Peer {
    pub ifidx: u32,
    pub contact_socket: SocketAddress,
}

impl Peer {
    /// The peer at `ip`, heard on the interface with index `idx`, to be
    /// contacted on `port`.
    pub open spec fn at(ip: u128, idx: u32, port: u16) -> Peer {
        Peer {
            ifidx: idx,
            contact_socket: SocketAddress { ip, port, flowinfo: 0, scope_id: idx },
        }
    }

    pub fn new(ip: u128, idx: u32, port: u16) -> (peer: Peer)
        ensures
            peer == Peer::at(ip, idx, port),
    {
        let socket = SocketAddress { ip, port, flowinfo: 0, scope_id: idx };
        Peer { ifidx: idx, contact_socket: socket }
    }
}

/// Why an interface cannot be listened on.
#[derive(Debug, Clone, Copy, PartialEq, Eq, Structural)]
pub enum ListenError {
    /// The interface has no link-local address.
    NoLinkLocalAddress,
}

/// One interface that peers are looked for on: its name and index, its own
/// link-local address, and the two socket addresses that its sockets are
/// bound to.
#[derive(Debug, Clone)]
pub struct ListenInterface {
    pub ifname: String,
    pub ifidx: u32,
    pub multicast_socketaddr: SocketAddress,
    pub linklocal_socketaddr: SocketAddress,
    pub linklocal_ip: u128,
}

impl ListenInterface {
    /// Whether this is the interface `ifname` with link-local address
    /// `link_ip` and index `idx`, for discovery on the group `disc_ip` and
    /// on `port`.
    pub open spec fn is_on(
        self,
        ifname: Seq<char>,
        link_ip: u128,
        idx: u32,
        disc_ip: u128,
        port: u16,
    ) -> bool {
        &&& self.ifname@ == ifname
        &&& self.ifidx == idx
        &&& self.linklocal_ip == link_ip
        &&& self.multicast_socketaddr == (SocketAddress {
            ip: disc_ip,
            port,
            flowinfo: 0,
            scope_id: idx,
        })
        &&& self.linklocal_socketaddr == (SocketAddress {
            ip: link_ip,
            port,
            flowinfo: 0,
            scope_id: idx,
        })
    }

    /// Describes the interface `ifname` from what was looked up about it. An
    /// interface without a link-local address cannot be listened on; one
    /// whose index is unknown gets index 0.
    pub fn new(
        ifname: &str,
        link_ip: Option<u128>,
        iface_index: Option<u32>,
        disc_ip: u128,
        port: u16,
    ) -> (r: Result<ListenInterface, ListenError>)
        ensures
            link_ip is None ==> r == Err::<ListenInterface, ListenError>(
                ListenError::NoLinkLocalAddress,
            ),
            link_ip is Some ==> r is Ok && (r->Ok_0).is_on(
                ifname@,
                link_ip->Some_0,
                match iface_index {
                    Some(idx) => idx,
                    None => 0,
                },
                disc_ip,
                port,
            ),
    {
        // Lookup interface link local ip
        let link_ip = match link_ip {
            Some(ip) => ip,
            None => {
                return Err(ListenError::NoLinkLocalAddress);
            },
        };
        // Lookup interface index
        let iface_index = match iface_index {
            Some(idx) => idx,
            None => 0,
        };
        let multicast_socketaddr = SocketAddress {
            ip: disc_ip,
            port,
            flowinfo: 0,
            scope_id: iface_index,
        };
        let linklocal_socketaddr = SocketAddress {
            ip: link_ip,
            port,
            flowinfo: 0,
            scope_id: iface_index,
        };
        Ok(
            ListenInterface {
                ifname: ifname.to_owned(),
                ifidx: iface_index,
                multicast_socketaddr,
                linklocal_socketaddr,
                linklocal_ip: link_ip,
            },
        )
    }
}

/// What became of one datagram.
#[derive(Debug, Clone, Copy, PartialEq, Eq, Structural)]
pub enum Heard {
    /// It announced a peer that was not in the table yet.
    NewPeer(Peer),
    /// It is no discovery packet.
    Malformed(DecodeError),
    /// It announced the address of the interface that received it.
    Myself,
    /// It announced a peer that is in the table already.
    Duplicate,
}

/// What a datagram received on an interface with link-local address
/// `own_ip` and index `idx` means for a table of peers.
pub open spec fn outcome_of(
    table: Map<u128, Peer>,
    own_ip: u128,
    idx: u32,
    datagram: Seq<u8>,
    port: u16,
) -> Heard {
    match decoded_im_here(datagram) {
        Err(e) => Heard::Malformed(e),
        Ok(ip) => if ip == own_ip {
            Heard::Myself
        } else if table.contains_key(ip) {
            Heard::Duplicate
        } else {
            Heard::NewPeer(Peer::at(ip, idx, port))
        },
    }
}

/// The table after that datagram: a new peer is added under its address,
/// anything else leaves the table as it was.
pub open spec fn table_after(
    table: Map<u128, Peer>,
    own_ip: u128,
    idx: u32,
    datagram: Seq<u8>,
    port: u16,
) -> Map<u128, Peer> {
    match outcome_of(table, own_ip, idx, datagram, port) {
        Heard::NewPeer(peer) => table.insert(peer.contact_socket.ip, peer),
        _ => table,
    }
}

/// Takes one datagram that `iface` received into the table of this tick.
pub fn hear(
    table: &mut HashMap<u128, Peer>,
    iface: &ListenInterface,
    datagram: &Vec<u8>,
    port: u16,
) -> (heard: Heard)
    ensures
        heard == outcome_of(old(table)@, iface.linklocal_ip, iface.ifidx, datagram@, port),
        final(table)@ == table_after(
            old(table)@,
            iface.linklocal_ip,
            iface.ifidx,
            datagram@,
            port,
        ),
{
    let ipaddr = match decode_im_here(datagram) {
        Ok(ip) => ip,
        Err(e) => {
            return Heard::Malformed(e);
        },
    };
    if ipaddr == iface.linklocal_ip {
        return Heard::Myself;
    }
    if table.contains_key(&ipaddr) {
        return Heard::Duplicate;
    }
    let peer = Peer::new(ipaddr, iface.ifidx, port);
    table.insert(peer.contact_socket.ip, peer);
    Heard::NewPeer(peer)
}

/// One datagram, with the name of the interface whose multicast socket it
/// was read from.
#[derive(Debug, Clone)]
pub struct Received {
    pub ifname: String,
    pub datagram: Vec<u8>,
}

/// Whether one of `interfaces` is named `ifname`.
pub open spec fn listens_on(interfaces: Seq<ListenInterface>, ifname: Seq<char>) -> bool {
    exists|i: int| 0 <= i < interfaces.len() && #[trigger] interfaces[i].ifname@ == ifname
}

/// Whether `i` is the place of the first of `interfaces` named `ifname`.
pub open spec fn is_first_named(
    interfaces: Seq<ListenInterface>,
    ifname: Seq<char>,
    i: int,
) -> bool {
    &&& 0 <= i < interfaces.len()
    &&& interfaces[i].ifname@ == ifname
    &&& forall|j: int| 0 <= j < i ==> #[trigger] interfaces[j].ifname@ != ifname
}

/// The place of the first of `interfaces` named `ifname`, where there is one.
pub open spec fn first_named(interfaces: Seq<ListenInterface>, ifname: Seq<char>) -> int {
    choose|i: int| is_first_named(interfaces, ifname, i)
}

/// No two of `interfaces` have one name.
pub open spec fn names_distinct(interfaces: Seq<ListenInterface>) -> bool {
    forall|i: int, j: int|
        0 <= i < j < interfaces.len() ==> #[trigger] interfaces[i].ifname@
            != #[trigger] interfaces[j].ifname@
}

/// There is one first place at most.
proof fn lemma_first_named_is(interfaces: Seq<ListenInterface>, ifname: Seq<char>, i: int)
    requires
        is_first_named(interfaces, ifname, i),
    ensures
        listens_on(interfaces, ifname),
        first_named(interfaces, ifname) == i,
{
    let c = first_named(interfaces, ifname);
    assert(is_first_named(interfaces, ifname, c));
    if c < i {
        assert(interfaces[c].ifname@ != ifname);
    } else if i < c {
        assert(interfaces[i].ifname@ != ifname);
    }
}

/// Below a place that holds the name there is a first such place.
proof fn lemma_first_named_below(interfaces: Seq<ListenInterface>, ifname: Seq<char>, i: int)
    requires
        0 <= i < interfaces.len(),
        interfaces[i].ifname@ == ifname,
    ensures
        is_first_named(interfaces, ifname, first_named(interfaces, ifname)),
    decreases i,
{
    if forall|j: int| 0 <= j < i ==> #[trigger] interfaces[j].ifname@ != ifname {
        assert(is_first_named(interfaces, ifname, i));
    } else {
        let j = choose|j: int| 0 <= j < i && #[trigger] interfaces[j].ifname@ == ifname;
        lemma_first_named_below(interfaces, ifname, j);
    }
}

/// A name that is listened on has a first place.
pub proof fn lemma_first_named_exists(interfaces: Seq<ListenInterface>, ifname: Seq<char>)
    requires
        listens_on(interfaces, ifname),
    ensures
        is_first_named(interfaces, ifname, first_named(interfaces, ifname)),
{
    let i = choose|i: int| 0 <= i < interfaces.len() && #[trigger] interfaces[i].ifname@ == ifname;
    lemma_first_named_below(interfaces, ifname, i);
}

/// Looks for the interface named `ifname`.
pub fn find_interface(interfaces: &Vec<ListenInterface>, ifname: &String) -> (r: Option<usize>)
    ensures
        match r {
            Some(i) => listens_on(interfaces@, ifname@) && i == first_named(interfaces@, ifname@)
                && is_first_named(interfaces@, ifname@, i as int),
            None => !listens_on(interfaces@, ifname@),
        },
{
    let mut i: usize = 0;
    while i < interfaces.len()
        invariant
            i <= interfaces.len(),
            forall|j: int| 0 <= j < i ==> #[trigger] interfaces@[j].ifname@ != ifname@,
        decreases interfaces.len() - i,
    {
        if interfaces[i].ifname == *ifname {
            proof {
                lemma_first_named_is(interfaces@, ifname@, i as int);
            }
            return Some(i);
        }
        i += 1;
    }
    None
}

/// The peers that a sequence of datagrams makes known, taken in the order
/// in which they were read: the first announcement of an address wins, and
/// a datagram from an interface that is not listened on is left out.
pub open spec fn peers_heard(
    interfaces: Seq<ListenInterface>,
    received: Seq<Received>,
    port: u16,
) -> Map<u128, Peer>
    decreases received.len(),
{
    if received.len() == 0 {
        Map::empty()
    } else {
        let before = peers_heard(interfaces, received.drop_last(), port);
        let last = received.last();
        if listens_on(interfaces, last.ifname@) {
            let iface = interfaces[first_named(interfaces, last.ifname@)];
            table_after(before, iface.linklocal_ip, iface.ifidx, last.datagram@, port)
        } else {
            before
        }
    }
}

/// Builds the peer table of one tick from the datagrams that were read
/// during it.
pub fn receive_im_here(
    interfaces: &Vec<ListenInterface>,
    received: &Vec<Received>,
    port: u16,
) -> (output: HashMap<u128, Peer>)
    ensures
        output@ == peers_heard(interfaces@, received@, port),
{
    let mut output: HashMap<u128, Peer> = HashMap::new();
    let mut n: usize = 0;
    while n < received.len()
        invariant
            n <= received.len(),
            output@ == peers_heard(interfaces@, received@.take(n as int), port),
        decreases received.len() - n,
    {
        assert(received@.take(n + 1).drop_last() == received@.take(n as int));
        let item = &received[n];
        match find_interface(interfaces, &item.ifname) {
            Some(i) => {
                hear(&mut output, &interfaces[i], &item.datagram, port);
            },
            None => {},
        }
        n += 1;
    }
    assert(received@.take(received@.len() as int) == received@);
    output
}

/// One announcement to send: the packet, the address of the socket that
/// sends it and the multicast address that it goes to.
#[derive(Debug, Clone)]
pub struct Announcement {
    pub ifname: String,
    pub from: SocketAddress,
    pub to: SocketAddress,
    pub packet: Vec<u8>,
}

impl Announcement {
    /// Whether this is the announcement that `iface` sends.
    pub open spec fn is_of(self, iface: ListenInterface) -> bool {
        &&& self.ifname@ == iface.ifname@
        &&& self.from == iface.linklocal_socketaddr
        &&& self.to == iface.multicast_socketaddr
        &&& self.packet@ == im_here_packet(iface.linklocal_ip)
    }
}

/// Makes the announcements of one tick: every interface sends its own
/// link-local address to its multicast address.
pub fn send_im_here(interfaces: &Vec<ListenInterface>) -> (out: Vec<Announcement>)
    ensures
        out@.len() == interfaces@.len(),
        forall|i: int| 0 <= i < out@.len() ==> (#[trigger] out@[i]).is_of(interfaces@[i]),
{
    let mut out: Vec<Announcement> = Vec::new();
    let mut i: usize = 0;
    while i < interfaces.len()
        invariant
            i <= interfaces.len(),
            out@.len() == i,
            forall|j: int| 0 <= j < i ==> (#[trigger] out@[j]).is_of(interfaces@[j]),
        decreases interfaces.len() - i,
    {
        let listen_interface = &interfaces[i];
        out.push(
            Announcement {
                ifname: listen_interface.ifname.clone(),
                from: listen_interface.linklocal_socketaddr,
                to: listen_interface.multicast_socketaddr,
                packet: encode_im_here(listen_interface.linklocal_ip),
            },
        );
        i += 1;
    }
    out
}

/// The interfaces after a request to listen on `iface`: a name that is
/// listened on already changes nothing.
pub open spec fn after_listen(
    interfaces: Seq<ListenInterface>,
    iface: ListenInterface,
) -> Seq<ListenInterface> {
    if listens_on(interfaces, iface.ifname@) {
        interfaces
    } else {
        interfaces.push(iface)
    }
}

/// The interfaces after a request to stop listening on `ifname`: a name that
/// is not listened on changes nothing.
pub open spec fn after_unlisten(
    interfaces: Seq<ListenInterface>,
    ifname: Seq<char>,
) -> Seq<ListenInterface> {
    if listens_on(interfaces, ifname) {
        interfaces.remove(first_named(interfaces, ifname))
    } else {
        interfaces
    }
}

/// The interfaces after requests to listen on each of `ready`, in order.
pub open spec fn after_listen_all(
    interfaces: Seq<ListenInterface>,
    ready: Seq<ListenInterface>,
) -> Seq<ListenInterface>
    decreases ready.len(),
{
    if ready.len() == 0 {
        interfaces
    } else {
        after_listen(after_listen_all(interfaces, ready.drop_last()), ready.last())
    }
}

/// The interfaces that peers are looked for on, and the peers that the last
/// tick heard.
#[derive(Debug)]
pub struct PeerListener {
    interfaces: Vec<ListenInterface>,
    peers: HashMap<u128, Peer>,
}

impl PeerListener {
    /// The interfaces that are listened on, in the order of their
    /// registration.
    pub closed spec fn interfaces(&self) -> Seq<ListenInterface> {
        self.interfaces@
    }

    /// The current peer table, by address.
    pub closed spec fn peers(&self) -> Map<u128, Peer> {
        self.peers@
    }

    /// No name is listened on twice.
    pub open spec fn wf(&self) -> bool {
        names_distinct(self.interfaces())
    }

    /// A listener with no interface and no peer.
    pub fn new() -> (listener: PeerListener)
        ensures
            listener.wf(),
            listener.interfaces() == Seq::<ListenInterface>::empty(),
            listener.peers() == Map::<u128, Peer>::empty(),
    {
        PeerListener { interfaces: Vec::new(), peers: HashMap::new() }
    }

    /// Whether `ifname` is listened on.
    pub fn is_listening(&self, ifname: &String) -> (r: bool)
        ensures
            r == listens_on(self.interfaces(), ifname@),
    {
        find_interface(&self.interfaces, ifname).is_some()
    }

    /// How many interfaces are listened on.
    pub fn interface_count(&self) -> (n: usize)
        ensures
            n == self.interfaces().len(),
    {
        self.interfaces.len()
    }

    /// Adds an interface to those on which peers can be found and
    /// contacted, and says whether it did. A second request for one name is
    /// refused and changes nothing.
    pub fn listen(&mut self, iface: ListenInterface) -> (added: bool)
        requires
            old(self).wf(),
        ensures
            final(self).wf(),
            added == !listens_on(old(self).interfaces(), iface.ifname@),
            final(self).interfaces() == after_listen(old(self).interfaces(), iface),
            listens_on(final(self).interfaces(), iface.ifname@),
            final(self).peers() == old(self).peers(),
    {
        if self.is_listening(&iface.ifname) {
            return false;
        }
        self.interfaces.push(iface);
        assert(self.interfaces@[self.interfaces@.len() - 1].ifname@ == iface.ifname@);
        true
    }

    /// Removes an interface from those on which peers can be found and
    /// contacted, and says whether it did. A name that is not listened on
    /// changes nothing.
    pub fn unlisten(&mut self, ifname: &String) -> (removed: bool)
        requires
            old(self).wf(),
        ensures
            final(self).wf(),
            removed == listens_on(old(self).interfaces(), ifname@),
            final(self).interfaces() == after_unlisten(old(self).interfaces(), ifname@),
            removed ==> is_first_named(
                old(self).interfaces(),
                ifname@,
                first_named(old(self).interfaces(), ifname@),
            ) && final(self).interfaces().len() == old(self).interfaces().len() - 1,
            !listens_on(final(self).interfaces(), ifname@),
            final(self).peers() == old(self).peers(),
    {
        match find_interface(&self.interfaces, ifname) {
            Some(i) => {
                self.interfaces.remove(i);
                proof {
                    let before = old(self).interfaces();
                    let after = self.interfaces();
                    assert forall|j: int| 0 <= j < after.len() implies #[trigger] after[j].ifname@
                        != ifname@ by {
                        if j < i {
                            assert(after[j] == before[j]);
                        } else {
                            assert(after[j] == before[j + 1]);
                        }
                    }
                }
                true
            },
            None => false,
        }
    }

    /// Listens on every interface of `ready`, in order.
    pub fn service_started(&mut self, ready: Vec<ListenInterface>)
        requires
            old(self).wf(),
        ensures
            final(self).wf(),
            final(self).interfaces() == after_listen_all(old(self).interfaces(), ready@),
            final(self).peers() == old(self).peers(),
    {
        let mut ready = ready;
        let ghost all = ready@;
        let ghost start = self.interfaces();
        let mut rest: Vec<ListenInterface> = Vec::new();
        // Taken from the end, so put in order first.
        while ready.len() > 0
            invariant
                ready@.len() + rest@.len() == all.len(),
                forall|j: int| 0 <= j < ready@.len() ==> ready@[j] == all[j],
                forall|j: int|
                    0 <= j < rest@.len() ==> rest@[j] == all[all.len() - 1 - j],
            decreases ready@.len(),
        {
            let last = ready.pop().unwrap();
            rest.push(last);
        }
        let ghost mut done: int = 0;
        while rest.len() > 0
            invariant
                self.wf(),
                0 <= done <= all.len(),
                done + rest@.len() == all.len(),
                forall|j: int|
                    0 <= j < rest@.len() ==> rest@[j] == all[all.len() - 1 - j],
                self.interfaces() == after_listen_all(start, all.take(done)),
                self.peers() == old(self).peers(),
            decreases rest@.len(),
        {
            let new_listen_interface = rest.pop().unwrap();
            assert(new_listen_interface == all[done]);
            assert(all.take(done + 1).drop_last() == all.take(done));
            self.listen(new_listen_interface);
            proof {
                done = done + 1;
            }
        }
        assert(all.take(all.len() as int) == all);
    }

    /// One tick's receiving half: the peers heard in `received` replace the
    /// table in full.
    pub fn tick(&mut self, received: &Vec<Received>, port: u16)
        ensures
            final(self).interfaces() == old(self).interfaces(),
            old(self).wf() ==> final(self).wf(),
            final(self).peers() == peers_heard(old(self).interfaces(), received@, port),
    {
        self.peers = receive_im_here(&self.interfaces, received, port);
    }

    /// One tick's sending half: the announcements to send.
    pub fn announcements(&self) -> (out: Vec<Announcement>)
        ensures
            out@.len() == self.interfaces().len(),
            forall|i: int|
                0 <= i < out@.len() ==> (#[trigger] out@[i]).is_of(self.interfaces()[i]),
    {
        send_im_here(&self.interfaces)
    }

    /// A copy of the current peer table.
    pub fn get_peers(&self) -> (peers: HashMap<u128, Peer>)
        ensures
            peers@ == self.peers(),
    {
        self.peers.clone()
    }
}

/// The request to look for peers on the interface with this name.
#[derive(Debug, Clone)]
pub struct Listen(pub String);

/// The request to stop looking for peers on the interface with this name.
#[derive(Debug, Clone)]
pub struct UnListen(pub String);

/// The request for the current peer table.
#[derive(Debug, Clone, Copy)]
pub struct GetPeers();

/// What the peer listener is told.
#[derive(Debug)]
pub enum Message {
    /// A tick has passed; these datagrams were read during it, and peers
    /// are to be contacted on this port.
    Tick { received: Vec<Received>, port: u16 },
    /// Listen on an interface; with it comes what setting the interface up
    /// gave.
    Listen(Listen, Result<ListenInterface, ListenError>),
    /// Stop listening on an interface.
    UnListen(UnListen),
    /// Give the current peer table.
    GetPeers(GetPeers),
}

/// What the peer listener answers.
#[derive(Debug)]
pub enum Reply {
    /// The tick was taken in.
    Ticked,
    /// Whether the interface was added.
    Listened(bool),
    /// Whether the interface was removed.
    UnListened(bool),
    /// A copy of the peer table.
    Peers(HashMap<u128, Peer>),
}

/// What a peer listener holds: the interfaces in the order of their
/// registration and the peer table by address.
pub struct ListenerState {
    pub interfaces: Seq<ListenInterface>,
    pub peers: Map<u128, Peer>,
}

/// Whether a request to listen can be taken up: the interface was set up,
/// and under the name that the request gives.
pub open spec fn can_listen(listen: Listen, setup: Result<ListenInterface, ListenError>) -> bool {
    setup is Ok && setup->Ok_0.ifname@ == listen.0@
}

/// What the listener holds after a message. A tick replaces the peer table
/// by what was heard during it; a request to listen adds an interface whose
/// name is new; a request to stop listening removes the interface of that
/// name; a request for the peers changes nothing.
pub open spec fn state_after(state: ListenerState, msg: Message) -> ListenerState {
    match msg {
        Message::Tick { received, port } => ListenerState {
            interfaces: state.interfaces,
            peers: peers_heard(state.interfaces, received@, port),
        },
        Message::Listen(listen, setup) => if can_listen(listen, setup) {
            ListenerState {
                interfaces: after_listen(state.interfaces, setup->Ok_0),
                peers: state.peers,
            }
        } else {
            state
        },
        Message::UnListen(un_listen) => ListenerState {
            interfaces: after_unlisten(state.interfaces, un_listen.0@),
            peers: state.peers,
        },
        Message::GetPeers(_) => state,
    }
}

/// Whether `reply` is the answer to `msg` of a listener that holds `state`.
pub open spec fn answers(reply: Reply, state: ListenerState, msg: Message) -> bool {
    match msg {
        Message::Tick { .. } => reply is Ticked,
        Message::Listen(listen, setup) => reply matches Reply::Listened(added) && added == (
        can_listen(listen, setup) && !listens_on(state.interfaces, listen.0@)),
        Message::UnListen(un_listen) => reply matches Reply::UnListened(removed) && removed
            == listens_on(state.interfaces, un_listen.0@),
        Message::GetPeers(_) => reply matches Reply::Peers(peers) && peers@ == state.peers,
    }
}

/// After a request to listen that could be taken up, the name is listened
/// on; after a request to stop listening, it is not.
pub open spec fn settles(msg: Message, interfaces: Seq<ListenInterface>) -> bool {
    match msg {
        Message::Listen(listen, setup) => can_listen(listen, setup) ==> listens_on(
            interfaces,
            listen.0@,
        ),
        Message::UnListen(un_listen) => !listens_on(interfaces, un_listen.0@),
        _ => true,
    }
}

impl PeerListener {
    /// What this listener holds.
    pub open spec fn state(&self) -> ListenerState {
        ListenerState { interfaces: self.interfaces(), peers: self.peers() }
    }

    /// Takes one message: the listener afterwards holds what
    /// [`state_after`] says, and the reply is the one that [`answers`] it.
    pub fn handle(&mut self, msg: Message) -> (reply: Reply)
        requires
            old(self).wf(),
        ensures
            final(self).wf(),
            final(self).state() == state_after(old(self).state(), msg),
            answers(reply, old(self).state(), msg),
            settles(msg, final(self).interfaces()),
    {
        match msg {
            Message::Tick { received, port } => {
                self.tick(&received, port);
                Reply::Ticked
            },
            Message::Listen(listen, setup) => match setup {
                Ok(new_iface) => {
                    if new_iface.ifname == listen.0 {
                        Reply::Listened(self.listen(new_iface))
                    } else {
                        Reply::Listened(false)
                    }
                },
                Err(_) => Reply::Listened(false),
            },
            Message::UnListen(un_listen) => Reply::UnListened(self.unlisten(&un_listen.0)),
            Message::GetPeers(_) => Reply::Peers(self.get_peers()),
        }
    }
}

/// Whether the datagram `item` validly announces `ip`: it was read on an
/// interface that is listened on, it decodes to `ip`, and `ip` is not that
/// interface's own address.
pub open spec fn announces(interfaces: Seq<ListenInterface>, item: Received, ip: u128) -> bool {
    &&& listens_on(interfaces, item.ifname@)
    &&& decoded_im_here(item.datagram@) == Ok::<u128, DecodeError>(ip)
    &&& ip != interfaces[first_named(interfaces, item.ifname@)].linklocal_ip
}

/// Whether one of `received` validly announces `ip`.
pub open spec fn announced(
    interfaces: Seq<ListenInterface>,
    received: Seq<Received>,
    ip: u128,
) -> bool {
    exists|n: int| 0 <= n < received.len() && announces(interfaces, #[trigger] received[n], ip)
}

/// The peer table of a tick holds exactly the addresses that were validly
/// announced during it.
pub proof fn lemma_peers_heard_keys(
    interfaces: Seq<ListenInterface>,
    received: Seq<Received>,
    port: u16,
    ip: u128,
)
    ensures
        peers_heard(interfaces, received, port).contains_key(ip) <==> announced(
            interfaces,
            received,
            ip,
        ),
    decreases received.len(),
{
    if received.len() > 0 {
        let before = received.drop_last();
        let last = received.last();
        lemma_peers_heard_keys(interfaces, before, port, ip);
        assert(received[received.len() - 1] == last);
        if announced(interfaces, before, ip) {
            let n = choose|n: int|
                0 <= n < before.len() && announces(interfaces, #[trigger] before[n], ip);
            assert(received[n] == before[n]);
        }
        if announced(interfaces, received, ip) {
            let n = choose|n: int|
                0 <= n < received.len() && announces(interfaces, #[trigger] received[n], ip);
            if n < before.len() {
                assert(before[n] == received[n]);
            }
        }
    }
}

/// First seen wins, over a whole tick: the peer under an address is the one
/// of the first datagram that validly announces the address, on the
/// interface that read that datagram.
pub proof fn lemma_first_announcement_stands(
    interfaces: Seq<ListenInterface>,
    received: Seq<Received>,
    port: u16,
    n: int,
    ip: u128,
)
    requires
        0 <= n < received.len(),
        announces(interfaces, received[n], ip),
        forall|m: int| 0 <= m < n ==> !announces(interfaces, #[trigger] received[m], ip),
    ensures
        peers_heard(interfaces, received, port).contains_key(ip),
        peers_heard(interfaces, received, port)[ip] == Peer::at(
            ip,
            interfaces[first_named(interfaces, received[n].ifname@)].ifidx,
            port,
        ),
    decreases received.len(),
{
    let before = received.drop_last();
    let last = received.last();
    let earlier = peers_heard(interfaces, before, port);
    assert(received[received.len() - 1] == last);
    if n < before.len() {
        assert(before[n] == received[n]);
        assert forall|m: int| 0 <= m < n implies !announces(
            interfaces,
            #[trigger] before[m],
            ip,
        ) by {
            assert(before[m] == received[m]);
        }
        lemma_first_announcement_stands(interfaces, before, port, n, ip);
        if listens_on(interfaces, last.ifname@) {
            let iface = interfaces[first_named(interfaces, last.ifname@)];
            lemma_first_seen_wins(earlier, iface.linklocal_ip, iface.ifidx, last.datagram@, port);
        }
    } else {
        lemma_peers_heard_keys(interfaces, before, port, ip);
        if announced(interfaces, before, ip) {
            let m = choose|m: int|
                0 <= m < before.len() && announces(interfaces, #[trigger] before[m], ip);
            assert(received[m] == before[m]);
        }
        assert(!earlier.contains_key(ip));
    }
}

/// Replacement: after a tick, a request for the peers gives exactly the
/// addresses that were validly announced during that tick, whatever the
/// table held before. A peer of the old table that was not announced is
/// gone, and the interfaces are as they were.
pub proof fn lemma_tick_then_get_peers(
    state: ListenerState,
    received: Vec<Received>,
    port: u16,
    reply: Reply,
)
    requires
        answers(
            reply,
            state_after(state, Message::Tick { received, port }),
            Message::GetPeers(GetPeers()),
        ),
    ensures
        reply is Peers,
        forall|ip: u128|
            (#[trigger] (reply->Peers_0)@.contains_key(ip)) <==> announced(
                state.interfaces,
                received@,
                ip,
            ),
        (reply->Peers_0)@ == peers_heard(state.interfaces, received@, port),
        state_after(state, Message::Tick { received, port }).interfaces == state.interfaces,
{
    assert forall|ip: u128|
        (#[trigger] (reply->Peers_0)@.contains_key(ip)) <==> announced(
            state.interfaces,
            received@,
            ip,
        ) by {
        lemma_peers_heard_keys(state.interfaces, received@, port, ip);
    }
}

/// Double registration: a second request to listen under a name leaves the
/// listener as the first one left it, and is answered with `false`. A
/// listener without interfaces has exactly one after the two, the first.
pub proof fn lemma_listen_twice_handled(
    state: ListenerState,
    name: Listen,
    first: ListenInterface,
    again: Listen,
    second: Result<ListenInterface, ListenError>,
    reply: Reply,
)
    requires
        first.ifname@ == name.0@,
        again.0@ == name.0@,
        answers(
            reply,
            state_after(state, Message::Listen(name, Ok(first))),
            Message::Listen(again, second),
        ),
    ensures
        state_after(
            state_after(state, Message::Listen(name, Ok(first))),
            Message::Listen(again, second),
        ) == state_after(state, Message::Listen(name, Ok(first))),
        reply matches Reply::Listened(added) && !added,
        state.interfaces.len() == 0 ==> state_after(
            state,
            Message::Listen(name, Ok(first)),
        ).interfaces == seq![first],
{
    let once = after_listen(state.interfaces, first);
    if !listens_on(state.interfaces, first.ifname@) {
        assert(once[state.interfaces.len() as int].ifname@ == name.0@);
    }
    assert(listens_on(once, again.0@));
    if can_listen(again, second) {
        lemma_listen_twice(state.interfaces, first, second->Ok_0);
    }
}

impl Default for PeerListener {
    fn default() -> (listener: PeerListener)
        ensures
            listener.wf(),
            listener.interfaces() == Seq::<ListenInterface>::empty(),
            listener.peers() == Map::<u128, Peer>::empty(),
    {
        PeerListener::new()
    }
}

/// Double registration: after a request to listen on an interface, a second
/// request for the same name, whatever else it holds, changes nothing; and
/// on a table that was empty, one interface is listened on.
pub proof fn lemma_listen_twice(
    interfaces: Seq<ListenInterface>,
    first: ListenInterface,
    second: ListenInterface,
)
    requires
        first.ifname@ == second.ifname@,
    ensures
        after_listen(after_listen(interfaces, first), second) == after_listen(interfaces, first),
        interfaces.len() == 0 ==> after_listen(after_listen(interfaces, first), second)
            == seq![first],
{
    let once = after_listen(interfaces, first);
    if listens_on(interfaces, first.ifname@) {
    } else {
        assert(once[interfaces.len() as int].ifname@ == second.ifname@);
        assert(once == seq![first] || interfaces.len() > 0);
    }
}

/// Listening keeps the names distinct, keeps every interface that was
/// listened on in its place, and makes the name listened on.
pub proof fn lemma_listen_keeps(interfaces: Seq<ListenInterface>, iface: ListenInterface)
    requires
        names_distinct(interfaces),
    ensures
        names_distinct(after_listen(interfaces, iface)),
        listens_on(after_listen(interfaces, iface), iface.ifname@),
        forall|i: int|
            0 <= i < interfaces.len() ==> after_listen(interfaces, iface)[i] == interfaces[i],
{
    let after = after_listen(interfaces, iface);
    if !listens_on(interfaces, iface.ifname@) {
        assert(after[interfaces.len() as int].ifname@ == iface.ifname@);
    }
}

/// A datagram that does not decode, or that announces the address of the
/// interface that received it, leaves the table as it was.
pub proof fn lemma_dropped_datagram(
    table: Map<u128, Peer>,
    own_ip: u128,
    idx: u32,
    datagram: Seq<u8>,
    port: u16,
)
    requires
        decoded_im_here(datagram) is Err || decoded_im_here(datagram) == Ok::<
            u128,
            DecodeError,
        >(own_ip),
    ensures
        table_after(table, own_ip, idx, datagram, port) == table,
{
}

/// First seen wins: a datagram never changes or removes a peer that is in
/// the table, and adds one peer at most, under the address that the
/// datagram announces.
pub proof fn lemma_first_seen_wins(
    table: Map<u128, Peer>,
    own_ip: u128,
    idx: u32,
    datagram: Seq<u8>,
    port: u16,
)
    ensures
        forall|ip: u128|
            table.contains_key(ip) ==> table_after(
                table,
                own_ip,
                idx,
                datagram,
                port,
            ).contains_key(ip) && table_after(table, own_ip, idx, datagram, port)[ip] == table[ip],
        forall|ip: u128|
            table_after(table, own_ip, idx, datagram, port).contains_key(ip) && !table.contains_key(
                ip,
            ) ==> decoded_im_here(datagram) == Ok::<u128, DecodeError>(ip) && ip != own_ip
                && table_after(table, own_ip, idx, datagram, port)[ip] == Peer::at(ip, idx, port),
{
}

/// Every peer of a tick's table stands under its own address, was heard on
/// an interface that is listened on, and is to be contacted on `port`.
pub proof fn lemma_peers_heard_entries(
    interfaces: Seq<ListenInterface>,
    received: Seq<Received>,
    port: u16,
)
    ensures
        forall|ip: u128| #[trigger]
            peers_heard(interfaces, received, port).contains_key(ip) ==> exists|i: int|
                0 <= i < interfaces.len() && peers_heard(interfaces, received, port)[ip]
                    == Peer::at(ip, (#[trigger] interfaces[i]).ifidx, port),
    decreases received.len(),
{
    if received.len() > 0 {
        lemma_peers_heard_entries(interfaces, received.drop_last(), port);
        let before = peers_heard(interfaces, received.drop_last(), port);
        let last = received.last();
        if listens_on(interfaces, last.ifname@) {
            let k = first_named(interfaces, last.ifname@);
            lemma_first_named_exists(interfaces, last.ifname@);
            let iface = interfaces[k];
            lemma_first_seen_wins(before, iface.linklocal_ip, iface.ifidx, last.datagram@, port);
            assert forall|ip: u128| #[trigger]
                peers_heard(interfaces, received, port).contains_key(ip) implies exists|i: int|
                0 <= i < interfaces.len() && peers_heard(interfaces, received, port)[ip]
                    == Peer::at(ip, (#[trigger] interfaces[i]).ifidx, port) by {
                if before.contains_key(ip) {
                    let i = choose|i: int|
                        0 <= i < interfaces.len() && before[ip] == Peer::at(
                            ip,
                            (#[trigger] interfaces[i]).ifidx,
                            port,
                        );
                    assert(peers_heard(interfaces, received, port)[ip] == Peer::at(
                        ip,
                        interfaces[i].ifidx,
                        port,
                    ));
                } else {
                    assert(peers_heard(interfaces, received, port)[ip] == Peer::at(
                        ip,
                        interfaces[k].ifidx,
                        port,
                    ));
                }
            }
        }
    }
}

} // verus!
