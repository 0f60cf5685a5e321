//! The broker's directory of connected peers.
//!
//! Every peer is listed twice: under its identity, with all that is known of
//! it, and under the remote address of its connection, with its identity.
//! The second index finds the peer when a connection ends and only its
//! address is known. The two indices always agree: every identity has one
//! address, every address one identity, and each names the other.

use vstd::prelude::*;

verus! {

/// The remote end of a connection: a host address (IPv4 addresses are mapped
/// into IPv6) and a port.
#[derive(Clone, Copy, Debug, PartialEq, Eq, Hash, Structural)]
pub struct RemoteAddr {
    pub host: u128,
    pub port: u16,
}

/// What the broker holds of an accepted connection: a handle that names the
/// socket to whoever writes to it, and the remote address if the socket
/// still has one.
#[derive(Clone, Copy, Debug, PartialEq, Eq)]
pub struct Connection {
    pub handle: u64,
    pub remote: Option<RemoteAddr>,
}

/// Why a peer cannot be listed.
#[derive(Clone, Copy, Debug, PartialEq, Eq, Structural)]
pub enum PeerError {
    /// The peer's connection has no remote address.
    NoAddress,
}

/// A connected peer.
#[derive(Debug, PartialEq, Eq)]
pub struct Peer {
    pub peer_id: String,
    pub tcp_stream: Connection,
    pub public_key: [u8; 32],
}

/// What a [`Peer`] holds.
pub ghost struct PeerView {
    pub peer_id: Seq<char>,
    pub tcp_stream: Connection,
    pub public_key: Seq<u8>,
}

impl View for Peer {
    type V = PeerView;

    open spec fn view(&self) -> PeerView {
        PeerView {
            peer_id: self.peer_id@,
            tcp_stream: self.tcp_stream,
            public_key: self.public_key@,
        }
    }
}

impl Clone for Peer {
    fn clone(&self) -> (res: Self)
        ensures
            res@ == self@,
    {
        Peer {
            peer_id: self.peer_id.clone(),
            tcp_stream: self.tcp_stream,
            public_key: self.public_key,
        }
    }
}

impl Peer {
    pub fn new(peer_id: String, tcp_stream: Connection, public_key: [u8; 32]) -> (peer: Self)
        ensures
            peer@ == (PeerView { peer_id: peer_id@, tcp_stream, public_key: public_key@ }),
    {
        Peer { peer_id, tcp_stream, public_key }
    }

    /// The remote address of the peer's connection.
    pub fn get_addr(&self) -> (res: Result<RemoteAddr, PeerError>)
        ensures
            res == match self.tcp_stream.remote {
                Some(addr) => Ok::<RemoteAddr, PeerError>(addr),
                None => Err::<RemoteAddr, PeerError>(PeerError::NoAddress),
            },
    {
        match self.tcp_stream.remote {
            Some(addr) => Ok(addr),
            None => Err(PeerError::NoAddress),
        }
    }
}

/// The directory as two lists: the peers, and which identity is known under
/// which address.
pub ghost struct Directory {
    pub peers: Seq<PeerView>,
    pub addrs: Seq<(RemoteAddr, Seq<char>)>,
}

impl Directory {
    /// The empty directory.
    pub open spec fn empty() -> Directory {
        Directory { peers: Seq::empty(), addrs: Seq::empty() }
    }

    /// No identity and no address is listed twice.
    pub open spec fn wf(self) -> bool {
        &&& forall|i: int, j: int|
            0 <= i < self.peers.len() && 0 <= j < self.peers.len() && i != j
                ==> self.peers[i].peer_id != self.peers[j].peer_id
        &&& forall|i: int, j: int|
            0 <= i < self.addrs.len() && 0 <= j < self.addrs.len() && i != j ==> self.addrs[i].0
                != self.addrs[j].0
    }

    /// A peer is listed under `id`.
    pub open spec fn has_id(self, id: Seq<char>) -> bool {
        exists|i: int| 0 <= i < self.peers.len() && self.peers[i].peer_id == id
    }

    /// Where the peer listed under `id` stands.
    pub open spec fn index_of_id(self, id: Seq<char>) -> int {
        choose|i: int| 0 <= i < self.peers.len() && self.peers[i].peer_id == id
    }

    /// The peer listed under `id`.
    pub open spec fn peer(self, id: Seq<char>) -> PeerView {
        self.peers[self.index_of_id(id)]
    }

    /// An identity is listed under `addr`.
    pub open spec fn has_addr(self, addr: RemoteAddr) -> bool {
        exists|i: int| 0 <= i < self.addrs.len() && self.addrs[i].0 == addr
    }

    /// Where `addr` stands in the address index.
    pub open spec fn index_of_addr(self, addr: RemoteAddr) -> int {
        choose|i: int| 0 <= i < self.addrs.len() && self.addrs[i].0 == addr
    }

    /// The identity listed under `addr`.
    pub open spec fn id_at(self, addr: RemoteAddr) -> Seq<char> {
        self.addrs[self.index_of_addr(addr)].1
    }

    /// The peers without the one listed under `id`.
    pub open spec fn without_id(self, id: Seq<char>) -> Seq<PeerView> {
        if self.has_id(id) {
            self.peers.remove(self.index_of_id(id))
        } else {
            self.peers
        }
    }

    /// The address index without `addr`.
    pub open spec fn without_addr(self, addr: RemoteAddr) -> Seq<(RemoteAddr, Seq<char>)> {
        if self.has_addr(addr) {
            self.addrs.remove(self.index_of_addr(addr))
        } else {
            self.addrs
        }
    }

    /// The directory after the peer listed under `id` has been taken out,
    /// together with whatever is listed under that peer's address.
    pub open spec fn remove_by_id(self, id: Seq<char>) -> Directory {
        if self.has_id(id) {
            Directory {
                peers: self.without_id(id),
                addrs: match self.peer(id).tcp_stream.remote {
                    Some(addr) => self.without_addr(addr),
                    None => self.addrs,
                },
            }
        } else {
            self
        }
    }

    /// The directory after `addr` has been taken out of the address index,
    /// together with the peer whose identity was listed under it.
    pub open spec fn remove_by_ip(self, addr: RemoteAddr) -> Directory {
        if self.has_addr(addr) {
            Directory { peers: self.without_id(self.id_at(addr)), addrs: self.without_addr(addr) }
        } else {
            self
        }
    }

    /// The directory with room made for a peer of identity `id` at `addr`:
    /// without the peer listed under `id` and that peer's address, and
    /// without what is listed under `addr` and the peer of that identity.
    pub open spec fn cleared(self, id: Seq<char>, addr: RemoteAddr) -> Directory {
        self.remove_by_id(id).remove_by_ip(addr)
    }

    /// The directory after `peer`, whose connection has a remote address, has
    /// been listed. First room is made for it, so that its identity and its
    /// address are each listed once and with each other; then it goes to the
    /// end of both lists.
    pub open spec fn insert(self, peer: PeerView) -> Directory
        recommends
            peer.tcp_stream.remote is Some,
    {
        let addr = peer.tcp_stream.remote->0;
        let room = self.cleared(peer.peer_id, addr);
        Directory {
            peers: room.peers.push(peer),
            addrs: room.addrs.push((addr, peer.peer_id)),
        }
    }

    /// The two indices agree: every peer's address is listed with the peer's
    /// identity, and every listed address belongs to the peer that is listed
    /// under the identity found there.
    pub open spec fn consistent(self) -> bool {
        &&& forall|i: int|
            0 <= i < self.peers.len() ==> {
                &&& (#[trigger] self.peers[i]).tcp_stream.remote matches Some(addr)
                &&& self.has_addr(addr)
                &&& self.id_at(addr) == self.peers[i].peer_id
            }
        &&& forall|j: int|
            0 <= j < self.addrs.len() ==> {
                &&& self.has_id((#[trigger] self.addrs[j]).1)
                &&& self.peer(self.addrs[j].1).tcp_stream.remote == Some(self.addrs[j].0)
            }
    }
}

/// Taking a peer out by its identity leaves no identity and no address
/// listed twice, and the identity is then listed no more.
pub proof fn lemma_remove_by_id_unlists(d: Directory, id: Seq<char>)
    requires
        d.wf(),
    ensures
        d.remove_by_id(id).wf(),
        !d.remove_by_id(id).has_id(id),
        forall|other: Seq<char>| d.remove_by_id(id).has_id(other) ==> d.has_id(other),
        forall|other: Seq<char>|
            d.has_id(other) && other != id ==> d.remove_by_id(id).has_id(other)
                && d.remove_by_id(id).peer(other) == d.peer(other),
{
    let after = d.remove_by_id(id);
    if d.has_id(id) {
        let i = d.index_of_id(id);
        let j = match d.peer(id).tcp_stream.remote {
            Some(addr) => if d.has_addr(addr) {
                d.index_of_addr(addr)
            } else {
                d.addrs.len() as int
            },
            None => d.addrs.len() as int,
        };
        lemma_remove_keeps_wf(d, i, j);
        lemma_without_id(d, id);
    }
}

/// Taking out what is listed under an address leaves no identity and no
/// address listed twice, and the address is then listed no more.
pub proof fn lemma_remove_by_ip_unlists(d: Directory, addr: RemoteAddr)
    requires
        d.wf(),
    ensures
        d.remove_by_ip(addr).wf(),
        !d.remove_by_ip(addr).has_addr(addr),
        d.has_addr(addr) ==> !d.remove_by_ip(addr).has_id(d.id_at(addr)),
        forall|other: Seq<char>| d.remove_by_ip(addr).has_id(other) ==> d.has_id(other),
        forall|other: Seq<char>|
            d.has_id(other) && !(d.has_addr(addr) && other == d.id_at(addr)) ==> d.remove_by_ip(
                addr,
            ).has_id(other) && d.remove_by_ip(addr).peer(other) == d.peer(other),
{
    let after = d.remove_by_ip(addr);
    if d.has_addr(addr) {
        let id = d.id_at(addr);
        let i = if d.has_id(id) {
            d.index_of_id(id)
        } else {
            d.peers.len() as int
        };
        lemma_remove_keeps_wf(d, i, d.index_of_addr(addr));
        lemma_without_id(d, id);
        lemma_without_addr(d, addr);
    }
}

impl Directory {
    /// Entry `j` of the address index points back at peer `i`: it lists the
    /// peer's identity under the peer's address.
    pub open spec fn points_back(self, i: int, j: int) -> bool {
        &&& 0 <= i < self.peers.len()
        &&& 0 <= j < self.addrs.len()
        &&& self.addrs[j].1 == self.peers[i].peer_id
        &&& self.peers[i].tcp_stream.remote == Some(self.addrs[j].0)
    }
}

/// Where the two indices agree, they pair up: every peer has exactly one
/// entry of the address index that names it, every entry names exactly one
/// peer, and the two point at each other.
pub proof fn lemma_consistent_pairs_up(d: Directory)
    requires
        d.wf(),
        d.consistent(),
    ensures
        forall|i: int|
            0 <= i < d.peers.len() ==> d.points_back(
                i,
                d.index_of_addr((#[trigger] d.peers[i]).tcp_stream.remote->0),
            ),
        forall|j: int|
            0 <= j < d.addrs.len() ==> d.points_back(
                d.index_of_id((#[trigger] d.addrs[j]).1),
                j,
            ),
        forall|i: int, j: int, k: int|
            0 <= i < d.peers.len() && 0 <= j < d.addrs.len() && 0 <= k < d.addrs.len()
                && d.addrs[j].1 == d.peers[i].peer_id && d.addrs[k].1 == d.peers[i].peer_id ==> j
                == k,
        forall|j: int, i: int, k: int|
            0 <= j < d.addrs.len() && 0 <= i < d.peers.len() && 0 <= k < d.peers.len()
                && d.peers[i].tcp_stream.remote == Some(d.addrs[j].0)
                && d.peers[k].tcp_stream.remote == Some(d.addrs[j].0) ==> i == k,
{
    assert forall|i: int| 0 <= i < d.peers.len() implies d.points_back(
        i,
        d.index_of_addr((#[trigger] d.peers[i]).tcp_stream.remote->0),
    ) by {
        let addr = d.peers[i].tcp_stream.remote->0;
        assert(d.has_addr(addr));
    }
    assert forall|j: int| 0 <= j < d.addrs.len() implies d.points_back(
        d.index_of_id((#[trigger] d.addrs[j]).1),
        j,
    ) by {
        assert(d.has_id(d.addrs[j].1));
    }
    assert forall|i: int, j: int, k: int|
        0 <= i < d.peers.len() && 0 <= j < d.addrs.len() && 0 <= k < d.addrs.len()
            && d.addrs[j].1 == d.peers[i].peer_id && d.addrs[k].1
            == d.peers[i].peer_id implies j == k by {
        lemma_found_id(d, d.peers[i].peer_id, i);
        assert(d.peer(d.addrs[j].1).tcp_stream.remote == Some(d.addrs[j].0));
        assert(d.peer(d.addrs[k].1).tcp_stream.remote == Some(d.addrs[k].0));
    }
    assert forall|j: int, i: int, k: int|
        0 <= j < d.addrs.len() && 0 <= i < d.peers.len() && 0 <= k < d.peers.len()
            && d.peers[i].tcp_stream.remote == Some(d.addrs[j].0)
            && d.peers[k].tcp_stream.remote == Some(d.addrs[j].0) implies i == k by {
        lemma_found_addr(d, d.addrs[j].0, j);
        assert(d.id_at(d.addrs[j].0) == d.peers[i].peer_id);
        assert(d.id_at(d.addrs[j].0) == d.peers[k].peer_id);
    }
}

/// The empty directory's indices agree.
pub proof fn lemma_empty_is_consistent()
    ensures
        Directory::empty().wf(),
        Directory::empty().consistent(),
{
}

/// Listing a peer whose identity and address are both new.
proof fn lemma_list_fresh(d: Directory, peer: PeerView)
    requires
        d.wf(),
        peer.tcp_stream.remote is Some,
        !d.has_id(peer.peer_id),
        !d.has_addr(peer.tcp_stream.remote->0),
    ensures
        ({
            let addr = peer.tcp_stream.remote->0;
            let after = Directory {
                peers: d.peers.push(peer),
                addrs: d.addrs.push((addr, peer.peer_id)),
            };
            &&& after.wf()
            &&& after.has_id(peer.peer_id)
            &&& after.peer(peer.peer_id) == peer
            &&& after.has_addr(addr)
            &&& after.id_at(addr) == peer.peer_id
            &&& forall|other: Seq<char>|
                d.has_id(other) ==> after.has_id(other) && after.peer(other) == d.peer(other)
            &&& forall|other: Seq<char>|
                after.has_id(other) ==> other == peer.peer_id || d.has_id(other)
            &&& forall|other: RemoteAddr|
                after.has_addr(other) ==> other == addr || d.has_addr(other)
            &&& d.consistent() ==> after.consistent()
        }),
{
    let addr = peer.tcp_stream.remote->0;
    let after = Directory { peers: d.peers.push(peer), addrs: d.addrs.push((addr, peer.peer_id)) };
    let i0 = d.peers.len() as int;
    let j0 = d.addrs.len() as int;
    assert(after.peers[i0] == peer);
    assert(after.addrs[j0] == (addr, peer.peer_id));
    assert forall|a: int, b: int|
        0 <= a < after.peers.len() && 0 <= b < after.peers.len() && a
            != b implies after.peers[a].peer_id != after.peers[b].peer_id by {
        if a < i0 {
            assert(after.peers[a] == d.peers[a]);
        }
        if b < i0 {
            assert(after.peers[b] == d.peers[b]);
        }
    }
    assert forall|a: int, b: int|
        0 <= a < after.addrs.len() && 0 <= b < after.addrs.len() && a
            != b implies after.addrs[a].0 != after.addrs[b].0 by {
        if a < j0 {
            assert(after.addrs[a] == d.addrs[a]);
        }
        if b < j0 {
            assert(after.addrs[b] == d.addrs[b]);
        }
    }
    lemma_found_id(after, peer.peer_id, i0);
    lemma_found_addr(after, addr, j0);
    assert forall|other: Seq<char>| d.has_id(other) implies after.has_id(other) && after.peer(
        other,
    ) == d.peer(other) by {
        let k = d.index_of_id(other);
        assert(after.peers[k] == d.peers[k]);
        lemma_found_id(after, other, k);
    }
    assert forall|other: Seq<char>| after.has_id(other) implies other == peer.peer_id || d.has_id(
        other,
    ) by {
        let k = after.index_of_id(other);
        if k < i0 {
            assert(d.peers[k].peer_id == other);
        }
    }
    assert forall|other: RemoteAddr| after.has_addr(other) implies other == addr || d.has_addr(
        other,
    ) by {
        let k = after.index_of_addr(other);
        if k < j0 {
            assert(d.addrs[k].0 == other);
        }
    }
    if d.consistent() {
        assert forall|i: int| 0 <= i < after.peers.len() implies {
            &&& (#[trigger] after.peers[i]).tcp_stream.remote matches Some(a)
            &&& after.has_addr(a)
            &&& after.id_at(a) == after.peers[i].peer_id
        } by {
            if i < i0 {
                assert(after.peers[i] == d.peers[i]);
                let a = d.peers[i].tcp_stream.remote->0;
                let j = d.index_of_addr(a);
                assert(d.addrs[j] == (a, d.peers[i].peer_id));
                assert(after.addrs[j] == d.addrs[j]);
                lemma_found_addr(after, a, j);
            }
        }
        assert forall|j: int| 0 <= j < after.addrs.len() implies {
            &&& after.has_id((#[trigger] after.addrs[j]).1)
            &&& after.peer(after.addrs[j].1).tcp_stream.remote == Some(after.addrs[j].0)
        } by {
            if j < j0 {
                assert(after.addrs[j] == d.addrs[j]);
                let id = d.addrs[j].1;
                assert(d.has_id(id));
            }
        }
    }
}

/// Listing a peer whose identity and address are both new puts it at the end
/// of both indices and leaves everyone else as they were.
pub proof fn lemma_insert_fresh(d: Directory, peer: PeerView)
    requires
        d.wf(),
        peer.tcp_stream.remote is Some,
        !d.has_id(peer.peer_id),
        !d.has_addr(peer.tcp_stream.remote->0),
    ensures
        d.insert(peer).peers == d.peers.push(peer),
        d.insert(peer).addrs == d.addrs.push((peer.tcp_stream.remote->0, peer.peer_id)),
        forall|other: Seq<char>|
            d.insert(peer).has_id(other) <==> other == peer.peer_id || d.has_id(other),
        forall|other: Seq<char>|
            d.has_id(other) ==> d.insert(peer).peer(other) == d.peer(other),
        forall|other: RemoteAddr|
            d.insert(peer).has_addr(other) <==> other == peer.tcp_stream.remote->0 || d.has_addr(
                other,
            ),
        forall|other: RemoteAddr|
            d.has_addr(other) ==> d.insert(peer).id_at(other) == d.id_at(other),
{
    let addr = peer.tcp_stream.remote->0;
    assert(d.cleared(peer.peer_id, addr) == d);
    lemma_list_fresh(d, peer);
    let after = d.insert(peer);
    assert forall|other: RemoteAddr| d.has_addr(other) implies after.has_addr(other)
        && after.id_at(other) == d.id_at(other) by {
        let k = d.index_of_addr(other);
        assert(after.addrs[k] == d.addrs[k]);
        lemma_found_addr(after, other, k);
    }
}

/// Listing a peer leaves no identity and no address listed twice. The peer
/// is then found under its identity, and its identity under its address.
/// Whoever else is listed afterwards was listed before.
pub proof fn lemma_insert_lists(d: Directory, peer: PeerView)
    requires
        d.wf(),
        peer.tcp_stream.remote is Some,
    ensures
        d.insert(peer).wf(),
        d.insert(peer).has_id(peer.peer_id),
        d.insert(peer).peer(peer.peer_id) == peer,
        d.insert(peer).has_addr(peer.tcp_stream.remote->0),
        d.insert(peer).id_at(peer.tcp_stream.remote->0) == peer.peer_id,
        forall|other: Seq<char>|
            d.insert(peer).has_id(other) ==> other == peer.peer_id || d.has_id(other),
        forall|other: RemoteAddr|
            d.insert(peer).has_addr(other) ==> other == peer.tcp_stream.remote->0 || d.has_addr(
                other,
            ),
{
    let addr = peer.tcp_stream.remote->0;
    let first = d.remove_by_id(peer.peer_id);
    lemma_remove_by_id_unlists(d, peer.peer_id);
    lemma_remove_by_ip_unlists(first, addr);
    lemma_remove_keeps_addrs(d, peer.peer_id, addr);
    lemma_list_fresh(d.cleared(peer.peer_id, addr), peer);
}

/// Taking entries out lists no address that was not listed.
proof fn lemma_remove_keeps_addrs(d: Directory, id: Seq<char>, addr: RemoteAddr)
    requires
        d.wf(),
    ensures
        forall|other: RemoteAddr| d.remove_by_id(id).has_addr(other) ==> d.has_addr(other),
        forall|other: RemoteAddr| d.remove_by_ip(addr).has_addr(other) ==> d.has_addr(other),
        forall|other: RemoteAddr| d.cleared(id, addr).has_addr(other) ==> d.has_addr(other),
{
    let first = d.remove_by_id(id);
    assert forall|other: RemoteAddr| first.has_addr(other) implies d.has_addr(other) by {
        if d.has_id(id) && d.peer(id).tcp_stream.remote is Some {
            lemma_without_addr(d, d.peer(id).tcp_stream.remote->0);
            let k = first.index_of_addr(other);
            assert(d.addrs.contains(first.addrs[k]));
        }
    }
    assert forall|other: RemoteAddr| d.remove_by_ip(addr).has_addr(other) implies d.has_addr(
        other,
    ) by {
        lemma_without_addr(d, addr);
        let k = d.remove_by_ip(addr).index_of_addr(other);
        assert(d.addrs.contains(d.remove_by_ip(addr).addrs[k]));
    }
    lemma_remove_by_id_unlists(d, id);
    assert forall|other: RemoteAddr| d.cleared(id, addr).has_addr(other) implies d.has_addr(
        other,
    ) by {
        lemma_without_addr(first, addr);
        let k = first.remove_by_ip(addr).index_of_addr(other);
        assert(first.addrs.contains(first.remove_by_ip(addr).addrs[k]));
        assert(first.has_addr(other));
    }
}

/// Listing a peer keeps the two indices in agreement, whoever was listed
/// before under its identity or its address.
pub proof fn lemma_insert_keeps_consistent(d: Directory, peer: PeerView)
    requires
        d.wf(),
        d.consistent(),
        peer.tcp_stream.remote is Some,
    ensures
        d.insert(peer).wf(),
        d.insert(peer).consistent(),
{
    let addr = peer.tcp_stream.remote->0;
    let first = d.remove_by_id(peer.peer_id);
    lemma_remove_by_id_unlists(d, peer.peer_id);
    lemma_remove_by_id_keeps_consistent(d, peer.peer_id);
    lemma_remove_by_ip_unlists(first, addr);
    lemma_remove_by_ip_keeps_consistent(first, addr);
    lemma_list_fresh(d.cleared(peer.peer_id, addr), peer);
}

/// A peer that is listed again, from wherever, takes the place of the peer
/// that had its identity: the address of that peer is listed no more, and
/// every other peer that does not use the newcomer's address stays as it was.
pub proof fn lemma_insert_replaces(d: Directory, peer: PeerView)
    requires
        d.wf(),
        d.consistent(),
        peer.tcp_stream.remote is Some,
    ensures
        d.has_id(peer.peer_id) && d.peer(peer.peer_id).tcp_stream.remote
            != peer.tcp_stream.remote ==> !d.insert(peer).has_addr(
            d.peer(peer.peer_id).tcp_stream.remote->0,
        ),
        forall|other: Seq<char>|
            d.has_id(other) && other != peer.peer_id && d.peer(other).tcp_stream.remote
                != peer.tcp_stream.remote ==> d.insert(peer).has_id(other) && d.insert(peer).peer(
                other,
            ) == d.peer(other),
{
    let addr = peer.tcp_stream.remote->0;
    let id = peer.peer_id;
    let first = d.remove_by_id(id);
    let room = d.cleared(id, addr);
    lemma_remove_by_id_unlists(d, id);
    lemma_remove_by_id_keeps_consistent(d, id);
    lemma_remove_by_ip_unlists(first, addr);
    lemma_remove_keeps_addrs(first, id, addr);
    lemma_list_fresh(room, peer);
    let after = d.insert(peer);
    if d.has_id(id) && d.peer(id).tcp_stream.remote != peer.tcp_stream.remote {
        let gone = d.peer(id).tcp_stream.remote->0;
        let i = d.index_of_id(id);
        assert(d.peers[i].tcp_stream.remote is Some);
        assert(d.has_addr(gone));
        lemma_without_addr(d, gone);
        assert(!first.has_addr(gone)) by {
            if first.has_addr(gone) {
                let k = first.index_of_addr(gone);
                assert(d.without_addr(gone)[k].0 != gone);
            }
        }
    }
    assert forall|other: Seq<char>|
        d.has_id(other) && other != id && d.peer(other).tcp_stream.remote
            != peer.tcp_stream.remote implies after.has_id(other) && after.peer(other) == d.peer(
        other,
    ) by {
        assert(first.has_id(other) && first.peer(other) == d.peer(other));
        if first.has_addr(addr) && other == first.id_at(addr) {
            let j = first.index_of_addr(addr);
            assert(first.peer(first.addrs[j].1).tcp_stream.remote == Some(first.addrs[j].0));
        }
        assert(room.has_id(other) && room.peer(other) == first.peer(other));
    }
}

/// Where the two indices agree, they list equally many entries.
pub proof fn lemma_consistent_same_size(d: Directory)
    requires
        d.wf(),
        d.consistent(),
    ensures
        d.peers.len() == d.addrs.len(),
    decreases d.peers.len(),
{
    if d.peers.len() == 0 {
        if d.addrs.len() > 0 {
            assert(d.has_id(d.addrs[0].1));
        }
    } else {
        let id = d.peers[0].peer_id;
        lemma_found_id(d, id, 0);
        let addr = d.peers[0].tcp_stream.remote->0;
        assert(d.has_addr(addr));
        let after = d.remove_by_id(id);
        lemma_remove_by_id_keeps_consistent(d, id);
        assert(after.peers.len() == d.peers.len() - 1);
        assert(after.addrs.len() == d.addrs.len() - 1);
        lemma_consistent_same_size(after);
    }
}

/// Taking a peer out by its identity keeps the two indices in agreement.
pub proof fn lemma_remove_by_id_keeps_consistent(d: Directory, id: Seq<char>)
    requires
        d.wf(),
        d.consistent(),
    ensures
        d.remove_by_id(id).wf(),
        d.remove_by_id(id).consistent(),
{
    lemma_remove_by_id_unlists(d, id);
    if d.has_id(id) {
        let addr = d.peer(id).tcp_stream.remote->0;
        assert(d.has_addr(addr) && d.id_at(addr) == id);
        lemma_unlist_pair_keeps_consistent(d, id, addr);
    }
}

/// Taking out what is listed under an address keeps the two indices in
/// agreement.
pub proof fn lemma_remove_by_ip_keeps_consistent(d: Directory, addr: RemoteAddr)
    requires
        d.wf(),
        d.consistent(),
    ensures
        d.remove_by_ip(addr).wf(),
        d.remove_by_ip(addr).consistent(),
{
    lemma_remove_by_ip_unlists(d, addr);
    if d.has_addr(addr) {
        let j = d.index_of_addr(addr);
        let id = d.id_at(addr);
        assert(d.has_id(d.addrs[j].1));
        assert(d.peer(id).tcp_stream.remote == Some(addr));
        lemma_unlist_pair_keeps_consistent(d, id, addr);
    }
}

/// Taking out an identity and the address it is listed with keeps the two
/// indices in agreement.
proof fn lemma_unlist_pair_keeps_consistent(d: Directory, id: Seq<char>, addr: RemoteAddr)
    requires
        d.wf(),
        d.consistent(),
        d.has_id(id),
        d.has_addr(addr),
        d.id_at(addr) == id,
        d.peer(id).tcp_stream.remote == Some(addr),
    ensures
        (Directory { peers: d.without_id(id), addrs: d.without_addr(addr) }).consistent(),
{
    let after = Directory { peers: d.without_id(id), addrs: d.without_addr(addr) };
    let i0 = d.index_of_id(id);
    let j0 = d.index_of_addr(addr);
    lemma_remove_keeps_wf(d, i0, j0);
    assert forall|i: int| 0 <= i < after.peers.len() implies {
        &&& (#[trigger] after.peers[i]).tcp_stream.remote matches Some(a)
        &&& after.has_addr(a)
        &&& after.id_at(a) == after.peers[i].peer_id
    } by {
        let k = if i < i0 { i } else { i + 1 };
        assert(after.peers[i] == d.peers[k]);
        let a = d.peers[k].tcp_stream.remote->0;
        let j = d.index_of_addr(a);
        assert(d.addrs[j] == (a, d.peers[k].peer_id));
        assert(j != j0);
        let m = if j < j0 { j } else { j - 1 };
        assert(after.addrs[m] == d.addrs[j]);
        lemma_found_addr(after, a, m);
    }
    assert forall|j: int| 0 <= j < after.addrs.len() implies {
        &&& after.has_id((#[trigger] after.addrs[j]).1)
        &&& after.peer(after.addrs[j].1).tcp_stream.remote == Some(after.addrs[j].0)
    } by {
        let k = if j < j0 { j } else { j + 1 };
        assert(after.addrs[j] == d.addrs[k]);
        let other = d.addrs[k].1;
        let i = d.index_of_id(other);
        assert(d.peers[i].tcp_stream.remote == Some(d.addrs[k].0));
        assert(i != i0);
        let m = if i < i0 { i } else { i - 1 };
        assert(after.peers[m] == d.peers[i]);
        lemma_found_id(after, other, m);
    }
}

/// What `without_id` leaves: every other peer, and only those.
proof fn lemma_without_id(d: Directory, id: Seq<char>)
    requires
        d.wf(),
    ensures
        forall|k: int|
            0 <= k < d.without_id(id).len() ==> (#[trigger] d.without_id(id)[k]).peer_id != id
                && d.peers.contains(d.without_id(id)[k]),
        forall|k0: int|
            0 <= k0 < d.peers.len() && (#[trigger] d.peers[k0]).peer_id != id
                ==> d.without_id(id).contains(d.peers[k0]),
{
    let after = d.without_id(id);
    if d.has_id(id) {
        let i = d.index_of_id(id);
        assert forall|k: int| 0 <= k < after.len() implies (#[trigger] after[k]).peer_id != id
            && d.peers.contains(after[k]) by {
            let k0 = if k < i { k } else { k + 1 };
            assert(after[k] == d.peers[k0]);
        }
        assert forall|k0: int|
            0 <= k0 < d.peers.len() && (#[trigger] d.peers[k0]).peer_id
                != id implies after.contains(d.peers[k0]) by {
            let k = if k0 < i { k0 } else { k0 - 1 };
            assert(after[k] == d.peers[k0]);
        }
    } else {
        assert forall|k: int| 0 <= k < after.len() implies (#[trigger] after[k]).peer_id != id
            && d.peers.contains(after[k]) by {
            assert(after[k] == d.peers[k]);
        }
        assert forall|k0: int|
            0 <= k0 < d.peers.len() && (#[trigger] d.peers[k0]).peer_id
                != id implies after.contains(d.peers[k0]) by {
            assert(after[k0] == d.peers[k0]);
        }
    }
}

/// What `without_addr` leaves: every other entry, and only those.
proof fn lemma_without_addr(d: Directory, addr: RemoteAddr)
    requires
        d.wf(),
    ensures
        forall|k: int|
            0 <= k < d.without_addr(addr).len() ==> (#[trigger] d.without_addr(addr)[k]).0 != addr
                && d.addrs.contains(d.without_addr(addr)[k]),
        forall|k0: int|
            0 <= k0 < d.addrs.len() && (#[trigger] d.addrs[k0]).0 != addr ==> d.without_addr(
                addr,
            ).contains(d.addrs[k0]),
{
    let after = d.without_addr(addr);
    if d.has_addr(addr) {
        let j = d.index_of_addr(addr);
        assert forall|k: int| 0 <= k < after.len() implies (#[trigger] after[k]).0 != addr
            && d.addrs.contains(after[k]) by {
            let k0 = if k < j { k } else { k + 1 };
            assert(after[k] == d.addrs[k0]);
        }
        assert forall|k0: int|
            0 <= k0 < d.addrs.len() && (#[trigger] d.addrs[k0]).0 != addr implies after.contains(
            d.addrs[k0],
        ) by {
            let k = if k0 < j { k0 } else { k0 - 1 };
            assert(after[k] == d.addrs[k0]);
        }
    } else {
        assert forall|k: int| 0 <= k < after.len() implies (#[trigger] after[k]).0 != addr
            && d.addrs.contains(after[k]) by {
            assert(after[k] == d.addrs[k]);
        }
        assert forall|k0: int|
            0 <= k0 < d.addrs.len() && (#[trigger] d.addrs[k0]).0 != addr implies after.contains(
            d.addrs[k0],
        ) by {
            assert(after[k0] == d.addrs[k0]);
        }
    }
}

/// The peers of a vector, in its order.
pub open spec fn peers_view(peers: Seq<Peer>) -> Seq<PeerView> {
    Seq::new(peers.len(), |i: int| peers[i]@)
}

/// The entries of an address index, in its order.
pub open spec fn addrs_view(addrs: Seq<(RemoteAddr, String)>) -> Seq<(RemoteAddr, Seq<char>)> {
    Seq::new(addrs.len(), |i: int| (addrs[i].0, addrs[i].1@))
}

/// Where the first peer with identity `id` stands.
fn find_id(peers: &Vec<Peer>, id: &String) -> (res: Option<usize>)
    ensures
        res matches Some(i) ==> i < peers.len() && peers[i as int]@.peer_id == id@,
        res is None ==> forall|j: int| 0 <= j < peers.len() ==> peers[j]@.peer_id != id@,
{
    let mut i: usize = 0;
    while i < peers.len()
        invariant
            i <= peers.len(),
            forall|j: int| 0 <= j < i ==> peers[j]@.peer_id != id@,
        decreases peers.len() - i,
    {
        if peers[i].peer_id == *id {
            return Some(i);
        }
        i += 1;
    }
    None
}

/// Where the first entry for `addr` stands.
fn find_addr(addrs: &Vec<(RemoteAddr, String)>, addr: &RemoteAddr) -> (res: Option<usize>)
    ensures
        res matches Some(i) ==> i < addrs.len() && addrs[i as int].0 == *addr,
        res is None ==> forall|j: int| 0 <= j < addrs.len() ==> addrs[j].0 != *addr,
{
    let mut i: usize = 0;
    while i < addrs.len()
        invariant
            i <= addrs.len(),
            forall|j: int| 0 <= j < i ==> addrs[j].0 != *addr,
        decreases addrs.len() - i,
    {
        if addrs[i].0 == *addr {
            return Some(i);
        }
        i += 1;
    }
    None
}

/// In a directory that lists no identity twice, the peer found under `id`
/// is the peer listed under `id`.
proof fn lemma_found_id(d: Directory, id: Seq<char>, i: int)
    requires
        d.wf(),
        0 <= i < d.peers.len(),
        d.peers[i].peer_id == id,
    ensures
        d.has_id(id),
        d.index_of_id(id) == i,
{
}

/// In a directory that lists no address twice, the entry found for `addr`
/// is the entry listed for `addr`.
proof fn lemma_found_addr(d: Directory, addr: RemoteAddr, i: int)
    requires
        d.wf(),
        0 <= i < d.addrs.len(),
        d.addrs[i].0 == addr,
    ensures
        d.has_addr(addr),
        d.index_of_addr(addr) == i,
{
}

/// Taking one entry out of a list without repetitions leaves none.
proof fn lemma_remove_keeps_wf(d: Directory, i: int, j: int)
    requires
        d.wf(),
        0 <= i <= d.peers.len(),
        0 <= j <= d.addrs.len(),
    ensures
        (Directory {
            peers: if i < d.peers.len() {
                d.peers.remove(i)
            } else {
                d.peers
            },
            addrs: if j < d.addrs.len() {
                d.addrs.remove(j)
            } else {
                d.addrs
            },
        }).wf(),
{
    if i < d.peers.len() {
        let after = d.peers.remove(i);
        assert forall|a: int, b: int|
            0 <= a < after.len() && 0 <= b < after.len() && a != b implies after[a].peer_id
            != after[b].peer_id by {
            let a0 = if a < i { a } else { a + 1 };
            let b0 = if b < i { b } else { b + 1 };
            assert(after[a] == d.peers[a0]);
            assert(after[b] == d.peers[b0]);
        }
    }
    if j < d.addrs.len() {
        let after = d.addrs.remove(j);
        assert forall|a: int, b: int|
            0 <= a < after.len() && 0 <= b < after.len() && a != b implies after[a].0
            != after[b].0 by {
            let a0 = if a < j { a } else { a + 1 };
            let b0 = if b < j { b } else { b + 1 };
            assert(after[a] == d.addrs[a0]);
            assert(after[b] == d.addrs[b0]);
        }
    }
}

/// The broker's directory.
pub struct PeerSet {
    id_storage: Vec<Peer>,
    ip_storage: Vec<(RemoteAddr, String)>,
}

impl View for PeerSet {
    type V = Directory;

    closed spec fn view(&self) -> Directory {
        Directory { peers: peers_view(self.id_storage@), addrs: addrs_view(self.ip_storage@) }
    }
}

impl PeerSet {
    /// What holds of every directory: nothing is listed twice, and the two
    /// indices agree.
    #[verifier::type_invariant]
    pub open spec fn inv(&self) -> bool {
        self@.wf() && self@.consistent()
    }

    /// An empty directory.
    pub fn new() -> (set: Self)
        ensures
            set@ == Directory::empty(),
            set@.wf(),
            set@.consistent(),
    {
        let set = PeerSet { id_storage: Vec::new(), ip_storage: Vec::new() };
        assert(set@.peers =~= Seq::empty());
        assert(set@.addrs =~= Seq::empty());
        set
    }

    /// Takes the two indices out, leaving the directory empty.
    fn take(&mut self) -> (parts: (Vec<Peer>, Vec<(RemoteAddr, String)>))
        ensures
            old(self)@.wf(),
            old(self)@.consistent(),
            peers_view(parts.0@) == old(self)@.peers,
            addrs_view(parts.1@) == old(self)@.addrs,
    {
        proof {
            use_type_invariant(&*self);
        }
        let mut taken = PeerSet::new();
        core::mem::swap(self, &mut taken);
        (taken.id_storage, taken.ip_storage)
    }

    /// Lists `peer` under its identity and under the remote address of its
    /// connection. Whoever was listed under that identity or under that
    /// address is taken out first, with the other half of its entry. A peer
    /// whose connection has no remote address is refused.
    pub fn insert(&mut self, peer: Peer) -> (res: Result<(), PeerError>)
        ensures
            peer@.tcp_stream.remote is Some ==> res is Ok && final(self)@ == old(self)@.insert(
                peer@,
            ),
            peer@.tcp_stream.remote is None ==> res == Err::<(), PeerError>(PeerError::NoAddress)
                && final(self)@ == old(self)@,
            final(self)@.wf(),
            final(self)@.consistent(),
    {
        proof {
            use_type_invariant(&*self);
        }
        match peer.get_addr() {
            Ok(ip) => {
                let id = peer.peer_id.clone();
                self.remove_by_id(id.as_str());
                self.remove_by_ip(&ip);
                let (mut id_storage, mut ip_storage) = self.take();
                ip_storage.push((ip, id));
                id_storage.push(peer);
                proof {
                    lemma_insert_keeps_consistent(old(self)@, peer@);
                    assert(peers_view(id_storage@) =~= old(self)@.insert(peer@).peers);
                    assert(addrs_view(ip_storage@) =~= old(self)@.insert(peer@).addrs);
                }
                *self = PeerSet { id_storage, ip_storage };
                Ok(())
            },
            Err(e) => Err(e),
        }
    }

    /// Takes out what is listed under `ip`, and the peer of that identity.
    /// Gives the peer, if both were there.
    pub fn remove_by_ip(&mut self, ip: &RemoteAddr) -> (res: Option<Peer>)
        ensures
            final(self)@ == old(self)@.remove_by_ip(*ip),
            res is Some <==> old(self)@.has_addr(*ip) && old(self)@.has_id(old(self)@.id_at(*ip)),
            res matches Some(peer) ==> peer@ == old(self)@.peer(old(self)@.id_at(*ip)),
            final(self)@.wf(),
            final(self)@.consistent(),
    {
        proof {
            use_type_invariant(&*self);
            lemma_remove_by_ip_keeps_consistent(old(self)@, *ip);
        }
        let (mut id_storage, mut ip_storage) = self.take();
        let ghost before = old(self)@;
        let mut removed: Option<Peer> = None;
        let ghost mut i_gone: int = before.peers.len() as int;
        let ghost mut j_gone: int = before.addrs.len() as int;
        match find_addr(&ip_storage, ip) {
            Some(j) => {
                proof {
                    lemma_found_addr(before, *ip, j as int);
                    j_gone = j as int;
                }
                let entry = ip_storage.remove(j);
                assert(addrs_view(ip_storage@) =~= before.without_addr(*ip));
                match find_id(&id_storage, &entry.1) {
                    Some(i) => {
                        proof {
                            lemma_found_id(before, entry.1@, i as int);
                            i_gone = i as int;
                        }
                        removed = Some(id_storage.remove(i));
                    },
                    None => {},
                }
                assert(peers_view(id_storage@) =~= before.without_id(before.id_at(*ip)));
            },
            None => {},
        }
        proof {
            lemma_remove_keeps_wf(before, i_gone, j_gone);
            assert(peers_view(id_storage@) =~= before.remove_by_ip(*ip).peers);
            assert(addrs_view(ip_storage@) =~= before.remove_by_ip(*ip).addrs);
        }
        *self = PeerSet { id_storage, ip_storage };
        removed
    }

    /// Takes out the peer listed under `id`, and what is listed under the
    /// remote address of its connection. Gives the peer, if it was there.
    pub fn remove_by_id(&mut self, id: &str) -> (res: Option<Peer>)
        ensures
            final(self)@ == old(self)@.remove_by_id(id@),
            res is Some <==> old(self)@.has_id(id@),
            res matches Some(peer) ==> peer@ == old(self)@.peer(id@),
            final(self)@.wf(),
            final(self)@.consistent(),
    {
        proof {
            use_type_invariant(&*self);
            lemma_remove_by_id_keeps_consistent(old(self)@, id@);
        }
        let id = id.to_owned();
        let (mut id_storage, mut ip_storage) = self.take();
        let ghost before = old(self)@;
        let mut removed: Option<Peer> = None;
        let ghost mut i_gone: int = before.peers.len() as int;
        let ghost mut j_gone: int = before.addrs.len() as int;
        match find_id(&id_storage, &id) {
            Some(i) => {
                proof {
                    lemma_found_id(before, id@, i as int);
                    i_gone = i as int;
                }
                let peer = id_storage.remove(i);
                assert(peers_view(id_storage@) =~= before.without_id(id@));
                match peer.get_addr() {
                    Ok(addr) => {
                        match find_addr(&ip_storage, &addr) {
                            Some(j) => {
                                proof {
                                    lemma_found_addr(before, addr, j as int);
                                    j_gone = j as int;
                                }
                                ip_storage.remove(j);
                            },
                            None => {},
                        }
                        assert(addrs_view(ip_storage@) =~= before.without_addr(addr));
                    },
                    Err(_) => {},
                }
                removed = Some(peer);
            },
            None => {},
        }
        proof {
            lemma_remove_keeps_wf(before, i_gone, j_gone);
            assert(peers_view(id_storage@) =~= before.remove_by_id(id@).peers);
            assert(addrs_view(ip_storage@) =~= before.remove_by_id(id@).addrs);
        }
        *self = PeerSet { id_storage, ip_storage };
        removed
    }

    /// The peer listed under `id`.
    pub fn find_by_id(&self, id: &str) -> (res: Option<&Peer>)
        ensures
            res is Some <==> self@.has_id(id@),
            res matches Some(peer) ==> peer@ == self@.peer(id@),
    {
        proof {
            use_type_invariant(self);
        }
        let id = id.to_owned();
        match find_id(&self.id_storage, &id) {
            Some(i) => {
                proof {
                    lemma_found_id(self@, id@, i as int);
                }
                Some(&self.id_storage[i])
            },
            None => None,
        }
    }

    /// The peers, in the order in which they were listed.
    pub fn values(&self) -> (res: &Vec<Peer>)
        ensures
            peers_view(res@) == self@.peers,
            self@.wf(),
            self@.consistent(),
    {
        proof {
            use_type_invariant(self);
        }
        &self.id_storage
    }

    /// Each identity with its peer, in the order of [`PeerSet::values`].
    pub fn iter(&self) -> (res: Vec<(&String, &Peer)>)
        ensures
            res.len() == self@.peers.len(),
            forall|i: int|
                0 <= i < res.len() ==> (#[trigger] res[i]).0@ == self@.peers[i].peer_id
                    && res[i].1@ == self@.peers[i],
    {
        let mut res: Vec<(&String, &Peer)> = Vec::new();
        let mut i: usize = 0;
        while i < self.id_storage.len()
            invariant
                i <= self.id_storage.len(),
                res.len() == i,
                forall|j: int|
                    0 <= j < i ==> (#[trigger] res[j]).0@ == self@.peers[j].peer_id && res[j].1@
                        == self@.peers[j],
            decreases self.id_storage.len() - i,
        {
            res.push((&self.id_storage[i].peer_id, &self.id_storage[i]));
            i += 1;
        }
        res
    }
}

} // verus!
