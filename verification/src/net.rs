//! The server's address book: which network address each client id was given, how new
//! addresses get ids, and the addresses of clients that have left.

use vstd::prelude::*;
use crate::assoc::{
    assoc_map, distinct_keys, has_key, lemma_assoc_at, lemma_assoc_dom, lemma_assoc_len,
    lemma_assoc_push, lemma_assoc_remove, lemma_assoc_update, lemma_remove_distinct,
};

verus! {

/// The channel of messages that arrive reliably and in order.
pub const RELIABLE_ORDERED_CHANNEL: u8 = 0;

/// The channel of messages that may be lost.
pub const UNRELIABLE_CHANNEL: u8 = 1;

/// The most clients that are given ids at once.
pub const MAX_CLIENTS: usize = 32;

/// The protocol id the server's connections carry.
pub const PROTOCOL_ID: u64 = 7;

/// A network address, with every part that tells two addresses apart: the IP address as a
/// number, the port, whether it is IPv6, and an IPv6 address's flow label and scope id.
#[derive(Debug, Clone, Copy, PartialEq, Eq, Hash, Structural)]
pub struct PeerAddr {
    pub ip: u128,
    pub port: u16,
    pub v6: bool,
    pub flow_info: u32,
    pub scope_id: u32,
}

/// Client ids and the addresses they were given to.
pub struct ClientDirectory {
    client_to_addr: Vec<(u64, PeerAddr)>,
    addr_to_client: Vec<(PeerAddr, u64)>,
    disconnected_addrs: Vec<(u64, PeerAddr)>,
    next_client_id: u64,
}

fn find_client(v: &Vec<(u64, PeerAddr)>, id: u64) -> (r: Option<usize>)
    ensures
        r matches Some(i) ==> i < v@.len() && v@[i as int].0 == id,
        r is None ==> !has_key(v@, id),
{
    let mut i: usize = 0;
    while i < v.len()
        invariant
            i <= v@.len(),
            forall|k: int| 0 <= k < i ==> (#[trigger] v@[k]).0 != id,
        decreases v@.len() - i,
    {
        if v[i].0 == id {
            return Some(i);
        }
        i += 1;
    }
    None
}

fn find_addr(v: &Vec<(PeerAddr, u64)>, addr: PeerAddr) -> (r: Option<usize>)
    ensures
        r matches Some(i) ==> i < v@.len() && v@[i as int].0 == addr,
        r is None ==> !has_key(v@, addr),
{
    let mut i: usize = 0;
    while i < v.len()
        invariant
            i <= v@.len(),
            forall|k: int| 0 <= k < i ==> (#[trigger] v@[k]).0 != addr,
        decreases v@.len() - i,
    {
        if v[i].0 == addr {
            return Some(i);
        }
        i += 1;
    }
    None
}

impl ClientDirectory {
    /// The address each connected client id was given to.
    pub closed spec fn clients(&self) -> Map<u64, PeerAddr> {
        assoc_map(self.client_to_addr@)
    }

    /// The client id each known address was given.
    pub closed spec fn addresses(&self) -> Map<PeerAddr, u64> {
        assoc_map(self.addr_to_client@)
    }

    /// The addresses of clients that left and were not asked about yet.
    pub closed spec fn departed(&self) -> Map<u64, PeerAddr> {
        assoc_map(self.disconnected_addrs@)
    }

    /// The id the next new address gets.
    pub closed spec fn spec_next_id(&self) -> u64 {
        self.next_client_id
    }

    /// Each id and each address is listed once.
    pub closed spec fn wf(&self) -> bool {
        &&& distinct_keys(self.client_to_addr@)
        &&& distinct_keys(self.addr_to_client@)
        &&& distinct_keys(self.disconnected_addrs@)
    }

    /// An empty book; the first address gets id 1.
    pub fn new() -> (r: ClientDirectory)
        ensures
            r.wf(),
            r.clients() == Map::<u64, PeerAddr>::empty(),
            r.addresses() == Map::<PeerAddr, u64>::empty(),
            r.departed() == Map::<u64, PeerAddr>::empty(),
            r.spec_next_id() == 1,
    {
        ClientDirectory {
            client_to_addr: Vec::new(),
            addr_to_client: Vec::new(),
            disconnected_addrs: Vec::new(),
            next_client_id: 1,
        }
    }

    /// The client id an address was given, if any.
    pub fn client_for(&self, addr: PeerAddr) -> (r: Option<u64>)
        requires
            self.wf(),
        ensures
            r is Some <==> self.addresses().dom().contains(addr),
            r matches Some(id) ==> id == self.addresses()[addr],
    {
        proof {
            lemma_assoc_dom(self.addr_to_client@, addr);
        }
        match find_addr(&self.addr_to_client, addr) {
            Some(i) => {
                proof {
                    lemma_assoc_at(self.addr_to_client@, i as int);
                }
                Some(self.addr_to_client[i].1)
            },
            None => None,
        }
    }

    /// The address a client id was given to, if it is connected.
    pub fn client_addr(&self, client_id: u64) -> (r: Option<PeerAddr>)
        requires
            self.wf(),
        ensures
            r is Some <==> self.clients().dom().contains(client_id),
            r matches Some(a) ==> a == self.clients()[client_id],
    {
        proof {
            lemma_assoc_dom(self.client_to_addr@, client_id);
        }
        match find_client(&self.client_to_addr, client_id) {
            Some(i) => {
                proof {
                    lemma_assoc_at(self.client_to_addr@, i as int);
                }
                Some(self.client_to_addr[i].1)
            },
            None => None,
        }
    }

    /// The client id of the address a packet came from: the one it was given, or, while
    /// fewer than `MAX_CLIENTS` ids are given out, a new one (the next id, which then moves
    /// on, stopping at the largest).
    pub fn resolve_client_id(&mut self, addr: PeerAddr) -> (r: Option<u64>)
        requires
            old(self).wf(),
        ensures
            final(self).wf(),
            final(self).departed() == old(self).departed(),
            old(self).addresses().dom().contains(addr) ==> r == Some(old(self).addresses()[addr])
                && final(self).clients() == old(self).clients() && final(self).addresses() == old(self).addresses()
                && final(self).spec_next_id() == old(self).spec_next_id(),
            !old(self).addresses().dom().contains(addr) && old(self).clients().dom().len() >= MAX_CLIENTS
                ==> r is None && final(self).clients() == old(self).clients() && final(self).addresses()
                == old(self).addresses() && final(self).spec_next_id() == old(self).spec_next_id(),
            !old(self).addresses().dom().contains(addr) && old(self).clients().dom().len() < MAX_CLIENTS ==> {
                let id = old(self).spec_next_id();
                &&& r == Some(id)
                &&& final(self).addresses() == old(self).addresses().insert(addr, id)
                &&& final(self).clients() == old(self).clients().insert(id, addr)
                &&& final(self).spec_next_id() == if id == u64::MAX {
                    u64::MAX
                } else {
                    (id + 1) as u64
                }
            },
    {
        if let Some(id) = self.client_for(addr) {
            return Some(id);
        }
        proof {
            lemma_assoc_len(self.client_to_addr@);
        }
        if self.client_to_addr.len() >= MAX_CLIENTS {
            return None;
        }
        let client_id = self.next_client_id;
        self.next_client_id = self.next_client_id.saturating_add(1);
        proof {
            lemma_assoc_dom(old(self).addr_to_client@, addr);
        }
        let ghost addrs_before = self.addr_to_client@;
        self.addr_to_client.push((addr, client_id));
        proof {
            lemma_assoc_push(addrs_before, addr, client_id);
            assert forall|a: int, b: int|
                0 <= a < self.addr_to_client@.len() && 0 <= b < self.addr_to_client@.len() && a != b
                    implies self.addr_to_client@[a].0 != self.addr_to_client@[b].0 by {
                if a == addrs_before.len() {
                    assert(addrs_before[b].0 != addr);
                } else if b == addrs_before.len() {
                    assert(addrs_before[a].0 != addr);
                }
            }
        }
        self.insert_client(client_id, addr);
        Some(client_id)
    }

    fn insert_client(&mut self, client_id: u64, addr: PeerAddr)
        requires
            distinct_keys(old(self).client_to_addr@),
        ensures
            distinct_keys(final(self).client_to_addr@),
            final(self).clients() == old(self).clients().insert(client_id, addr),
            final(self).addr_to_client@ == old(self).addr_to_client@,
            final(self).disconnected_addrs@ == old(self).disconnected_addrs@,
            final(self).next_client_id == old(self).next_client_id,
    {
        match find_client(&self.client_to_addr, client_id) {
            Some(i) => {
                let ghost before = self.client_to_addr@;
                self.client_to_addr.set(i, (client_id, addr));
                proof {
                    assert(self.client_to_addr@ == before.update(i as int, (before[i as int].0, addr)));
                    lemma_assoc_update(before, i as int, addr);
                    assert forall|a: int, b: int|
                        0 <= a < self.client_to_addr@.len() && 0 <= b < self.client_to_addr@.len() && a != b
                            implies self.client_to_addr@[a].0 != self.client_to_addr@[b].0 by {
                        assert(before[a].0 != before[b].0);
                    }
                }
            },
            None => {
                let ghost before = self.client_to_addr@;
                self.client_to_addr.push((client_id, addr));
                proof {
                    lemma_assoc_push(before, client_id, addr);
                    assert forall|a: int, b: int|
                        0 <= a < self.client_to_addr@.len() && 0 <= b < self.client_to_addr@.len() && a != b
                            implies self.client_to_addr@[a].0 != self.client_to_addr@[b].0 by {
                        if a == before.len() {
                            assert(before[b].0 != client_id);
                        } else if b == before.len() {
                            assert(before[a].0 != client_id);
                        }
                    }
                }
            },
        }
    }

    /// A client has left: its id and address are forgotten, and its address is kept to be
    /// asked about once.
    pub fn client_disconnected(&mut self, client_id: u64)
        requires
            old(self).wf(),
        ensures
            final(self).wf(),
            final(self).spec_next_id() == old(self).spec_next_id(),
            !old(self).clients().dom().contains(client_id) ==> final(self).clients() == old(self).clients()
                && final(self).addresses() == old(self).addresses() && final(self).departed() == old(self).departed(),
            old(self).clients().dom().contains(client_id) ==> {
                let addr = old(self).clients()[client_id];
                &&& final(self).clients() == old(self).clients().remove(client_id)
                &&& final(self).addresses() == old(self).addresses().remove(addr)
                &&& final(self).departed() == old(self).departed().insert(client_id, addr)
            },
    {
        proof {
            lemma_assoc_dom(self.client_to_addr@, client_id);
        }
        let i = match find_client(&self.client_to_addr, client_id) {
            Some(i) => i,
            None => return,
        };
        proof {
            lemma_assoc_at(self.client_to_addr@, i as int);
        }
        let ghost clients_before = self.client_to_addr@;
        let (_, addr) = self.client_to_addr.remove(i);
        proof {
            lemma_assoc_remove(clients_before, i as int);
            lemma_remove_distinct(clients_before, i as int);
            assert(self.client_to_addr@ == clients_before.remove(i as int));
        }
        match find_addr(&self.addr_to_client, addr) {
            Some(j) => {
                let ghost before = self.addr_to_client@;
                self.addr_to_client.remove(j);
                proof {
                    lemma_assoc_remove(before, j as int);
                    lemma_remove_distinct(before, j as int);
                    assert(self.addr_to_client@ == before.remove(j as int));
                }
            },
            None => {
                proof {
                    lemma_assoc_dom(self.addr_to_client@, addr);
                    assert(old(self).addresses().remove(addr) =~= old(self).addresses());
                }
            },
        }
        match find_client(&self.disconnected_addrs, client_id) {
            Some(k) => {
                let ghost before = self.disconnected_addrs@;
                self.disconnected_addrs.set(k, (client_id, addr));
                proof {
                    assert(self.disconnected_addrs@ == before.update(k as int, (before[k as int].0, addr)));
                    lemma_assoc_update(before, k as int, addr);
                    assert forall|a: int, b: int|
                        0 <= a < self.disconnected_addrs@.len() && 0 <= b < self.disconnected_addrs@.len() && a != b
                            implies self.disconnected_addrs@[a].0 != self.disconnected_addrs@[b].0 by {
                        assert(before[a].0 != before[b].0);
                    }
                }
            },
            None => {
                let ghost before = self.disconnected_addrs@;
                self.disconnected_addrs.push((client_id, addr));
                proof {
                    lemma_assoc_push(before, client_id, addr);
                    assert forall|a: int, b: int|
                        0 <= a < self.disconnected_addrs@.len() && 0 <= b < self.disconnected_addrs@.len() && a != b
                            implies self.disconnected_addrs@[a].0 != self.disconnected_addrs@[b].0 by {
                        if a == before.len() {
                            assert(before[b].0 != client_id);
                        } else if b == before.len() {
                            assert(before[a].0 != client_id);
                        }
                    }
                }
            },
        }
    }

    /// The address of a client that left, handed out once.
    pub fn take_disconnected_addr(&mut self, client_id: u64) -> (r: Option<PeerAddr>)
        requires
            old(self).wf(),
        ensures
            final(self).wf(),
            final(self).clients() == old(self).clients(),
            final(self).addresses() == old(self).addresses(),
            final(self).spec_next_id() == old(self).spec_next_id(),
            final(self).departed() == old(self).departed().remove(client_id),
            r is Some <==> old(self).departed().dom().contains(client_id),
            r matches Some(a) ==> a == old(self).departed()[client_id],
    {
        proof {
            lemma_assoc_dom(self.disconnected_addrs@, client_id);
        }
        match find_client(&self.disconnected_addrs, client_id) {
            Some(k) => {
                proof {
                    lemma_assoc_at(self.disconnected_addrs@, k as int);
                }
                let ghost before = self.disconnected_addrs@;
                let (_, addr) = self.disconnected_addrs.remove(k);
                proof {
                    lemma_assoc_remove(before, k as int);
                    lemma_remove_distinct(before, k as int);
                    assert(self.disconnected_addrs@ == before.remove(k as int));
                }
                Some(addr)
            },
            None => {
                assert(old(self).departed().remove(client_id) =~= old(self).departed());
                None
            },
        }
    }
}

} // verus!
