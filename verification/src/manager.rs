//! The table of connections and of listening ports, and what the packet
//! pump does with it: an inbound datagram goes to its connection or opens
//! one on a listening port, and an idle tick goes to every connection.

use crate::available::Available;
use crate::error::NetError;
use crate::model::{ConnectionView, Outgoing, MAX_INBOUND_PAYLOAD};
use crate::quad::Quad;
use crate::socket::TcpListener;
use crate::tcp::{datagrams, lemma_wire_of_concat, wire_of, Connection};
use crate::wire::{parse_segment, segment_header, segment_payload, segment_valid};
use std::collections::HashMap;
use std::collections::VecDeque;
use vstd::prelude::*;
use vstd::slice::slice_subrange;
use vstd::std_specs::iter::IteratorSpec;

verus! {

broadcast use vstd::std_specs::hash::group_hash_axioms;

/// Whom the pump wakes after a datagram.
#[derive(Clone, Copy, Debug, PartialEq, Eq, Structural)]
pub enum Wake {
    /// Nobody.
    Nobody,
    /// The threads that wait in a read.
    Readers,
    /// The threads that wait in an accept.
    Acceptors,
}

/// The value of a connection manager: the connections by the key of their
/// quad, and for each listening port the quads that wait to be accepted,
/// oldest first.
pub struct ManagerView {
    pub terminate: bool,
    pub connections: Map<u128, ConnectionView>,
    pub pending: Map<u16, Seq<Quad>>,
}

/// A manager after a datagram, what was emitted, and whom to wake.
pub struct ManagerStep {
    pub next: ManagerView,
    pub emitted: Seq<Outgoing>,
    pub wake: Wake,
}

impl ManagerView {
    /// Every connection in the table is well formed.
    pub open spec fn wf(self) -> bool {
        forall|k: u128| #[trigger]
            self.connections.contains_key(k) ==> self.connections[k].wf()
    }

    /// Changes nothing, emits nothing, wakes nobody.
    pub open spec fn stay(self) -> ManagerStep {
        ManagerStep { next: self, emitted: Seq::empty(), wake: Wake::Nobody }
    }

    /// The datagram is taken up: it holds a TCP segment whose payload fits
    /// an IPv4 datagram.
    pub open spec fn takes(datagram: Seq<u8>) -> bool {
        segment_valid(datagram) && segment_payload(datagram).len() <= MAX_INBOUND_PAYLOAD
    }

    /// What an inbound datagram makes of the manager. A segment of a known
    /// quad goes to its connection, and readers are woken where that
    /// connection is then readable. A segment of an unknown quad to a
    /// listening port opens a connection where it carries SYN; the quad
    /// then waits at the port, and acceptors are woken. Anything else is
    /// dropped.
    pub open spec fn on_packet(self, datagram: Seq<u8>) -> ManagerStep {
        let seg = segment_header(datagram);
        let payload = segment_payload(datagram);
        let quad = Quad::spec_of_segment(seg);
        let key = quad.spec_key();
        if !Self::takes(datagram) {
            self.stay()
        } else if self.connections.contains_key(key) {
            let step = self.connections[key].on_packet(seg, payload);
            ManagerStep {
                next: ManagerView {
                    connections: self.connections.insert(key, step.next),
                    ..self
                },
                emitted: step.emitted,
                wake: if step.next.readable() {
                    Wake::Readers
                } else {
                    Wake::Nobody
                },
            }
        } else if self.pending.contains_key(seg.destination_port) {
            match ConnectionView::accept(seg, 0) {
                Some(step) => ManagerStep {
                    next: ManagerView {
                        connections: self.connections.insert(key, step.next),
                        pending: self.pending.insert(
                            seg.destination_port,
                            self.pending[seg.destination_port].push(quad),
                        ),
                        ..self
                    },
                    emitted: step.emitted,
                    wake: Wake::Acceptors,
                },
                None => self.stay(),
            }
        } else {
            self.stay()
        }
    }

    /// The manager after an idle tick: every connection has ticked.
    pub open spec fn on_tick(self) -> ManagerView {
        ManagerView {
            connections: self.connections.map_values(|c: ConnectionView| c.on_tick().next),
            ..self
        }
    }

    /// `order` names every connection of the table once.
    pub open spec fn visits(self, order: Seq<u128>) -> bool {
        order.no_duplicates() && order.to_set() == self.connections.dom()
    }

    /// What a tick emits where the connections tick in this order.
    pub open spec fn tick_emitted(self, order: Seq<u128>) -> Seq<Outgoing>
        decreases order.len(),
    {
        if order.len() == 0 {
            Seq::empty()
        } else {
            self.tick_emitted(order.drop_last()) + self.connections[order.last()].on_tick().emitted
        }
    }
}

/// The connections of all flows and the listening ports.
pub struct ConnectionManager {
    terminate: bool,
    connection: HashMap<u128, Connection>,
    pending: HashMap<u16, VecDeque<Quad>>,
}

impl View for ConnectionManager {
    type V = ManagerView;

    closed spec fn view(&self) -> ManagerView {
        ManagerView {
            terminate: self.terminate,
            connections: self.connection@.map_values(|c: Connection| c@),
            pending: self.pending@.map_values(|q: VecDeque<Quad>| q@),
        }
    }
}

impl Default for ConnectionManager {
    /// A manager without connections and without listening ports.
    fn default() -> (r: ConnectionManager)
        ensures
            r@ == (ManagerView {
                terminate: false,
                connections: Map::<u128, ConnectionView>::empty(),
                pending: Map::<u16, Seq<Quad>>::empty(),
            }),
            r@.wf(),
    {
        ConnectionManager::new()
    }
}

impl ConnectionManager {
    /// A manager without connections and without listening ports.
    pub fn new() -> (r: ConnectionManager)
        ensures
            r@ == (ManagerView {
                terminate: false,
                connections: Map::<u128, ConnectionView>::empty(),
                pending: Map::<u16, Seq<Quad>>::empty(),
            }),
            r@.wf(),
    {
        let r = ConnectionManager {
            terminate: false,
            connection: HashMap::new(),
            pending: HashMap::new(),
        };
        assert(r@.connections =~= Map::<u128, ConnectionView>::empty());
        assert(r@.pending =~= Map::<u16, Seq<Quad>>::empty());
        r
    }

    /// Takes the connection of a key out of the table.
    pub(crate) fn take(&mut self, key: u128) -> (r: Option<Connection>)
        ensures
            r is Some == old(self)@.connections.contains_key(key),
            r matches Some(c) ==> c@ == old(self)@.connections[key],
            final(self)@ == (ManagerView {
                connections: old(self)@.connections.remove(key),
                ..old(self)@
            }),
    {
        let r = self.connection.remove(&key);
        assert(self@.connections =~= old(self)@.connections.remove(key));
        r
    }

    /// Puts a connection into the table under a key.
    pub(crate) fn put(&mut self, key: u128, connection: Connection)
        ensures
            final(self)@ == (ManagerView {
                connections: old(self)@.connections.insert(key, connection@),
                ..old(self)@
            }),
    {
        self.connection.insert(key, connection);
        assert(self@.connections =~= old(self)@.connections.insert(key, connection@));
    }

    /// The connection of a quad, where the table holds one.
    pub fn get(&self, quad: &Quad) -> (r: Option<&Connection>)
        ensures
            r is Some == self@.connections.contains_key(quad.spec_key()),
            r matches Some(c) ==> c@ == self@.connections[quad.spec_key()],
    {
        let key = quad.key();
        self.connection.get(&key)
    }

    /// Takes the queue of a listening port out of the table.
    pub(crate) fn take_queue(&mut self, port: u16) -> (r: Option<VecDeque<Quad>>)
        ensures
            r is Some == old(self)@.pending.contains_key(port),
            r matches Some(q) ==> q@ == old(self)@.pending[port],
            final(self)@ == (ManagerView {
                pending: old(self)@.pending.remove(port),
                ..old(self)@
            }),
    {
        let r = self.pending.remove(&port);
        assert(self@.pending =~= old(self)@.pending.remove(port));
        r
    }

    /// Puts the queue of a listening port into the table.
    pub(crate) fn put_queue(&mut self, port: u16, queue: VecDeque<Quad>)
        ensures
            final(self)@ == (ManagerView {
                pending: old(self)@.pending.insert(port, queue@),
                ..old(self)@
            }),
    {
        self.pending.insert(port, queue);
        assert(self@.pending =~= old(self)@.pending.insert(port, queue@));
    }

    /// The keys of the table, each once.
    fn keys(&self) -> (keys: Vec<u128>)
        ensures
            self@.visits(keys@),
    {
        let mut keys: Vec<u128> = Vec::new();
        for k in iter: self.connection.keys()
            invariant
                keys@ == iter.seq().unref().take(iter.index() as int),
                iter.seq() == vstd::std_specs::hash::spec_keys_iter(&self.connection).remaining(),
        {
            keys.push(*k);
            assert(keys@ =~= iter.seq().unref().take(iter.index() + 1));
        }
        assert(keys@ =~= vstd::std_specs::hash::spec_keys_iter(
            &self.connection,
        ).remaining().unref());
        assert(self@.connections.dom() =~= self.connection@.dom());
        keys
    }

    /// Makes `port` a listening port. Fails where it is one already.
    pub fn bind(&mut self, port: u16) -> (r: Result<TcpListener, NetError>)
        ensures
            r is Ok == !old(self)@.pending.contains_key(port),
            r matches Ok(listener) ==> listener.port() == port && final(self)@ == (ManagerView {
                pending: old(self)@.pending.insert(port, Seq::empty()),
                ..old(self)@
            }),
            r matches Err(e) ==> e == NetError::AddrInUse && final(self)@ == old(self)@,
    {
        if self.pending.contains_key(&port) {
            return Err(NetError::AddrInUse);
        }
        self.put_queue(port, VecDeque::new());
        Ok(TcpListener::new(port))
    }

    /// Asks the pump to stop.
    pub fn terminate(&mut self)
        ensures
            final(self)@ == (ManagerView { terminate: true, ..old(self)@ }),
    {
        self.terminate = true;
    }

    /// Whether the pump was asked to stop.
    pub fn is_terminated(&self) -> (r: bool)
        ensures
            r == self@.terminate,
    {
        self.terminate
    }

    /// Takes one inbound datagram. What is emitted goes into `out`.
    /// Returns whom to wake.
    pub fn on_packet(&mut self, datagram: &[u8], out: &mut Vec<Vec<u8>>) -> (wake: Wake)
        requires
            old(self)@.wf(),
        ensures
            final(self)@ == old(self)@.on_packet(datagram@).next,
            datagrams(*final(out)) == datagrams(*old(out)) + wire_of(
                old(self)@.on_packet(datagram@).emitted,
            ),
            wake == old(self)@.on_packet(datagram@).wake,
            final(self)@.wf(),
    {
        proof {
            lemma_wire_of_concat(Seq::empty(), Seq::empty());
        }
        assert(datagrams(*out) + Seq::<Seq<u8>>::empty() =~= datagrams(*out));
        let parsed = match parse_segment(datagram) {
            Some(parsed) => parsed,
            None => {
                return Wake::Nobody;
            },
        };
        let payload = slice_subrange(datagram, parsed.payload_offset, datagram.len());
        assert(payload@ == segment_payload(datagram@));
        if payload.len() > MAX_INBOUND_PAYLOAD {
            return Wake::Nobody;
        }
        let quad = Quad::of_segment(&parsed.header);
        let key = quad.key();
        let port = parsed.header.destination_port;
        match self.take(key) {
            Some(mut connection) => {
                let available = connection.on_packet(&parsed.header, payload, out);
                self.put(key, connection);
                assert(self@.connections =~= old(self)@.connections.insert(key, connection@));
                if available.contains(Available::read()) {
                    Wake::Readers
                } else {
                    Wake::Nobody
                }
            },
            None => {
                assert(self@.connections =~= old(self)@.connections);
                match self.take_queue(port) {
                    Some(mut queue) => {
                        match Connection::accept(&parsed.header, out) {
                            Some(connection) => {
                                self.put(key, connection);
                                queue.push_back(quad);
                                self.put_queue(port, queue);
                                assert(self@.pending =~= old(self)@.pending.insert(
                                    port,
                                    old(self)@.pending[port].push(quad),
                                ));
                                Wake::Acceptors
                            },
                            None => {
                                self.put_queue(port, queue);
                                assert(self@.pending =~= old(self)@.pending);
                                Wake::Nobody
                            },
                        }
                    },
                    None => {
                        assert(self@.pending =~= old(self)@.pending);
                        Wake::Nobody
                    },
                }
            },
        }
    }

    /// The idle tick: every connection ticks once, in the order in which
    /// the table hands out its keys. What is emitted goes into `out`.
    pub fn on_tick(&mut self, out: &mut Vec<Vec<u8>>)
        requires
            old(self)@.wf(),
        ensures
            final(self)@ == old(self)@.on_tick(),
            final(self)@.wf(),
            exists|order: Seq<u128>|
                old(self)@.visits(order) && datagrams(*final(out)) == datagrams(*old(out))
                    + wire_of(#[trigger] old(self)@.tick_emitted(order)),
    {
        let keys = self.keys();
        let ghost before = self@;
        let mut i: usize = 0;
        proof {
            lemma_wire_of_concat(Seq::empty(), Seq::empty());
            assert(datagrams(*out) + Seq::<Seq<u8>>::empty() =~= datagrams(*out));
            assert(keys@.take(0).len() == 0);
        }
        while i < keys.len()
            invariant
                i <= keys@.len(),
                before == old(self)@,
                before.wf(),
                before.visits(keys@),
                self@.terminate == before.terminate,
                self@.pending == before.pending,
                self@.connections.dom() == before.connections.dom(),
                forall|j: int|
                    0 <= j < i ==> self@.connections[#[trigger] keys@[j]]
                        == before.connections[keys@[j]].on_tick().next,
                forall|j: int|
                    i <= j < keys@.len() ==> self@.connections[#[trigger] keys@[j]]
                        == before.connections[keys@[j]],
                datagrams(*out) == datagrams(*old(out)) + wire_of(
                    before.tick_emitted(keys@.take(i as int)),
                ),
            decreases keys@.len() - i,
        {
            let key = keys[i];
            let ghost mid = self@;
            assert(keys@.to_set().contains(keys@[i as int]));
            assert(before.connections.contains_key(key));
            match self.take(key) {
                Some(mut connection) => {
                    connection.on_tick(out);
                    self.put(key, connection);
                },
                None => {},
            }
            proof {
                let step = before.connections[key].on_tick();
                assert(self@.connections =~= mid.connections.insert(key, step.next));
                assert(keys@.take(i + 1).drop_last() =~= keys@.take(i as int));
                assert(keys@.take(i + 1).last() == key);
                lemma_wire_of_concat(before.tick_emitted(keys@.take(i as int)), step.emitted);
                assert(datagrams(*out) =~= datagrams(*old(out)) + (wire_of(
                    before.tick_emitted(keys@.take(i as int)),
                ) + wire_of(step.emitted)));
            }
            i += 1;
        }
        proof {
            assert(keys@.take(i as int) =~= keys@);
            assert forall|k: u128| #[trigger] self@.connections.contains_key(k) implies self@.connections[k]
                == before.connections[k].on_tick().next && self@.connections[k].wf() by {
                assert(keys@.to_set().contains(k));
                let j = choose|j: int| 0 <= j < keys@.len() && keys@[j] == k;
                assert(keys@[j] == k);
                crate::laws::law_well_formed_kept(before.connections[k], crate::model::Event::Tick);
            }
            assert(self@.connections =~= before.on_tick().connections);
        }
    }
}

} // verus!
