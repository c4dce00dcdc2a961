//! The handles that the application holds: a listener for a port and a
//! stream for a connection. Neither owns a connection; every operation
//! works on the manager that it is given, and none waits: where the caller
//! has to wait for the pump, the operation says so.

use crate::error::NetError;
use crate::manager::{ConnectionManager, ManagerView};
use crate::quad::Quad;
use vstd::prelude::*;

verus! {

/// A listening port.
pub struct TcpListener {
    port: u16,
}

/// One accepted connection.
pub struct TcpStream {
    quad: Quad,
}

impl TcpListener {
    /// The port that is listened on.
    pub closed spec fn port(self) -> u16 {
        self.port
    }

    pub(crate) fn new(port: u16) -> (r: TcpListener)
        ensures
            r.port() == port,
    {
        TcpListener { port }
    }

    /// The port that is listened on.
    pub fn local_port(&self) -> (r: u16)
        ensures
            r == self.port(),
    {
        self.port
    }

    /// A connection waits to be accepted at the port.
    pub open spec fn ready(self, m: ManagerView) -> bool {
        m.pending.contains_key(self.port()) && m.pending[self.port()].len() > 0
    }

    /// Hands out the connection that has waited longest at the port.
    /// `None` where none waits: the caller then waits for the pump.
    pub fn accept(&mut self, cm: &mut ConnectionManager) -> (r: Option<TcpStream>)
        ensures
            r is Some == old(self).ready(old(cm)@),
            r matches Some(stream) ==> stream.quad() == old(cm)@.pending[old(self).port()][0]
                && final(cm)@ == (ManagerView {
                pending: old(cm)@.pending.insert(
                    old(self).port(),
                    old(cm)@.pending[old(self).port()].skip(1),
                ),
                ..old(cm)@
            }),
            r is None ==> final(cm)@ == old(cm)@,
            final(self).port() == old(self).port(),
    {
        match cm.take_queue(self.port) {
            Some(mut queue) => {
                let first = queue.pop_front();
                assert(queue@ =~= old(cm)@.pending[self.port].skip(
                    if first is Some {
                        1int
                    } else {
                        0int
                    },
                ));
                cm.put_queue(self.port, queue);
                assert(first is None ==> cm@.pending =~= old(cm)@.pending);
                assert(first is Some ==> cm@.pending =~= old(cm)@.pending.insert(
                    self.port,
                    old(cm)@.pending[self.port].skip(1),
                ));
                match first {
                    Some(quad) => Some(TcpStream { quad }),
                    None => None,
                }
            },
            None => {
                assert(cm@.pending =~= old(cm)@.pending);
                None
            },
        }
    }

    /// Ends the listening: the port and the quads that wait at it leave
    /// the table. Their connections stay.
    pub fn release(self, cm: &mut ConnectionManager)
        ensures
            final(cm)@ == (ManagerView {
                pending: old(cm)@.pending.remove(self.port()),
                ..old(cm)@
            }),
    {
        let _ = cm.take_queue(self.port);
    }
}

impl TcpStream {
    /// The quad of the connection.
    pub closed spec fn quad(self) -> Quad {
        self.quad
    }

    /// The quad of the connection.
    pub fn flow(&self) -> (r: Quad)
        ensures
            r == self.quad(),
    {
        self.quad
    }

    /// The key of the connection in the table.
    pub open spec fn key(self) -> u128 {
        self.quad().spec_key()
    }

    /// The table holds the connection of the stream.
    pub open spec fn connected(self, m: ManagerView) -> bool {
        m.connections.contains_key(self.key())
    }

    /// Reads into the front of `buf`. Returns the number of bytes read, 0
    /// at the end of the stream, and `None` where nothing has arrived yet:
    /// the caller then waits for the pump. Fails where the table holds no
    /// connection for the stream.
    pub fn read(&mut self, cm: &mut ConnectionManager, buf: &mut [u8]) -> (r: Result<
        Option<usize>,
        NetError,
    >)
        requires
            old(cm)@.wf(),
        ensures
            final(cm)@.wf(),
            final(self).quad() == old(self).quad(),
            r is Ok == old(self).connected(old(cm)@),
            r matches Err(e) ==> e == NetError::ConnectionAborted && final(cm)@ == old(cm)@
                && final(buf)@ == old(buf)@,
            r matches Ok(n) ==> {
                let c = old(cm)@.connections[old(self).key()];
                let given = c.gives(old(buf)@.len());
                &&& n is Some == c.readable()
                &&& n matches Some(count) ==> count == given
                &&& final(buf)@ == c.incoming.take(given as int) + old(buf)@.skip(given as int)
                &&& final(cm)@ == (ManagerView {
                    connections: old(cm)@.connections.insert(
                        old(self).key(),
                        c.dequeue(old(buf)@.len()),
                    ),
                    ..old(cm)@
                })
            },
    {
        let key = self.quad.key();
        match cm.take(key) {
            Some(mut connection) => {
                let n = connection.dequeue(buf);
                cm.put(key, connection);
                assert(cm@.connections =~= old(cm)@.connections.insert(key, connection@));
                Ok(n)
            },
            None => {
                assert(cm@.connections =~= old(cm)@.connections);
                Err(NetError::ConnectionAborted)
            },
        }
    }

    /// Writes as much of `buf` as the send queue has room for, and returns
    /// the number of bytes taken. Fails where the table holds no connection
    /// for the stream, and where the send queue is full.
    pub fn write(&mut self, cm: &mut ConnectionManager, buf: &[u8]) -> (r: Result<usize, NetError>)
        requires
            old(cm)@.wf(),
        ensures
            final(cm)@.wf(),
            final(self).quad() == old(self).quad(),
            !old(self).connected(old(cm)@) ==> r == Err::<usize, NetError>(NetError::ConnectionAborted)
                && final(cm)@ == old(cm)@,
            old(self).connected(old(cm)@) ==> {
                let c = old(cm)@.connections[old(self).key()];
                &&& r == if c.unacked.len() < crate::model::SENDQUEUE_SIZE {
                    Ok::<usize, NetError>(c.takes(buf@) as usize)
                } else {
                    Err::<usize, NetError>(NetError::WouldBlock)
                }
                &&& final(cm)@ == (ManagerView {
                    connections: old(cm)@.connections.insert(old(self).key(), c.queue(buf@)),
                    ..old(cm)@
                })
            },
    {
        let key = self.quad.key();
        match cm.take(key) {
            Some(mut connection) => {
                let r = connection.queue(buf);
                cm.put(key, connection);
                assert(cm@.connections =~= old(cm)@.connections.insert(key, connection@));
                r
            },
            None => {
                assert(cm@.connections =~= old(cm)@.connections);
                Err(NetError::ConnectionAborted)
            },
        }
    }

    /// Succeeds where nothing waits to be acknowledged. Waiting for the
    /// acknowledgments is left to the caller: the operation is offered only
    /// where the send queue is empty.
    pub fn flush(&mut self, cm: &ConnectionManager) -> (r: Result<(), NetError>)
        requires
            old(self).connected(cm@) ==> cm@.connections[old(self).key()].unacked.len() == 0,
        ensures
            final(self).quad() == old(self).quad(),
            r is Ok == old(self).connected(cm@),
            r matches Err(e) ==> e == NetError::ConnectionAborted,
    {
        match cm.get(&self.quad) {
            Some(_) => Ok(()),
            None => Err(NetError::ConnectionAborted),
        }
    }

    /// Asks to close the sending side. Fails where the table holds no
    /// connection for the stream, and where the connection is already
    /// closing or closed for both sides.
    pub fn shutdown(&self, cm: &mut ConnectionManager) -> (r: Result<(), NetError>)
        requires
            old(cm)@.wf(),
        ensures
            final(cm)@.wf(),
            !self.connected(old(cm)@) ==> r == Err::<(), NetError>(NetError::ConnectionAborted)
                && final(cm)@ == old(cm)@,
            self.connected(old(cm)@) ==> {
                let c = old(cm)@.connections[self.key()];
                &&& r is Ok == c.can_close()
                &&& r matches Err(e) ==> e == NetError::NotConnected
                &&& final(cm)@ == (ManagerView {
                    connections: old(cm)@.connections.insert(self.key(), c.close()),
                    ..old(cm)@
                })
            },
    {
        let key = self.quad.key();
        match cm.take(key) {
            Some(mut connection) => {
                let r = connection.close();
                cm.put(key, connection);
                assert(cm@.connections =~= old(cm)@.connections.insert(key, connection@));
                r
            },
            None => {
                assert(cm@.connections =~= old(cm)@.connections);
                Err(NetError::ConnectionAborted)
            },
        }
    }

    /// Gives the stream up. The connection leaves the table where the
    /// stream has ended for the reader; else it stays.
    pub fn release(self, cm: &mut ConnectionManager)
        requires
            old(cm)@.wf(),
        ensures
            final(cm)@.wf(),
            final(cm)@ == if self.connected(old(cm)@) && old(cm)@.connections[self.key()].is_rcv_closed() {
                ManagerView {
                    connections: old(cm)@.connections.remove(self.key()),
                    ..old(cm)@
                }
            } else {
                old(cm)@
            },
    {
        let key = self.quad.key();
        match cm.take(key) {
            Some(connection) => {
                if !connection.is_rcv_closed() {
                    cm.put(key, connection);
                    assert(cm@.connections =~= old(cm)@.connections);
                }
            },
            None => {
                assert(cm@.connections =~= old(cm)@.connections);
            },
        }
    }
}

} // verus!
