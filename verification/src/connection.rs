//! Reads and writes on a session as a byte stream polls them.

use crate::error::{Error, IoError, KcpError};
use crate::session::{bytes_read, data_sent, read_size, send_result, Session, SessionView};
use vstd::prelude::*;

verus! {

/// What a poll on a stream comes to.
#[derive(Debug, Clone, Copy, PartialEq, Eq, Structural)]
pub enum Polled {
    /// Done, with this many bytes.
    Ready(usize),
    /// Nothing can be done now: the caller is to be woken when the session changes.
    Pending,
    Failed(IoError),
}

/// What polling a session for `room` bytes comes to.
pub open spec fn read_poll(session: SessionView, room: nat) -> Polled {
    if session.closed {
        Polled::Failed(IoError::SessionClosed)
    } else {
        match session.readable() {
            Ok(bytes) => Polled::Ready(read_size(bytes, room) as usize),
            Err(err) => if err == KcpError::RecvQueueEmpty {
                Polled::Pending
            } else {
                Polled::Failed(IoError::Kcp(err))
            },
        }
    }
}

/// What polling a session to write comes to: a message that cannot be queued now is tried again.
pub open spec fn write_poll(session: SessionView, data: Seq<u8>) -> Polled {
    match send_result(session, data) {
        Ok(()) => Polled::Ready(data.len() as usize),
        Err(err) => if err == Error::SessionClosed {
            Polled::Failed(IoError::SessionClosed)
        } else {
            Polled::Pending
        },
    }
}

/// Read from a session into the front of a buffer.
pub fn poll_read(session: &mut Session, buf: &mut [u8]) -> (polled: Polled)
    requires
        old(session)@.wf(),
    ensures
        final(session)@.wf(),
        polled == read_poll(old(session)@, old(buf)@.len()),
        match polled {
            Polled::Ready(n) => {
                let bytes = old(session)@.readable()->Ok_0;
                &&& final(buf)@ == bytes.take(n as int) + old(buf)@.skip(n as int)
                &&& bytes_read(old(session)@, old(buf)@.len(), final(session)@)
            },
            _ => final(buf)@ == old(buf)@ && final(session)@ == old(session)@,
        },
{
    if session.closed {
        return Polled::Failed(IoError::SessionClosed);
    }
    match session.recv_into(buf) {
        Ok(n) => Polled::Ready(n),
        Err(Error::Kcp(err)) => {
            if err == KcpError::RecvQueueEmpty {
                Polled::Pending
            } else {
                Polled::Failed(IoError::Kcp(err))
            }
        },
        Err(_) => Polled::Pending,
    }
}

/// Write a buffer to a session as one message.
pub fn poll_write(session: &mut Session, buf: &[u8]) -> (polled: Polled)
    requires
        old(session)@.wf(),
    ensures
        final(session)@.wf(),
        polled == write_poll(old(session)@, buf@),
        data_sent(old(session)@, buf@, final(session)@),
{
    match session.send_data(buf) {
        Ok(()) => Polled::Ready(buf.len()),
        Err(err) => {
            if err == Error::SessionClosed {
                Polled::Failed(IoError::SessionClosed)
            } else {
                Polled::Pending
            }
        },
    }
}

/// Handle wrapping a peer session for use as a byte stream.
pub struct KcpConnection {
    pub session: Session,
}

impl KcpConnection {
    /// Wrap a session.
    pub fn new(session: Session) -> (connection: Self)
        ensures
            connection.session == session,
    {
        KcpConnection { session }
    }

    /// Unwrap and get back the session.
    pub fn into_inner(self) -> (session: Session)
        ensures
            session == self.session,
    {
        self.session
    }

    /// Read into the front of a buffer.
    pub fn poll_read(&mut self, buf: &mut [u8]) -> (polled: Polled)
        requires
            old(self).session@.wf(),
        ensures
            final(self).session@.wf(),
            polled == read_poll(old(self).session@, old(buf)@.len()),
            match polled {
                Polled::Ready(n) => {
                    let bytes = old(self).session@.readable()->Ok_0;
                    &&& final(buf)@ == bytes.take(n as int) + old(buf)@.skip(n as int)
                    &&& bytes_read(old(self).session@, old(buf)@.len(), final(self).session@)
                },
                _ => final(buf)@ == old(buf)@ && final(self).session@ == old(self).session@,
            },
    {
        poll_read(&mut self.session, buf)
    }

    /// Write a buffer as one message.
    pub fn poll_write(&mut self, buf: &[u8]) -> (polled: Polled)
        requires
            old(self).session@.wf(),
        ensures
            final(self).session@.wf(),
            polled == write_poll(old(self).session@, buf@),
            data_sent(old(self).session@, buf@, final(self).session@),
    {
        poll_write(&mut self.session, buf)
    }

    /// Flushing is left to the update timer: there is nothing to do and nothing to wait for.
    pub fn poll_flush(&mut self) -> (polled: Polled)
        ensures
            polled == Polled::Ready(0),
            *final(self) == *old(self),
    {
        Polled::Ready(0)
    }

    /// Close the session.
    pub fn poll_shutdown(&mut self) -> (polled: Polled)
        ensures
            polled == Polled::Ready(0),
            final(self).session@ == (SessionView { closed: true, ..old(self).session@ }),
    {
        self.session.mark_closed();
        Polled::Ready(0)
    }
}

} // verus!
