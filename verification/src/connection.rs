//! Session (connection) state machine.
//!
//! A connection walks Init → Pending → Authenticated → Closed and never
//! leaves Closed. Authenticated is reached only by completing the
//! handshake: a hello sent from Init, answered by a hello reply in
//! Pending. The session id is assigned once and never changes. Time is
//! supplied by the caller; exceeding the handshake or idle deadline
//! closes the connection.

use vstd::prelude::*;
use crate::frame::{Frame, FrameHeader, Opcode};

verus! {

/// The four session states.
#[derive(Clone, Copy, Debug, PartialEq, Eq, Structural)]
pub enum ConnectionState {
    /// Nothing sent yet.
    Init,
    /// Hello sent, waiting for the reply.
    Pending,
    /// Handshake complete; data frames flow.
    Authenticated,
    /// Terminal.
    Closed,
}

/// Session timeouts in milliseconds.
#[derive(Clone, Copy, Debug, PartialEq, Eq, Structural)]
pub struct ConnectionConfig {
    /// Longest wait in Pending before the connection closes.
    pub handshake_timeout_ms: u64,
    /// Longest silence in Authenticated before the connection closes.
    pub idle_timeout_ms: u64,
    /// Silence after which a ping is sent proactively.
    pub heartbeat_interval_ms: u64,
}

/// Actions the session asks the driver to take.
pub enum ConnectionAction {
    /// Write this frame to the transport.
    SendFrame(Frame),
    /// Close the transport.
    Close { reason: String },
}

/// Session errors.
#[derive(Clone, Copy, Debug, PartialEq, Eq, Structural)]
pub enum ConnectionError {
    /// The connection is closed; nothing more can happen on it.
    Closed,
    /// The frame's opcode is not valid in the current state.
    UnexpectedOpcode,
}

/// One connection's session state.
pub struct Connection {
    state: ConnectionState,
    session_id: Option<u64>,
    config: ConnectionConfig,
    last_activity: u64,
}

impl Connection {
    /// No session id exists before the handshake completes.
    pub closed spec fn wf(self) -> bool {
        (self.state == ConnectionState::Init || self.state == ConnectionState::Pending)
            ==> self.session_id is None
    }

    pub closed spec fn spec_state(self) -> ConnectionState {
        self.state
    }

    pub closed spec fn spec_session_id(self) -> Option<u64> {
        self.session_id
    }

    /// Time of the last activity this connection saw.
    pub closed spec fn spec_last_activity(self) -> u64 {
        self.last_activity
    }

    /// The timeouts this connection runs under.
    pub closed spec fn spec_config(self) -> ConnectionConfig {
        self.config
    }

    /// A new connection starts in Init with no session id.
    pub fn new(now: u64, config: ConnectionConfig) -> (r: Connection)
        ensures
            r.wf(),
            r.spec_state() == ConnectionState::Init,
            r.spec_session_id() is None,
            r.spec_last_activity() == now,
            r.spec_config() == config,
    {
        Connection { state: ConnectionState::Init, session_id: None, config, last_activity: now }
    }

    pub fn state(&self) -> (r: ConnectionState)
        ensures
            r == self.spec_state(),
    {
        self.state
    }

    pub fn session_id(&self) -> (r: Option<u64>)
        ensures
            r == self.spec_session_id(),
    {
        self.session_id
    }

    /// Starts the handshake: allowed exactly once, from Init.
    pub fn send_hello(&mut self, now: u64) -> (r: Result<ConnectionAction, ConnectionError>)
        requires
            old(self).wf(),
        ensures
            final(self).wf(),
            final(self).spec_session_id() == old(self).spec_session_id(),
            old(self).spec_state() == ConnectionState::Closed ==> final(self).spec_state()
                == ConnectionState::Closed,
            match r {
                Ok(action) => {
                    &&& old(self).spec_state() == ConnectionState::Init
                    &&& final(self).spec_state() == ConnectionState::Pending
                    &&& action is SendFrame
                },
                Err(_) => {
                    &&& old(self).spec_state() != ConnectionState::Init
                    &&& final(self).spec_state() == old(self).spec_state()
                },
            },
    {
        match self.state {
            ConnectionState::Init => {
                self.state = ConnectionState::Pending;
                self.last_activity = now;
                let header = FrameHeader::new(Opcode::Hello);
                let frame = Frame::new(header, Vec::new());
                Ok(ConnectionAction::SendFrame(frame))
            },
            ConnectionState::Closed => Err(ConnectionError::Closed),
            _ => Err(ConnectionError::UnexpectedOpcode),
        }
    }

    /// Consumes one inbound frame. Closed is terminal; Authenticated is
    /// entered only from Pending on a hello reply, which also fixes the
    /// session id once and for all; unknown opcodes are rejected without
    /// a panic and close a half-open connection.
    pub fn handle_frame(&mut self, frame: &Frame, now: u64) -> (r: Result<
        Vec<ConnectionAction>,
        ConnectionError,
    >)
        requires
            old(self).wf(),
        ensures
            final(self).wf(),
            // the session id is immutable once assigned
            old(self).spec_session_id() is Some ==> final(self).spec_session_id() == old(
                self,
            ).spec_session_id(),
            // Closed is terminal
            old(self).spec_state() == ConnectionState::Closed ==> final(self).spec_state()
                == ConnectionState::Closed,
            // Authenticated is reached only from Pending on a hello reply
            (final(self).spec_state() == ConnectionState::Authenticated && old(self).spec_state()
                != ConnectionState::Authenticated) ==> (old(self).spec_state()
                == ConnectionState::Pending && Opcode::spec_from_u16(frame.header.opcode) == Some(
                Opcode::HelloReply,
            ) && final(self).spec_session_id() == Some(frame.header.context_id)),
            // no transition invents a session id outside the handshake
            final(self).spec_session_id() != old(self).spec_session_id() ==> (old(
                self,
            ).spec_state() == ConnectionState::Pending && final(self).spec_state()
                == ConnectionState::Authenticated),
            match r {
                Ok(_) => true,
                Err(_) => final(self).spec_state() == old(self).spec_state() || final(self).spec_state() == ConnectionState::Closed,
            },
            // the handshake completes: a hello reply in Pending authenticates
            (old(self).spec_state() == ConnectionState::Pending && Opcode::spec_from_u16(
                frame.header.opcode,
            ) == Some(Opcode::HelloReply)) ==> r is Ok && final(self).spec_state()
                == ConnectionState::Authenticated && final(self).spec_session_id() == Some(
                frame.header.context_id,
            ),
            // a ping while authenticated is owed a pong
            (old(self).spec_state() == ConnectionState::Authenticated && Opcode::spec_from_u16(
                frame.header.opcode,
            ) == Some(Opcode::Ping)) ==> (r matches Ok(actions) && actions@.len() == 1 && (
            actions@[0] matches ConnectionAction::SendFrame(f) && f.header.opcode
                == Opcode::Pong.spec_to_u16())),
            // a goodbye while authenticated closes cleanly
            (old(self).spec_state() == ConnectionState::Authenticated && Opcode::spec_from_u16(
                frame.header.opcode,
            ) == Some(Opcode::Goodbye)) ==> r is Ok && final(self).spec_state()
                == ConnectionState::Closed,
    {
        let opcode = Opcode::from_u16(frame.header.opcode());
        match self.state {
            ConnectionState::Closed => Err(ConnectionError::Closed),
            ConnectionState::Init => {
                // nothing may arrive before the hello is sent
                self.state = ConnectionState::Closed;
                Err(ConnectionError::UnexpectedOpcode)
            },
            ConnectionState::Pending => {
                match opcode {
                    Some(Opcode::HelloReply) => {
                        self.state = ConnectionState::Authenticated;
                        self.session_id = Some(frame.header.context_id());
                        self.last_activity = now;
                        Ok(Vec::new())
                    },
                    _ => {
                        self.state = ConnectionState::Closed;
                        Err(ConnectionError::UnexpectedOpcode)
                    },
                }
            },
            ConnectionState::Authenticated => {
                self.last_activity = now;
                match opcode {
                    Some(Opcode::Ping) => {
                        let header = FrameHeader::new(Opcode::Pong);
                        let pong = Frame::new(header, Vec::new());
                        let mut actions: Vec<ConnectionAction> = Vec::new();
                        actions.push(ConnectionAction::SendFrame(pong));
                        Ok(actions)
                    },
                    Some(Opcode::Pong) => Ok(Vec::new()),
                    Some(Opcode::Goodbye) => {
                        self.state = ConnectionState::Closed;
                        Ok(Vec::new())
                    },
                    Some(Opcode::Hello) | Some(Opcode::HelloReply) => {
                        // a second handshake is a protocol violation
                        Err(ConnectionError::UnexpectedOpcode)
                    },
                    Some(_) => Ok(Vec::new()),
                    None => Err(ConnectionError::UnexpectedOpcode),
                }
            },
        }
    }

    /// Advances time: a handshake or idle deadline that has passed closes
    /// the connection; long silence while authenticated sends a ping.
    pub fn tick(&mut self, now: u64) -> (r: Vec<ConnectionAction>)
        requires
            old(self).wf(),
        ensures
            final(self).wf(),
            final(self).spec_session_id() == old(self).spec_session_id(),
            old(self).spec_state() == ConnectionState::Closed ==> final(self).spec_state()
                == ConnectionState::Closed,
            final(self).spec_state() == old(self).spec_state() || final(self).spec_state()
                == ConnectionState::Closed,
            (exists|i: int| 0 <= i < r@.len() && (#[trigger] r@[i]) is Close) ==> final(self).spec_state() == ConnectionState::Closed,
            // a passed handshake deadline closes the connection
            (old(self).spec_state() == ConnectionState::Pending && now >= old(
                self,
            ).spec_last_activity() && now - old(self).spec_last_activity() >= old(
                self,
            ).spec_config().handshake_timeout_ms) ==> final(self).spec_state()
                == ConnectionState::Closed && r@.len() == 1 && r@[0] is Close,
            // a passed idle deadline closes the connection
            (old(self).spec_state() == ConnectionState::Authenticated && now >= old(
                self,
            ).spec_last_activity() && now - old(self).spec_last_activity() >= old(
                self,
            ).spec_config().idle_timeout_ms) ==> final(self).spec_state()
                == ConnectionState::Closed && r@.len() == 1 && r@[0] is Close,
    {
        let mut actions: Vec<ConnectionAction> = Vec::new();
        let elapsed = if now >= self.last_activity {
            now - self.last_activity
        } else {
            0
        };
        match self.state {
            ConnectionState::Pending => {
                if elapsed >= self.config.handshake_timeout_ms {
                    self.state = ConnectionState::Closed;
                    actions.push(
                        ConnectionAction::Close {
                            reason: String::from_str("handshake timeout"),
                        },
                    );
                }
            },
            ConnectionState::Authenticated => {
                if elapsed >= self.config.idle_timeout_ms {
                    self.state = ConnectionState::Closed;
                    actions.push(
                        ConnectionAction::Close { reason: String::from_str("idle timeout") },
                    );
                } else if elapsed >= self.config.heartbeat_interval_ms {
                    let header = FrameHeader::new(Opcode::Ping);
                    let ping = Frame::new(header, Vec::new());
                    actions.push(ConnectionAction::SendFrame(ping));
                }
            },
            _ => {},
        }
        proof {
            assert forall|i: int|
                0 <= i < actions@.len() && (#[trigger] actions@[i]) is Close implies self.state
                == ConnectionState::Closed by {}
        }
        actions
    }

    /// Whether a deadline has passed at the given time.
    pub fn check_timeout(&self, now: u64) -> (r: bool)
        ensures
            r ==> self.spec_state() == ConnectionState::Pending || self.spec_state()
                == ConnectionState::Authenticated,
    {
        let elapsed = if now >= self.last_activity {
            now - self.last_activity
        } else {
            0
        };
        match self.state {
            ConnectionState::Pending => elapsed >= self.config.handshake_timeout_ms,
            ConnectionState::Authenticated => elapsed >= self.config.idle_timeout_ms,
            _ => false,
        }
    }

    /// Closes the connection; terminal.
    pub fn close(&mut self)
        ensures
            final(self).wf(),
            final(self).spec_state() == ConnectionState::Closed,
            final(self).spec_session_id() == old(self).spec_session_id(),
    {
        self.state = ConnectionState::Closed;
    }
}


/// The server's half of a session: it waits for the peer's hello,
/// assigns the session id it was created with, answers with a hello
/// reply, and then serves data frames. Closed is terminal here too, and
/// the session id never changes once assigned.
pub struct ServerConnection {
    state: ConnectionState,
    session_id: Option<u64>,
    config: ConnectionConfig,
    last_activity: u64,
    assigned_id: u64,
}

impl ServerConnection {
    /// The server half never waits in Pending: it authenticates straight
    /// from Init on the hello. No session id exists before that; after
    /// it, exactly the assigned one.
    pub closed spec fn wf(self) -> bool {
        &&& self.state != ConnectionState::Pending
        &&& self.state == ConnectionState::Init ==> self.session_id is None
        &&& self.session_id matches Some(sid) ==> sid == self.assigned_id
    }

    pub closed spec fn spec_state(self) -> ConnectionState {
        self.state
    }

    pub closed spec fn spec_session_id(self) -> Option<u64> {
        self.session_id
    }

    pub closed spec fn spec_assigned_id(self) -> u64 {
        self.assigned_id
    }

    pub closed spec fn spec_last_activity(self) -> u64 {
        self.last_activity
    }

    pub closed spec fn spec_config(self) -> ConnectionConfig {
        self.config
    }

    /// A fresh server session awaiting the peer's hello; the id it will
    /// assign is fixed up front by the driver.
    pub fn new(now: u64, config: ConnectionConfig, session_id: u64) -> (r: ServerConnection)
        ensures
            r.wf(),
            r.spec_state() == ConnectionState::Init,
            r.spec_session_id() is None,
            r.spec_assigned_id() == session_id,
            r.spec_last_activity() == now,
            r.spec_config() == config,
    {
        ServerConnection {
            state: ConnectionState::Init,
            session_id: None,
            config,
            last_activity: now,
            assigned_id: session_id,
        }
    }

    pub fn state(&self) -> (r: ConnectionState)
        ensures
            r == self.spec_state(),
    {
        self.state
    }

    pub fn session_id(&self) -> (r: Option<u64>)
        ensures
            r == self.spec_session_id(),
    {
        self.session_id
    }

    /// Consumes one inbound frame. A hello while waiting authenticates
    /// the session, fixes its id and answers with a hello reply carrying
    /// it; any other first frame closes the connection; afterwards pings
    /// are answered, goodbyes close, and repeated handshakes are
    /// rejected without a panic.
    pub fn handle_frame(&mut self, frame: &Frame, now: u64) -> (r: Result<
        Vec<ConnectionAction>,
        ConnectionError,
    >)
        requires
            old(self).wf(),
        ensures
            final(self).wf(),
            final(self).spec_assigned_id() == old(self).spec_assigned_id(),
            // the session id is immutable once assigned
            old(self).spec_session_id() is Some ==> final(self).spec_session_id() == old(
                self,
            ).spec_session_id(),
            // Closed is terminal
            old(self).spec_state() == ConnectionState::Closed ==> final(self).spec_state()
                == ConnectionState::Closed,
            // Authenticated is reached only from Init on a hello
            (final(self).spec_state() == ConnectionState::Authenticated && old(self).spec_state()
                != ConnectionState::Authenticated) ==> (old(self).spec_state()
                == ConnectionState::Init && Opcode::spec_from_u16(frame.header.opcode) == Some(
                Opcode::Hello,
            ) && final(self).spec_session_id() == Some(old(self).spec_assigned_id())),
            // the hello is owed its reply carrying the assigned id
            (old(self).spec_state() == ConnectionState::Init && Opcode::spec_from_u16(
                frame.header.opcode,
            ) == Some(Opcode::Hello)) ==> (r matches Ok(actions) && actions@.len() == 1 && (
            actions@[0] matches ConnectionAction::SendFrame(f) && f.header.opcode
                == Opcode::HelloReply.spec_to_u16() && f.header.context_id == old(
                self,
            ).spec_assigned_id()) && final(self).spec_state() == ConnectionState::Authenticated),
            // a ping while authenticated is owed a pong
            (old(self).spec_state() == ConnectionState::Authenticated && Opcode::spec_from_u16(
                frame.header.opcode,
            ) == Some(Opcode::Ping)) ==> (r matches Ok(actions) && actions@.len() == 1 && (
            actions@[0] matches ConnectionAction::SendFrame(f) && f.header.opcode
                == Opcode::Pong.spec_to_u16())),
            // a goodbye while authenticated closes cleanly
            (old(self).spec_state() == ConnectionState::Authenticated && Opcode::spec_from_u16(
                frame.header.opcode,
            ) == Some(Opcode::Goodbye)) ==> r is Ok && final(self).spec_state()
                == ConnectionState::Closed,
            match r {
                Ok(_) => true,
                Err(_) => final(self).spec_state() == old(self).spec_state() || final(self).spec_state() == ConnectionState::Closed,
            },
    {
        let opcode = Opcode::from_u16(frame.header.opcode());
        match self.state {
            ConnectionState::Closed => Err(ConnectionError::Closed),
            ConnectionState::Init | ConnectionState::Pending => {
                match opcode {
                    Some(Opcode::Hello) => {
                        self.state = ConnectionState::Authenticated;
                        self.session_id = Some(self.assigned_id);
                        self.last_activity = now;
                        let mut header = FrameHeader::new(Opcode::HelloReply);
                        header.set_context_id(self.assigned_id);
                        let reply = Frame::new(header, Vec::new());
                        let mut actions: Vec<ConnectionAction> = Vec::new();
                        actions.push(ConnectionAction::SendFrame(reply));
                        Ok(actions)
                    },
                    _ => {
                        self.state = ConnectionState::Closed;
                        Err(ConnectionError::UnexpectedOpcode)
                    },
                }
            },
            ConnectionState::Authenticated => {
                self.last_activity = now;
                match opcode {
                    Some(Opcode::Ping) => {
                        let header = FrameHeader::new(Opcode::Pong);
                        let pong = Frame::new(header, Vec::new());
                        let mut actions: Vec<ConnectionAction> = Vec::new();
                        actions.push(ConnectionAction::SendFrame(pong));
                        Ok(actions)
                    },
                    Some(Opcode::Pong) => Ok(Vec::new()),
                    Some(Opcode::Goodbye) => {
                        self.state = ConnectionState::Closed;
                        Ok(Vec::new())
                    },
                    Some(Opcode::Hello) | Some(Opcode::HelloReply) => {
                        // a second handshake is a protocol violation
                        Err(ConnectionError::UnexpectedOpcode)
                    },
                    Some(_) => Ok(Vec::new()),
                    None => Err(ConnectionError::UnexpectedOpcode),
                }
            },
        }
    }

    /// Advances time: a peer that never says hello, or goes silent while
    /// authenticated, is closed once its deadline passes.
    pub fn tick(&mut self, now: u64) -> (r: Vec<ConnectionAction>)
        requires
            old(self).wf(),
        ensures
            final(self).wf(),
            final(self).spec_session_id() == old(self).spec_session_id(),
            old(self).spec_state() == ConnectionState::Closed ==> final(self).spec_state()
                == ConnectionState::Closed,
            final(self).spec_state() == old(self).spec_state() || final(self).spec_state()
                == ConnectionState::Closed,
            (exists|i: int| 0 <= i < r@.len() && (#[trigger] r@[i]) is Close) ==> final(self).spec_state() == ConnectionState::Closed,
            (old(self).spec_state() == ConnectionState::Init && now >= old(
                self,
            ).spec_last_activity() && now - old(self).spec_last_activity() >= old(
                self,
            ).spec_config().handshake_timeout_ms) ==> final(self).spec_state()
                == ConnectionState::Closed && r@.len() == 1 && r@[0] is Close,
            (old(self).spec_state() == ConnectionState::Authenticated && now >= old(
                self,
            ).spec_last_activity() && now - old(self).spec_last_activity() >= old(
                self,
            ).spec_config().idle_timeout_ms) ==> final(self).spec_state()
                == ConnectionState::Closed && r@.len() == 1 && r@[0] is Close,
    {
        let mut actions: Vec<ConnectionAction> = Vec::new();
        let elapsed = if now >= self.last_activity {
            now - self.last_activity
        } else {
            0
        };
        match self.state {
            ConnectionState::Init | ConnectionState::Pending => {
                if elapsed >= self.config.handshake_timeout_ms {
                    self.state = ConnectionState::Closed;
                    actions.push(
                        ConnectionAction::Close { reason: String::from_str("handshake timeout") },
                    );
                }
            },
            ConnectionState::Authenticated => {
                if elapsed >= self.config.idle_timeout_ms {
                    self.state = ConnectionState::Closed;
                    actions.push(
                        ConnectionAction::Close { reason: String::from_str("idle timeout") },
                    );
                } else if elapsed >= self.config.heartbeat_interval_ms {
                    let header = FrameHeader::new(Opcode::Ping);
                    let ping = Frame::new(header, Vec::new());
                    actions.push(ConnectionAction::SendFrame(ping));
                }
            },
            _ => {},
        }
        proof {
            assert forall|i: int|
                0 <= i < actions@.len() && (#[trigger] actions@[i]) is Close implies self.state
                == ConnectionState::Closed by {}
        }
        actions
    }

    /// Closes the connection; terminal.
    pub fn close(&mut self)
        requires
            old(self).wf(),
        ensures
            final(self).wf(),
            final(self).spec_state() == ConnectionState::Closed,
            final(self).spec_session_id() == old(self).spec_session_id(),
    {
        self.state = ConnectionState::Closed;
    }
}

} // verus!
