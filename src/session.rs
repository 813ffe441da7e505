//! The lifecycle of one connection on the server side.

use vstd::prelude::*;

use crate::codec::read_frame;
use crate::server::{admitted, after_message, torn_down, MultiplayerServer};

verus! {

/// Where a connection stands. No step leaves `Closed`.
#[derive(Debug, Clone, Copy, PartialEq, Eq, Structural)]
pub enum SessionPhase {
    Connecting,
    Admitted,
    Active,
    Terminating,
    Closed,
}

/// One connection: its phase, and its player id once admitted.
pub struct Session {
    pub phase: SessionPhase,
    pub player_id: Option<String>,
}

impl Session {
    /// Every phase from admission to termination knows its player id.
    pub open spec fn wf(&self) -> bool {
        match self.phase {
            SessionPhase::Admitted | SessionPhase::Active | SessionPhase::Terminating => self.player_id is Some,
            _ => true,
        }
    }

    /// A connection that has just been accepted.
    pub fn new() -> (r: Session)
        ensures
            r.wf(),
            r.phase == SessionPhase::Connecting,
            r.player_id is None,
    {
        Session { phase: SessionPhase::Connecting, player_id: None }
    }

    /// Admits the connection under a fresh id (see
    /// `MultiplayerServer::admit_new`). A connection that cannot be admitted
    /// is closed. Outside `Connecting` nothing happens and `false` comes back.
    pub fn enter(&mut self, hub: &mut MultiplayerServer) -> (r: bool)
        requires
            old(self).wf(),
            old(hub).wf(),
        ensures
            final(self).wf(),
            final(hub).wf(),
            old(self).phase != SessionPhase::Connecting ==> !r && *final(self) == *old(self)
                && final(hub)@ == old(hub)@,
            old(self).phase == SessionPhase::Connecting && r ==> {
                &&& final(self).phase == SessionPhase::Admitted
                &&& final(self).player_id is Some
                &&& !old(hub)@.has(final(self).player_id->0@)
                &&& final(hub)@ == admitted(old(hub)@, final(self).player_id->0@)
            },
            old(self).phase == SessionPhase::Connecting && old(hub)@.links.len() == 0 ==> r,
            old(self).phase == SessionPhase::Connecting && !r ==> final(self).phase
                == SessionPhase::Closed && final(hub)@ == old(hub)@,
    {
        match self.phase {
            SessionPhase::Connecting => {},
            _ => {
                return false;
            },
        }
        match hub.admit_new() {
            Some(id) => {
                self.player_id = Some(id);
                self.phase = SessionPhase::Admitted;
                true
            },
            None => {
                self.phase = SessionPhase::Closed;
                false
            },
        }
    }

    /// The inbound and outbound loops start: `Admitted` becomes `Active`.
    pub fn activate(&mut self)
        requires
            old(self).wf(),
        ensures
            final(self).wf(),
            final(self).player_id == old(self).player_id,
            final(self).phase == if old(self).phase == SessionPhase::Admitted {
                SessionPhase::Active
            } else {
                old(self).phase
            },
    {
        if self.phase == SessionPhase::Admitted {
            self.phase = SessionPhase::Active;
        }
    }

    /// A frame arrived. Only an active session hands it to the hub (see
    /// `MultiplayerServer::handle_frame`); in any other phase it is dropped.
    pub fn receive(&mut self, hub: &mut MultiplayerServer, frame: &str)
        requires
            old(self).wf(),
            old(hub).wf(),
        ensures
            *final(self) == *old(self),
            final(hub).wf(),
            old(self).phase != SessionPhase::Active ==> final(hub)@ == old(hub)@,
            old(self).phase == SessionPhase::Active ==> {
                let id = old(self).player_id->0@;
                match read_frame(frame@) {
                    Some(m) => final(hub)@ == after_message(old(hub)@, id, m),
                    None => final(hub)@ == old(hub)@,
                }
            },
    {
        if self.phase == SessionPhase::Active {
            match &self.player_id {
                Some(id) => hub.handle_frame(id, frame),
                None => {},
            }
        }
    }

    /// The connection ended (read error, close, or the inbound loop
    /// stopped). An admitted or active session leaves the hub, which
    /// announces its departure, and becomes `Terminating`; in any other
    /// phase nothing happens, so the departure is announced once.
    pub fn end(&mut self, hub: &mut MultiplayerServer)
        requires
            old(self).wf(),
            old(hub).wf(),
        ensures
            final(self).wf(),
            final(hub).wf(),
            final(self).player_id == old(self).player_id,
            old(self).phase == SessionPhase::Admitted || old(self).phase == SessionPhase::Active
                ==> final(self).phase == SessionPhase::Terminating && final(hub)@ == torn_down(
                old(hub)@,
                old(self).player_id->0@,
            ),
            !(old(self).phase == SessionPhase::Admitted || old(self).phase == SessionPhase::Active)
                ==> *final(self) == *old(self) && final(hub)@ == old(hub)@,
    {
        if self.phase == SessionPhase::Admitted || self.phase == SessionPhase::Active {
            match &self.player_id {
                Some(id) => hub.teardown(id),
                None => {},
            }
            self.phase = SessionPhase::Terminating;
        }
    }

    /// The loops have stopped: `Terminating` (or a connection never
    /// admitted) becomes `Closed`.
    pub fn close(&mut self)
        requires
            old(self).wf(),
        ensures
            final(self).wf(),
            final(self).player_id == old(self).player_id,
            final(self).phase == match old(self).phase {
                SessionPhase::Terminating | SessionPhase::Connecting => SessionPhase::Closed,
                p => p,
            },
    {
        if self.phase == SessionPhase::Terminating || self.phase == SessionPhase::Connecting {
            self.phase = SessionPhase::Closed;
        }
    }
}

} // verus!
