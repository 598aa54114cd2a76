//! Which clients are let in, and how the others are turned away.
use vstd::prelude::*;

use crate::error::Error;
use crate::protocol::response::{ErrPacket, ErrPacketV};
use crate::server::commands::{answers, error_packet};

verus! {

/// `ER_CON_COUNT_ERROR`.
pub const ER_CON_COUNT_ERROR: u16 = 1040;

/// Whether one more client may connect beside the `active` ones. A limit of 0
/// is none.
pub open spec fn admitted(max_connections: int, active: int) -> bool {
    max_connections == 0 || active < max_connections
}

/// What a client is told that is turned away.
pub open spec fn too_many() -> ErrPacketV {
    ErrPacketV {
        error_code: ER_CON_COUNT_ERROR as nat,
        sql_state: seq![0x30u8, 0x38u8, 0x30u8, 0x30u8, 0x34u8],
        message: "Too many connections"@,
    }
}

/// The admission desk: hands out connection ids and counts who is inside.
#[derive(Debug)]
pub struct Admission {
    pub max_connections: usize,
    pub active: usize,
    pub next_connection_id: u32,
}

impl Admission {
    /// No more clients are inside than the limit allows.
    pub open spec fn wf(&self) -> bool {
        self.max_connections > 0 ==> self.active <= self.max_connections
    }

    /// The desk after one more arrival: the next id is another, and the client
    /// is inside if there was room.
    pub open spec fn after_arrival(self) -> Admission {
        Admission {
            max_connections: self.max_connections,
            active: if admitted(self.max_connections as int, self.active as int) {
                (self.active + 1) as usize
            } else {
                self.active
            },
            next_connection_id: if self.next_connection_id == u32::MAX {
                0
            } else {
                (self.next_connection_id + 1) as u32
            },
        }
    }

    /// Nobody is inside yet; ids start at 1.
    pub fn new(max_connections: usize) -> (r: Self)
        ensures
            r.wf(),
            r == (Admission { max_connections, active: 0, next_connection_id: 1 }),
    {
        Admission { max_connections, active: 0, next_connection_id: 1 }
    }

    /// A client has arrived: every one gets an id of its own, and is let in if
    /// there is room (`true`).
    pub fn arrive(&mut self) -> (r: (u32, bool))
        requires
            old(self).wf(),
            old(self).active < usize::MAX,
        ensures
            final(self).wf(),
            r.0 == old(self).next_connection_id,
            r.1 == admitted(old(self).max_connections as int, old(self).active as int),
            *final(self) == old(self).after_arrival(),
    {
        let id: u32 = self.next_connection_id;
        self.next_connection_id = id.wrapping_add(1);
        let room: bool = self.max_connections == 0 || self.active < self.max_connections;
        if room {
            self.active = self.active + 1;
        }
        (id, room)
    }

    /// A client that was let in has left.
    pub fn leave(&mut self)
        requires
            old(self).wf(),
            old(self).active > 0,
        ensures
            final(self).wf(),
            *final(self) == (Admission { active: (old(self).active - 1) as usize, ..*old(self) }),
    {
        self.active = self.active - 1;
    }
}

/// What a client that is turned away is sent: a real error in place of a
/// dropped socket.
pub fn rejection() -> (r: Result<Vec<u8>, Error>)
    ensures
        answers(r, error_packet(too_many(), 0)),
{
    let state: [u8; 5] = [0x30, 0x38, 0x30, 0x30, 0x34];
    proof {
        assert(state@ =~= too_many().sql_state);
    }
    let err = ErrPacket::new(ER_CON_COUNT_ERROR, &state, "Too many connections");
    let packet = err.to_packet(0)?;
    Ok(packet.encode())
}

/// As many clients as the limit allows can be inside, and not one more: while
/// there is room a client is let in, and at the limit it is not.
pub proof fn law_limit_is_kept(max_connections: int, active: int)
    requires
        max_connections > 0,
        0 <= active <= max_connections,
    ensures
        admitted(max_connections, active) ==> active + 1 <= max_connections,
        active == max_connections ==> !admitted(max_connections, active),
{
}

/// Without a limit everyone is let in.
pub proof fn law_no_limit_admits_all(active: int)
    ensures
        admitted(0, active),
{
}

} // verus!
