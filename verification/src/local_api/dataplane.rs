//! The state of the data plane.

use crate::pool::model::plus;
use crate::pool::slot::bump;
use crate::text::copy_text;
use vstd::prelude::*;
use vstd::string::*;

verus! {

/// Dataplane health state.
#[derive(Debug, Clone, Copy, PartialEq, Eq, Structural)]
pub enum DataPlaneState {
    Up,
    Degraded,
    Restarting,
    Down,
}

pub open spec fn state_text(s: DataPlaneState) -> Seq<char> {
    match s {
        DataPlaneState::Up => "up"@,
        DataPlaneState::Degraded => "degraded"@,
        DataPlaneState::Restarting => "restarting"@,
        DataPlaneState::Down => "down"@,
    }
}

impl DataPlaneState {
    pub fn as_str(self) -> (s: &'static str)
        ensures
            s@ == state_text(self),
    {
        match self {
            Self::Up => "up",
            Self::Degraded => "degraded",
            Self::Restarting => "restarting",
            Self::Down => "down",
        }
    }
}

/// Read model for dataplane status. A dataplane with a dead packet worker never reports
/// healthy.
#[derive(Debug)]
pub struct DataPlaneStatusSnapshot {
    pub up: bool,
    pub outbound_alive: bool,
    pub restarting: bool,
    pub restart_count: u64,
    pub generation: u64,
    pub last_error: Option<String>,
}

/// The health of a dataplane: restarting whatever else holds; else down unless it is up;
/// up, it is degraded without its packet worker.
pub open spec fn health(s: DataPlaneStatusSnapshot) -> DataPlaneState {
    if s.restarting {
        DataPlaneState::Restarting
    } else if !s.up {
        DataPlaneState::Down
    } else if s.outbound_alive {
        DataPlaneState::Up
    } else {
        DataPlaneState::Degraded
    }
}

impl DataPlaneStatusSnapshot {
    pub fn new(up: bool) -> (s: Self)
        ensures
            s == (DataPlaneStatusSnapshot {
                up,
                outbound_alive: up,
                restarting: false,
                restart_count: 0,
                generation: 0,
                last_error: None,
            }),
    {
        DataPlaneStatusSnapshot {
            up,
            outbound_alive: up,
            restarting: false,
            restart_count: 0,
            generation: 0,
            last_error: None,
        }
    }

    pub fn is_up(&self) -> (b: bool)
        ensures
            b == self.up,
    {
        self.up
    }

    pub fn outbound_alive(&self) -> (b: bool)
        ensures
            b == self.outbound_alive,
    {
        self.outbound_alive
    }

    pub fn set_up(&mut self, v: bool)
        ensures
            *final(self) == (DataPlaneStatusSnapshot { up: v, ..*old(self) }),
    {
        self.up = v;
    }

    pub fn set_outbound_alive(&mut self, v: bool)
        ensures
            *final(self) == (DataPlaneStatusSnapshot { outbound_alive: v, ..*old(self) }),
    {
        self.outbound_alive = v;
    }

    pub fn set_restarting(&mut self, v: bool)
        ensures
            *final(self) == (DataPlaneStatusSnapshot { restarting: v, ..*old(self) }),
    {
        self.restarting = v;
    }

    pub fn set_generation(&mut self, v: u64)
        ensures
            *final(self) == (DataPlaneStatusSnapshot { generation: v, ..*old(self) }),
    {
        self.generation = v;
    }

    pub fn note_restart(&mut self, error: String)
        ensures
            *final(self) == (DataPlaneStatusSnapshot {
                restart_count: plus(old(self).restart_count, 1),
                last_error: Some(error),
                ..*old(self)
            }),
    {
        self.restart_count = bump(self.restart_count, 1);
        self.last_error = Some(error);
    }

    pub fn set_last_error(&mut self, error: String)
        ensures
            *final(self) == (DataPlaneStatusSnapshot { last_error: Some(error), ..*old(self) }),
    {
        self.last_error = Some(error);
    }

    pub fn restart_count(&self) -> (n: u64)
        ensures
            n == self.restart_count,
    {
        self.restart_count
    }

    pub fn generation(&self) -> (n: u64)
        ensures
            n == self.generation,
    {
        self.generation
    }

    pub fn last_error(&self) -> (r: Option<String>)
        ensures
            r == self.last_error,
    {
        copy_text(&self.last_error)
    }

    pub fn state(&self) -> (s: DataPlaneState)
        ensures
            s == health(*self),
    {
        if self.restarting {
            DataPlaneState::Restarting
        } else if self.up {
            if self.outbound_alive {
                DataPlaneState::Up
            } else {
                DataPlaneState::Degraded
            }
        } else {
            DataPlaneState::Down
        }
    }
}

/// A dead packet worker never reads as healthy.
pub proof fn law_dead_worker_not_healthy(s: DataPlaneStatusSnapshot)
    requires
        !s.outbound_alive,
    ensures
        health(s) != DataPlaneState::Up,
{
}

/// Each state goes by a name of its own.
pub proof fn law_names_of_states(s: DataPlaneState)
    ensures
        state_text(s) == "up"@ <==> s == DataPlaneState::Up,
        state_text(s) == "degraded"@ <==> s == DataPlaneState::Degraded,
        state_text(s) == "restarting"@ <==> s == DataPlaneState::Restarting,
        state_text(s) == "down"@ <==> s == DataPlaneState::Down,
{
    reveal_strlit("up");
    reveal_strlit("degraded");
    reveal_strlit("restarting");
    reveal_strlit("down");
    assert("up"@[0] == 'u' && "restarting"@[0] == 'r');
    assert("degraded"@.len() == 8 && "down"@.len() == 4);
}

/// A data plane that restarts reads so, whatever else holds of it; one that is down with its
/// worker alive is down; and one that is up is so with its worker alone.
pub proof fn law_health_of_the_data_plane(s: DataPlaneStatusSnapshot)
    ensures
        health(s) == DataPlaneState::Restarting <==> s.restarting,
        health(s) == DataPlaneState::Down <==> !s.restarting && !s.up,
        health(s) == DataPlaneState::Up <==> !s.restarting && s.up && s.outbound_alive,
        health(s) == DataPlaneState::Degraded <==> !s.restarting && s.up && !s.outbound_alive,
{
}

} // verus!
