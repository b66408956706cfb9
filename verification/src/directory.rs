//! The game-discovery directory's bookkeeping: which game is registered at
//! which address, with a version stamp that guards against a stale
//! health-check unregistering a newer registration, and the health monitor
//! that decides when a registered game counts as dead.
//!
//! The directory's servers, transports and timers live outside; this is
//! the decision core they drive.

use vstd::prelude::*;

verus! {

/// One registered game: the client's host, the registered port, the game's
/// name and the registration's version stamp.
pub struct GameData {
    pub host: u64,
    pub port: u16,
    pub name: String,
    pub version: u64,
}

/// Entry `i` carries the key `(host, port)`.
pub open spec fn key_at(s: Seq<GameData>, i: int, host: u64, port: u16) -> bool {
    0 <= i < s.len() && s[i].host == host && s[i].port == port
}

pub struct GameDirectory {
    pub games: Vec<GameData>,
}

impl GameDirectory {
    /// No two entries share an address.
    pub open spec fn wf(self) -> bool {
        forall|i: int, j: int| 0 <= i < j < self.games@.len()
            ==> !((#[trigger] self.games@[i]).host == (#[trigger] self.games@[j]).host
                && self.games@[i].port == self.games@[j].port)
    }

    pub fn new() -> (d: GameDirectory)
        ensures
            d.wf(),
            d.games@.len() == 0,
    {
        GameDirectory { games: Vec::new() }
    }

    /// The index registered under the address, if any.
    fn find(&self, host: u64, port: u16) -> (r: Option<usize>)
        ensures
            match r {
                Some(i) => key_at(self.games@, i as int, host, port),
                None => forall|i: int| #![auto] 0 <= i < self.games@.len()
                    ==> !(self.games@[i].host == host && self.games@[i].port == port),
            },
    {
        let mut i: usize = 0;
        while i < self.games.len()
            invariant
                i <= self.games@.len(),
                forall|j: int| #![auto] 0 <= j < i
                    ==> !(self.games@[j].host == host && self.games@[j].port == port),
            decreases self.games@.len() - i,
        {
            if self.games[i].host == host && self.games[i].port == port {
                return Some(i);
            }
            i = i + 1;
        }
        None
    }

    /// Registers a game under the client's address. As there can only be
    /// one registered game per address, an already-registered game there is
    /// replaced: its name comes back, and the new registration's version is
    /// one above the old one (wrapping). A first registration starts at
    /// version zero and returns nothing.
    pub fn register(&mut self, host: u64, port: u16, name: String) -> (prev: Option<String>)
        requires
            old(self).wf(),
            old(self).games@.len() < usize::MAX,
        ensures
            final(self).wf(),
            (exists|i: int| key_at(old(self).games@, i, host, port)) ==> exists|i: int| {
                &&& key_at(old(self).games@, i, host, port)
                &&& prev == Some(old(self).games@[i].name)
                &&& final(self).games@ == old(self).games@.remove(i).push(GameData {
                    host,
                    port,
                    name,
                    version: spec_wrap_inc(old(self).games@[i].version),
                })
            },
            !(exists|i: int| key_at(old(self).games@, i, host, port)) ==> {
                &&& prev is None
                &&& final(self).games@ == old(self).games@.push(GameData {
                    host,
                    port,
                    name,
                    version: 0,
                })
            },
    {
        match self.find(host, port) {
            Some(i) => {
                let ghost before = self.games@;
                let old_entry = self.games.remove(i);
                let version = wrap_inc(old_entry.version);
                self.games.push(GameData { host, port, name, version });
                proof {
                    assert(key_at(before, i as int, host, port));
                    assert forall|a: int, b: int| 0 <= a < b < self.games@.len()
                        implies !((#[trigger] self.games@[a]).host
                            == (#[trigger] self.games@[b]).host
                            && self.games@[a].port == self.games@[b].port) by {}
                }
                Some(old_entry.name)
            },
            None => {
                self.games.push(GameData { host, port, name, version: 0 });
                None
            },
        }
    }

    /// Unregisters whatever game the address carries, handing back its
    /// name, or nothing when none was registered.
    pub fn unregister(&mut self, host: u64, port: u16) -> (prev: Option<String>)
        requires
            old(self).wf(),
        ensures
            final(self).wf(),
            (exists|i: int| key_at(old(self).games@, i, host, port)) ==> exists|i: int| {
                &&& key_at(old(self).games@, i, host, port)
                &&& prev == Some(old(self).games@[i].name)
                &&& final(self).games@ == old(self).games@.remove(i)
            },
            !(exists|i: int| key_at(old(self).games@, i, host, port)) ==> {
                &&& prev is None
                &&& final(self).games@ == old(self).games@
            },
    {
        match self.find(host, port) {
            Some(i) => {
                let entry = self.games.remove(i);
                Some(entry.name)
            },
            None => None,
        }
    }

    /// The version-guarded unregistration a finished health check performs:
    /// the entry goes away only while it still carries the version the
    /// check was started for — a newer registration stays.
    pub fn unregister_if_version(&mut self, host: u64, port: u16, version: u64) -> (removed:
        bool)
        requires
            old(self).wf(),
        ensures
            final(self).wf(),
            removed <==> exists|i: int| key_at(old(self).games@, i, host, port)
                && old(self).games@[i].version == version,
            removed ==> exists|i: int| {
                &&& key_at(old(self).games@, i, host, port)
                &&& old(self).games@[i].version == version
                &&& final(self).games@ == old(self).games@.remove(i)
            },
            !removed ==> final(self).games@ == old(self).games@,
    {
        match self.find(host, port) {
            Some(i) => {
                if self.games[i].version == version {
                    self.games.remove(i);
                    true
                } else {
                    proof {
                        assert forall|j: int| key_at(self.games@, j, host, port)
                            implies self.games@[j].version != version by {
                            assert(key_at(self.games@, i as int, host, port));
                        }
                    }
                    false
                }
            },
            None => false,
        }
    }

    /// The names of all registered games and where to find them.
    pub fn list(&self) -> (r: Vec<(u64, u16, String)>)
        ensures
            r@.len() == self.games@.len(),
            forall|i: int| 0 <= i < r@.len() ==> {
                &&& (#[trigger] r@[i]).0 == self.games@[i].host
                &&& r@[i].1 == self.games@[i].port
                &&& r@[i].2@ == self.games@[i].name@
            },
    {
        let mut r: Vec<(u64, u16, String)> = Vec::new();
        let mut i: usize = 0;
        while i < self.games.len()
            invariant
                i <= self.games@.len(),
                r@.len() == i,
                forall|j: int| 0 <= j < i ==> {
                    &&& (#[trigger] r@[j]).0 == self.games@[j].host
                    &&& r@[j].1 == self.games@[j].port
                    &&& r@[j].2@ == self.games@[j].name@
                },
            decreases self.games@.len() - i,
        {
            let e = &self.games[i];
            r.push((e.host, e.port, e.name.clone()));
            i = i + 1;
        }
        r
    }
}

/// The successor of a version stamp, wrapping at the top of the range.
pub open spec fn spec_wrap_inc(v: u64) -> u64 {
    if v == u64::MAX {
        0
    } else {
        (v + 1) as u64
    }
}

fn wrap_inc(v: u64) -> (r: u64)
    ensures
        r == spec_wrap_inc(v),
{
    if v == u64::MAX {
        0
    } else {
        v + 1
    }
}

/// How many consecutive failed liveness probes unregister a game.
pub const MAX_SUCCESSIVE_ERRORS: u8 = 3;

/// What one liveness probe of a registered game came back with.
#[derive(Clone, Copy, Debug, PartialEq, Eq, Structural)]
pub enum PingOutcome {
    /// The game answered.
    Pong,
    /// The connection was reset: the game is gone for good.
    ConnectionReset,
    /// Some other failure; give the game a few more chances.
    OtherError,
}

/// The per-registration health monitor: counts consecutive probe failures
/// and decides when to give the game up.
pub struct HealthMonitor {
    pub successive_errors: u8,
}

impl HealthMonitor {
    pub fn new() -> (m: HealthMonitor)
        ensures
            m.successive_errors == 0,
    {
        HealthMonitor { successive_errors: 0 }
    }

    /// Feeds one probe result in; the result says whether the game must now
    /// be treated as dead. An answer resets the failure count, a reset
    /// connection gives up at once, any other failure gives up after
    /// `MAX_SUCCESSIVE_ERRORS` failures in a row.
    pub fn on_ping_result(&mut self, outcome: PingOutcome) -> (give_up: bool)
        ensures
            match outcome {
                PingOutcome::Pong => !give_up && final(self).successive_errors == 0,
                PingOutcome::ConnectionReset => give_up,
                PingOutcome::OtherError => {
                    &&& final(self).successive_errors == (if old(self).successive_errors
                        < MAX_SUCCESSIVE_ERRORS {
                        (old(self).successive_errors + 1) as u8
                    } else {
                        old(self).successive_errors
                    })
                    &&& (give_up <==> old(self).successive_errors + 1 >= MAX_SUCCESSIVE_ERRORS)
                },
            },
    {
        match outcome {
            PingOutcome::Pong => {
                self.successive_errors = 0;
                false
            },
            PingOutcome::ConnectionReset => true,
            PingOutcome::OtherError => {
                if self.successive_errors < MAX_SUCCESSIVE_ERRORS {
                    self.successive_errors = self.successive_errors + 1;
                }
                self.successive_errors >= MAX_SUCCESSIVE_ERRORS
            },
        }
    }
}

} // verus!
