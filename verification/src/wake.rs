//! Suspend/resume detection and network-path status — wake is an event, not a timeout.
//!
//! A ticker compares wall-clock time to monotonic time since the previous tick. Monotonic clocks
//! exclude suspend, so a wall jump far beyond the tick means that the process just woke from system
//! sleep. The clocks and the channels that carry the events belong to the caller.

use vstd::prelude::*;

verus! {

/// Nanoseconds between two looks at the clocks.
pub const TICK_NS: u64 = 1_000_000_000;

/// Wall time must outrun monotonic time by this much in one tick to count as a suspend — far above
/// scheduler jitter, far below any real sleep.
pub const JUMP_THRESHOLD_NS: u64 = 5_000_000_000;

/// `nw_path_status_unsatisfied`. Only a definitive "no path" parks the dialers — every other status
/// stays optimistic.
pub const NW_PATH_STATUS_UNSATISFIED: i32 = 2;

/// Both clocks, in nanoseconds, as they stood at the last tick.
#[derive(Debug, Clone, Copy, PartialEq, Eq, Structural)]
pub struct WakeDetector {
    pub wall: u64,
    pub mono: u64,
}

/// How far a clock went, or zero where it went back.
pub open spec fn elapsed(from: u64, to: u64) -> int {
    if to >= from {
        to - from
    } else {
        0
    }
}

/// Whether the wall clock outran the monotonic one by more than the threshold.
pub open spec fn jumped(at: WakeDetector, wall: u64, mono: u64) -> bool {
    elapsed(at.wall, wall) > elapsed(at.mono, mono) + JUMP_THRESHOLD_NS
}

impl WakeDetector {
    pub fn new(wall: u64, mono: u64) -> (r: Self)
        ensures
            r == (WakeDetector { wall, mono }),
    {
        WakeDetector { wall, mono }
    }

    /// One tick: whether the system resumed from suspend since the last one.
    pub fn tick(&mut self, wall: u64, mono: u64) -> (woke: bool)
        ensures
            woke == jumped(*old(self), wall, mono),
            *final(self) == (WakeDetector { wall, mono }),
    {
        let wall_elapsed: u64 = wall.saturating_sub(self.wall);
        let mono_elapsed: u64 = mono.saturating_sub(self.mono);
        let woke = wall_elapsed as u128 > mono_elapsed as u128 + JUMP_THRESHOLD_NS as u128;
        self.wall = wall;
        self.mono = mono;
        woke
    }
}

/// The network path's status as the system reports it. Online by default, and for good on platforms
/// without a path monitor: then backoff loops behave as if a path existed. `online_events` counts
/// the events that parked dials were woken by.
#[derive(Debug, Clone, Copy, PartialEq, Eq, Structural)]
pub struct NetPath {
    pub offline: bool,
    pub online_events: u64,
}

impl NetPath {
    pub fn new() -> (r: Self)
        ensures
            r == (NetPath { offline: false, online_events: 0 }),
    {
        NetPath { offline: false, online_events: 0 }
    }

    /// The path with one more event.
    pub open spec fn notified(self) -> Self {
        NetPath { online_events: ((self.online_events + 1) % 0x1_0000_0000_0000_0000) as u64, ..self }
    }

    /// What a status report makes of the path: regaining it is an event, losing it is none.
    pub open spec fn reported(self, online: bool) -> Self {
        let next = NetPath { offline: !online, ..self };
        if online && self.offline {
            next.notified()
        } else {
            next
        }
    }
}

/// A dial succeeded: everything that waits out a backoff dials now.
pub fn notify_online(path: &mut NetPath)
    ensures
        *final(path) == old(path).notified(),
{
    path.online_events = path.online_events.wrapping_add(1);
}

/// Report the network path's status. Returns whether the waiters are to be woken, which is when an
/// offline path came back.
pub fn set_path_online(path: &mut NetPath, online: bool) -> (woken: bool)
    ensures
        *final(path) == old(path).reported(online),
        woken == (online && old(path).offline),
{
    let was_offline = path.offline;
    path.offline = !online;
    if online && was_offline {
        notify_online(path);
        true
    } else {
        false
    }
}

/// True while the system reports no viable network path.
pub fn path_is_offline(path: &NetPath) -> (r: bool)
    ensures
        r == path.offline,
{
    path.offline
}

/// One update of the path monitor, by its status code. A viable path also wakes the waiters where
/// it was viable before: interface handovers arrive like that, and the old sockets are dead on the
/// new path.
pub fn path_status(path: &mut NetPath, status: i32)
    ensures
        *final(path) == if status == NW_PATH_STATUS_UNSATISFIED {
            old(path).reported(false)
        } else {
            old(path).reported(true).notified()
        },
{
    let online = status != NW_PATH_STATUS_UNSATISFIED;
    let _ = set_path_online(path, online);
    if online {
        notify_online(path);
    }
}

/// Losing the path and regaining it wakes the waiters once, however often either is reported.
pub proof fn law_path_restored_once(path: NetPath)
    ensures
        path.reported(false).reported(false) == path.reported(false),
        path.reported(true).reported(true) == path.reported(true),
        path.reported(false).reported(true).online_events == path.notified().online_events,
        path.reported(false).online_events == path.online_events,
        !path.reported(true).offline,
        path.reported(false).offline,
{
}

/// A tick in which both clocks advance alike is no wake, however long it was.
pub proof fn law_steady_clocks_never_wake(at: WakeDetector, wall: u64, mono: u64)
    requires
        elapsed(at.wall, wall) <= elapsed(at.mono, mono),
    ensures
        !jumped(at, wall, mono),
{
}

/// A suspend is noticed exactly where the wall clock went on by more than the threshold beyond the
/// other one, which stands still meanwhile. A wall clock that was set back is no wake.
pub proof fn law_suspends_are_noticed(at: WakeDetector, wall: u64, mono: u64)
    requires
        mono >= at.mono,
    ensures
        wall >= at.wall ==> (jumped(at, wall, mono) <==> wall - at.wall > (mono - at.mono)
            + JUMP_THRESHOLD_NS),
        wall < at.wall ==> !jumped(at, wall, mono),
{
}

} // verus!
