//! Probes: small recorders that watch a running machine and report what is worth a line in a
//! trace, each no more often than its limit allows.
use vstd::prelude::*;

verus! {

/// Counts reports up to a limit.
#[derive(Debug, Clone, Copy, PartialEq, Eq, Structural)]
pub struct Tally {
    pub hits: u32,
}

impl Tally {
    /// There is something to report, and the limit has not been reached.
    pub open spec fn reports(self, limit: u32, due: bool) -> bool {
        due && self.hits < limit
    }

    /// After it.
    pub open spec fn after(self, limit: u32, due: bool) -> Tally {
        if self.reports(limit, due) {
            Tally { hits: (self.hits + 1) as u32 }
        } else {
            self
        }
    }

    /// Counts a report, if there is one to make.
    pub fn note(&mut self, limit: u32, due: bool) -> (r: bool)
        ensures
            r == old(self).reports(limit, due),
            *final(self) == old(self).after(limit, due),
    {
        if due && self.hits < limit {
            self.hits = self.hits + 1;
            true
        } else {
            false
        }
    }
}

/// Watches a byte, and reports when it has changed since the last report.
#[derive(Debug, Clone, Copy, PartialEq, Eq, Structural)]
pub struct ByteWatch {
    pub last: u8,
    pub hits: u32,
}

impl ByteWatch {
    /// The byte is another, the watch is on, and the limit has not been reached.
    pub open spec fn reports(self, limit: u32, on: bool, now: u8) -> bool {
        on && self.hits < limit && now != self.last
    }

    /// After it.
    pub open spec fn after(self, limit: u32, on: bool, now: u8) -> ByteWatch {
        if self.reports(limit, on, now) {
            ByteWatch { last: now, hits: (self.hits + 1) as u32 }
        } else {
            self
        }
    }

    /// Looks at the byte.
    pub fn note(&mut self, limit: u32, on: bool, now: u8) -> (r: bool)
        ensures
            r == old(self).reports(limit, on, now),
            *final(self) == old(self).after(limit, on, now),
    {
        if on && self.hits < limit && now != self.last {
            self.last = now;
            self.hits = self.hits + 1;
            true
        } else {
            false
        }
    }
}

impl ByteWatch {
    /// As `reports`, but the first look is always worth a report.
    pub open spec fn reports_first(self, limit: u32, on: bool, now: u8) -> bool {
        on && self.hits < limit && (self.hits == 0 || now != self.last)
    }

    /// After it.
    pub open spec fn after_first(self, limit: u32, on: bool, now: u8) -> ByteWatch {
        if self.reports_first(limit, on, now) {
            ByteWatch { last: now, hits: (self.hits + 1) as u32 }
        } else {
            self
        }
    }

    /// Looks at the byte.
    pub fn note_first(&mut self, limit: u32, on: bool, now: u8) -> (r: bool)
        ensures
            r == old(self).reports_first(limit, on, now),
            *final(self) == old(self).after_first(limit, on, now),
    {
        if on && self.hits < limit && (self.hits == 0 || now != self.last) {
            self.last = now;
            self.hits = self.hits + 1;
            true
        } else {
            false
        }
    }
}

/// Watches a 16-bit value, mostly a program counter, and reports when it has changed since the
/// last report.
#[derive(Debug, Clone, Copy, PartialEq, Eq, Structural)]
pub struct WordWatch {
    pub last: u16,
    pub hits: u32,
}

impl WordWatch {
    /// The value is another, the watch is on, and the limit has not been reached.
    pub open spec fn reports(self, limit: u32, on: bool, now: u16) -> bool {
        on && self.hits < limit && now != self.last
    }

    /// After it.
    pub open spec fn after(self, limit: u32, on: bool, now: u16) -> WordWatch {
        if self.reports(limit, on, now) {
            WordWatch { last: now, hits: (self.hits + 1) as u32 }
        } else {
            self
        }
    }

    /// Looks at the value.
    pub fn note(&mut self, limit: u32, on: bool, now: u16) -> (r: bool)
        ensures
            r == old(self).reports(limit, on, now),
            *final(self) == old(self).after(limit, on, now),
    {
        if on && self.hits < limit && now != self.last {
            self.last = now;
            self.hits = self.hits + 1;
            true
        } else {
            false
        }
    }
}

/// Watches a flag, and reports when it has changed since the last report.
#[derive(Debug, Clone, Copy, PartialEq, Eq, Structural)]
pub struct FlagWatch {
    pub last: bool,
    pub hits: u32,
}

impl FlagWatch {
    /// The flag has changed, the watch is on, and the limit has not been reached.
    pub open spec fn reports(self, limit: u32, on: bool, now: bool) -> bool {
        on && self.hits < limit && now != self.last
    }

    /// After it.
    pub open spec fn after(self, limit: u32, on: bool, now: bool) -> FlagWatch {
        if self.reports(limit, on, now) {
            FlagWatch { last: now, hits: (self.hits + 1) as u32 }
        } else {
            self
        }
    }

    /// Looks at the flag.
    pub fn note(&mut self, limit: u32, on: bool, now: bool) -> (r: bool)
        ensures
            r == old(self).reports(limit, on, now),
            *final(self) == old(self).after(limit, on, now),
    {
        if on && self.hits < limit && now != self.last {
            self.last = now;
            self.hits = self.hits + 1;
            true
        } else {
            false
        }
    }
}

/// Watches a flag for one of its edges. Unlike a `FlagWatch` it follows the flag whether it
/// reports or not, as long as it looks at all.
#[derive(Debug, Clone, Copy, PartialEq, Eq, Structural)]
pub struct EdgeWatch {
    pub last: bool,
    pub hits: u32,
}

impl EdgeWatch {
    /// The flag went to `to`, and a report of it is due.
    pub open spec fn reports(self, limit: u32, due: bool, now: bool, to: bool) -> bool {
        due && self.hits < limit && now == to && self.last != to
    }

    /// After it, where the flag is `seen` at all.
    pub open spec fn after(
        self,
        limit: u32,
        due: bool,
        seen: bool,
        now: bool,
        to: bool,
    ) -> EdgeWatch {
        EdgeWatch {
            last: if seen {
                now
            } else {
                self.last
            },
            hits: if self.reports(limit, due, now, to) {
                (self.hits + 1) as u32
            } else {
                self.hits
            },
        }
    }

    /// Looks at the flag.
    pub fn note(&mut self, limit: u32, due: bool, seen: bool, now: bool, to: bool) -> (r: bool)
        ensures
            r == old(self).reports(limit, due, now, to),
            *final(self) == old(self).after(limit, due, seen, now, to),
    {
        let r = due && self.hits < limit && now == to && self.last != to;
        if r {
            self.hits = self.hits + 1;
        }
        if seen {
            self.last = now;
        }
        r
    }
}

/// Follows a program counter for a number of different values.
#[derive(Debug, Clone, Copy, PartialEq, Eq, Structural)]
pub struct Trail {
    pub left: u32,
    pub last: u16,
}

/// A trail that has just been started.
pub open spec fn trail_of(n: u32) -> Trail {
    Trail { left: n, last: 0xFFFF }
}

impl Trail {
    /// The counter is elsewhere, and the trail is not at its end.
    pub open spec fn reports(self, pc: u16) -> bool {
        self.left > 0 && pc != self.last
    }

    /// After a trail that only reports count on.
    pub open spec fn after(self, pc: u16) -> Trail {
        if self.reports(pc) {
            Trail { left: (self.left - 1) as u32, last: pc }
        } else {
            self
        }
    }

    /// After a trail that every look counts on.
    pub open spec fn after_cycle(self, pc: u16) -> Trail {
        if self.left > 0 {
            Trail { left: (self.left - 1) as u32, last: pc }
        } else {
            self
        }
    }

    /// Starts the trail.
    pub fn start(&mut self, n: u32)
        ensures
            *final(self) == trail_of(n),
    {
        self.left = n;
        self.last = 0xFFFF;
    }

    /// Looks at the counter; only reports count.
    pub fn note(&mut self, pc: u16) -> (r: bool)
        ensures
            r == old(self).reports(pc),
            *final(self) == old(self).after(pc),
    {
        if self.left > 0 && pc != self.last {
            self.last = pc;
            self.left = self.left - 1;
            true
        } else {
            false
        }
    }

    /// Looks at the counter; every look counts.
    pub fn note_cycle(&mut self, pc: u16) -> (r: bool)
        ensures
            r == old(self).reports(pc),
            *final(self) == old(self).after_cycle(pc),
    {
        if self.left > 0 {
            let r = pc != self.last;
            self.last = pc;
            self.left = self.left - 1;
            r
        } else {
            false
        }
    }
}

/// Counts how long a processor has stayed at one address, and reports once when that is too long.
#[derive(Debug, Clone, Copy, PartialEq, Eq, Structural)]
pub struct StuckWatch {
    pub cycles: u32,
    pub reported: bool,
}

impl StuckWatch {
    /// It has been there for `limit` cycles now, and this has not been reported.
    pub open spec fn reports(self, limit: u32, there: bool) -> bool {
        there && !self.reported && self.cycles + 1 >= limit
    }

    /// After it. Where it has left, all starts again.
    pub open spec fn after(self, limit: u32, there: bool) -> StuckWatch {
        if there {
            StuckWatch {
                cycles: (self.cycles + 1) as u32,
                reported: self.reported || self.cycles + 1 >= limit,
            }
        } else if self.cycles > 0 {
            StuckWatch { cycles: 0, reported: false }
        } else {
            self
        }
    }

    /// Looks whether it is still there.
    pub fn note(&mut self, limit: u32, there: bool) -> (r: bool)
        requires
            old(self).cycles < u32::MAX,
        ensures
            r == old(self).reports(limit, there),
            *final(self) == old(self).after(limit, there),
    {
        if there {
            self.cycles = self.cycles + 1;
            if !self.reported && self.cycles >= limit {
                self.reported = true;
                return true;
            }
        } else if self.cycles > 0 {
            self.cycles = 0;
            self.reported = false;
        }
        false
    }
}

/// Counts how long a processor has stayed in a place, and reports the first time that this takes
/// too long. After that the count is kept.
#[derive(Debug, Clone, Copy, PartialEq, Eq, Structural)]
pub struct HangWatch {
    pub cycles: u32,
    pub reported: bool,
}

impl HangWatch {
    /// It has been there for more than `limit` cycles now, and nothing was reported before.
    pub open spec fn reports(self, limit: u32, there: bool) -> bool {
        there && !self.reported && self.cycles + 1 > limit
    }

    /// After it.
    pub open spec fn after(self, limit: u32, there: bool) -> HangWatch {
        if there {
            HangWatch {
                cycles: (self.cycles + 1) as u32,
                reported: self.reported || self.cycles + 1 > limit,
            }
        } else if !self.reported {
            HangWatch { cycles: 0, reported: false }
        } else {
            self
        }
    }

    /// Looks whether it is still there.
    pub fn note(&mut self, limit: u32, there: bool) -> (r: bool)
        requires
            old(self).cycles < u32::MAX,
        ensures
            r == old(self).reports(limit, there),
            *final(self) == old(self).after(limit, there),
    {
        if there {
            self.cycles = self.cycles + 1;
            if !self.reported && self.cycles > limit {
                self.reported = true;
                return true;
            }
        } else if self.cycles > 0 && !self.reported {
            self.cycles = 0;
        }
        false
    }
}

/// Times how long something is held, and reports the end of each time, and once within it that it
/// takes very long.
#[derive(Debug, Clone, Copy, PartialEq, Eq, Structural)]
pub struct HoldWatch {
    pub active: bool,
    pub start: u32,
    pub long_reported: bool,
    pub hits: u32,
}

impl HoldWatch {
    /// How long it has been held.
    pub open spec fn duration(self, cycle: u32) -> u32 {
        cycle.wrapping_sub(self.start)
    }

    /// It was held, and is no longer.
    pub open spec fn ends(self, limit: u32, held: bool) -> bool {
        self.active && !held && self.hits < limit
    }

    /// It is still held after a long time.
    pub open spec fn sticks(self, long: u32, cycle: u32, held: bool) -> bool {
        self.active && held && !self.long_reported && self.duration(cycle) >= long
    }

    /// After a look.
    pub open spec fn after(self, limit: u32, long: u32, cycle: u32, held: bool) -> HoldWatch {
        if held && !self.active {
            HoldWatch { active: true, start: cycle, long_reported: false, ..self }
        } else if self.active && !held {
            HoldWatch {
                active: false,
                hits: if self.hits < limit {
                    (self.hits + 1) as u32
                } else {
                    self.hits
                },
                ..self
            }
        } else if self.sticks(long, cycle, held) {
            HoldWatch { long_reported: true, hits: (self.hits + 1) as u32, ..self }
        } else {
            self
        }
    }

    /// Looks at it; tells whether it ended, and whether it sticks.
    pub fn note(&mut self, limit: u32, long: u32, cycle: u32, held: bool) -> (r: (bool, bool))
        requires
            old(self).hits < u32::MAX,
        ensures
            r.0 == old(self).ends(limit, held),
            r.1 == old(self).sticks(long, cycle, held),
            *final(self) == old(self).after(limit, long, cycle, held),
    {
        if held && !self.active {
            self.active = true;
            self.start = cycle;
            self.long_reported = false;
        } else if self.active {
            let duration: u32 = cycle.wrapping_sub(self.start);
            if !held {
                self.active = false;
                if self.hits < limit {
                    self.hits = self.hits + 1;
                    return (true, false);
                }
            } else if !self.long_reported && duration >= long {
                self.long_reported = true;
                self.hits = self.hits + 1;
                return (false, true);
            }
        }
        (false, false)
    }
}

/// How often a tally has reported over a series of looks.
pub open spec fn tally_reports(t: Tally, limit: u32, due: Seq<bool>) -> nat
    decreases due.len(),
{
    if due.len() == 0 {
        0
    } else {
        let rest = tally_reports(t.after(limit, due[0]), limit, due.drop_first());
        if t.reports(limit, due[0]) {
            rest + 1
        } else {
            rest
        }
    }
}

/// A tally never reports more often than its limit allows.
pub proof fn tally_keeps_to_its_limit(t: Tally, limit: u32, due: Seq<bool>)
    requires
        t.hits <= limit,
    ensures
        tally_reports(t, limit, due) <= limit - t.hits,
    decreases due.len(),
{
    if due.len() > 0 {
        tally_keeps_to_its_limit(t.after(limit, due[0]), limit, due.drop_first());
    }
}

/// How often a byte watch has reported over a series of looks.
pub open spec fn watch_reports(w: ByteWatch, limit: u32, seen: Seq<u8>) -> nat
    decreases seen.len(),
{
    if seen.len() == 0 {
        0
    } else {
        let rest = watch_reports(w.after(limit, true, seen[0]), limit, seen.drop_first());
        if w.reports(limit, true, seen[0]) {
            rest + 1
        } else {
            rest
        }
    }
}

/// A watch never reports more often than its limit allows, and below the limit it always knows
/// what the byte was when it last looked.
pub proof fn watch_keeps_to_its_limit(w: ByteWatch, limit: u32, seen: Seq<u8>, now: u8)
    requires
        w.hits <= limit,
    ensures
        watch_reports(w, limit, seen) <= limit - w.hits,
        w.hits < limit ==> w.after(limit, true, now).last == now,
        !w.after(limit, true, now).reports(limit, true, now),
    decreases seen.len(),
{
    if seen.len() > 0 {
        watch_keeps_to_its_limit(w.after(limit, true, seen[0]), limit, seen.drop_first(), now);
    }
}

/// How often a trail has reported over a series of looks.
pub open spec fn trail_reports(t: Trail, pcs: Seq<u16>) -> nat
    decreases pcs.len(),
{
    if pcs.len() == 0 {
        0
    } else {
        let rest = trail_reports(t.after(pcs[0]), pcs.drop_first());
        if t.reports(pcs[0]) {
            rest + 1
        } else {
            rest
        }
    }
}

/// A trail reports no more values than it was started for, and never the same twice in a row.
pub proof fn trail_comes_to_an_end(t: Trail, pcs: Seq<u16>, pc: u16)
    ensures
        trail_reports(t, pcs) <= t.left,
        !t.after(pc).reports(pc),
        !t.after_cycle(pc).reports(pc),
    decreases pcs.len(),
{
    if pcs.len() > 0 {
        trail_comes_to_an_end(t.after(pcs[0]), pcs.drop_first(), pc);
    }
}

/// A hang is reported once and never again.
pub proof fn hang_is_reported_once(w: HangWatch, limit: u32, there: bool, again: bool)
    requires
        w.cycles < u32::MAX - 1,
    ensures
        w.reports(limit, there) ==> w.after(limit, there).reported,
        w.reported ==> w.after(limit, there).reported && !w.reports(limit, again),
{
}

/// A time that something is held is reported as long at most once, and comes to an end once.
pub proof fn hold_is_reported_once(w: HoldWatch, limit: u32, long: u32, cycle: u32, later: u32)
    requires
        w.hits < u32::MAX - 1,
    ensures
        w.sticks(long, cycle, true) ==> !w.after(limit, long, cycle, true).sticks(
            long,
            later,
            true,
        ),
        !w.after(limit, long, cycle, false).ends(limit, false),
        w.active ==> w.after(limit, long, cycle, true).start == w.start,
{
}

/// A watch for a stuck processor reports once, until the processor has left.
pub proof fn stuck_is_reported_once(w: StuckWatch, limit: u32)
    requires
        w.cycles < u32::MAX - 1,
    ensures
        w.reports(limit, true) ==> !w.after(limit, true).reports(limit, true),
        w.cycles > 0 ==> w.after(limit, false) == (StuckWatch { cycles: 0, reported: false }),
{
}

/// Below its limit a tally reports everything that is due and counts it; nothing else counts.
pub proof fn tally_reports_what_is_due(t: Tally, limit: u32, due: bool)
    ensures
        t.hits < limit ==> t.reports(limit, due) == due,
        t.hits >= limit ==> !t.reports(limit, due),
        t.after(limit, due).hits == t.hits + if due && t.hits < limit {
            1int
        } else {
            0
        },
{
}

/// Below its limit a watch that is on reports every change of its value, and only changes; it then
/// knows the value as it is. One that is off reports and learns nothing.
pub proof fn watches_report_every_change(
    b: ByteWatch,
    w: WordWatch,
    f: FlagWatch,
    limit: u32,
    x: u8,
    y: u16,
    z: bool,
)
    ensures
        b.hits < limit ==> (b.reports(limit, true, x) <==> x != b.last),
        b.hits < limit && x != b.last ==> b.after(limit, true, x) == (ByteWatch {
            last: x,
            hits: (b.hits + 1) as u32,
        }),
        !b.reports(limit, true, x) ==> b.after(limit, true, x) == b,
        !b.reports(limit, false, x) && b.after(limit, false, x) == b,
        0 < b.hits < limit ==> (b.reports_first(limit, true, x) <==> x != b.last),
        b.hits == 0 && limit > 0 ==> b.reports_first(limit, true, x),
        w.hits < limit ==> (w.reports(limit, true, y) <==> y != w.last),
        w.hits < limit && y != w.last ==> w.after(limit, true, y) == (WordWatch {
            last: y,
            hits: (w.hits + 1) as u32,
        }),
        !w.reports(limit, true, y) ==> w.after(limit, true, y) == w,
        !w.reports(limit, false, y) && w.after(limit, false, y) == w,
        f.hits < limit ==> (f.reports(limit, true, z) <==> z != f.last),
        f.hits < limit && z != f.last ==> f.after(limit, true, z) == (FlagWatch {
            last: z,
            hits: (f.hits + 1) as u32,
        }),
        !f.reports(limit, true, z) ==> f.after(limit, true, z) == f,
        !f.reports(limit, false, z) && f.after(limit, false, z) == f,
{
}

/// A watch for an edge reports the flag going to one side and never to the other, and follows the
/// flag wherever it looks.
pub proof fn edges_are_reported_one_way(w: EdgeWatch, limit: u32, now: bool, to: bool)
    ensures
        w.hits < limit ==> (w.reports(limit, true, now, to) <==> now == to && w.last != to),
        !w.reports(limit, false, now, to),
        w.after(limit, true, true, now, to).last == now,
        w.after(limit, true, false, now, to).last == w.last,
        !w.after(limit, true, true, now, to).reports(limit, true, now, to),
{
}

/// A trail that has been started follows the counter from its first value on.
pub proof fn trail_follows_the_counter(n: u32, pc: u16, next: u16)
    requires
        n > 1,
        pc != 0xFFFF,
        next != pc,
    ensures
        trail_of(n).reports(pc),
        trail_of(n).after(pc) == (Trail { left: (n - 1) as u32, last: pc }),
        trail_of(n).after(pc).reports(next),
        trail_of(n).after_cycle(pc).reports(next),
        trail_of(n).after_cycle(pc).left == n - 1,
        trail_of(n).after(pc).after(pc).left == n - 1,
        trail_of(n).after_cycle(pc).after_cycle(pc).left == n - 2,
{
}

/// How long something has lasted is counted in cycles: a stuck processor is reported when it has been
/// there for the limit, a hang when it has taken longer than that, something held when it has been
/// held as long as that since it began.
pub proof fn durations_are_counted_in_cycles(
    s: StuckWatch,
    h: HangWatch,
    w: HoldWatch,
    limit: u32,
    cycle: u32,
    held: bool,
)
    requires
        s.cycles < u32::MAX,
        h.cycles < u32::MAX,
        w.hits < u32::MAX,
    ensures
        s.after(limit, true).cycles == s.cycles + 1,
        s.after(limit, false).cycles == 0,
        !s.reported ==> (s.reports(limit, true) <==> s.after(limit, true).cycles >= limit),
        !s.reports(limit, false),
        h.after(limit, true).cycles == h.cycles + 1,
        !h.reported ==> (h.reports(limit, true) <==> h.after(limit, true).cycles > limit),
        !h.reported ==> h.after(limit, false).cycles == 0,
        !h.reports(limit, false),
        !w.active && held ==> w.after(40, limit, cycle, held).start == cycle && w.after(
            40,
            limit,
            cycle,
            held,
        ).active,
        w.active && !held ==> !w.after(40, limit, cycle, held).active && (w.ends(40, held) <==> w.hits
            < 40),
        w.active && held && !w.long_reported && cycle >= w.start ==> (w.sticks(limit, cycle, held)
            <==> cycle - w.start >= limit),
        !w.active ==> !w.ends(40, held) && !w.sticks(limit, cycle, held),
        cycle >= w.start ==> w.duration(cycle) == cycle - w.start,
{
}

} // verus!
