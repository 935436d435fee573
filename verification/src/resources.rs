//! The resource ledger: energy, user activity and the ideas set aside.

use vstd::prelude::*;

use crate::operators::string_views;

verus! {

/// How many blocked ideas are kept.
pub const BLOCKED_CAPACITY: usize = 100;

/// Energy is kept in basis points: 10000 is a full battery.
pub const FULL_ENERGY_BP: i64 = 10000;

/// Energy, user activity and blocked ideas.
pub struct ResourceLedger {
    energy_bp: i64,
    user_active: bool,
    blocked_ideas: Vec<String>,
}

/// The interval, in seconds, suggested for an energy level in basis points:
/// above 80% every 10 s, above 50% every 30 s, otherwise every 60 s.
pub open spec fn interval_for(energy_bp: i64) -> i32 {
    if energy_bp > 8000 {
        10
    } else if energy_bp > 5000 {
        30
    } else {
        60
    }
}

/// More energy never suggests a longer interval.
pub proof fn law_interval_shrinks_with_energy(a: i64, b: i64)
    requires
        a <= b,
    ensures
        interval_for(b) <= interval_for(a),
{
}

impl ResourceLedger {
    /// The energy in basis points.
    pub closed spec fn energy(&self) -> i64 {
        self.energy_bp
    }

    /// Whether the user is active.
    pub closed spec fn active(&self) -> bool {
        self.user_active
    }

    /// The blocked ideas, oldest first.
    pub closed spec fn blocked(&self) -> Seq<Seq<char>> {
        string_views(self.blocked_ideas@)
    }

    /// Full energy, user inactive, nothing blocked.
    pub fn new() -> (r: Self)
        ensures
            r.energy() == FULL_ENERGY_BP,
            !r.active(),
            r.blocked() == Seq::<Seq<char>>::empty(),
    {
        let r = ResourceLedger { energy_bp: FULL_ENERGY_BP, user_active: false, blocked_ideas: Vec::new() };
        assert(r.blocked() =~= Seq::<Seq<char>>::empty());
        r
    }

    /// Sets the energy, in basis points.
    pub fn set_energy_bp(&mut self, bp: i64)
        ensures
            final(self).energy() == bp,
            final(self).active() == old(self).active(),
            final(self).blocked() == old(self).blocked(),
    {
        self.energy_bp = bp;
    }

    /// The energy, in basis points.
    pub fn energy_bp(&self) -> (bp: i64)
        ensures
            bp == self.energy(),
    {
        self.energy_bp
    }

    /// Records whether the user is active.
    pub fn set_user_active(&mut self, active: bool)
        ensures
            final(self).active() == active,
            final(self).energy() == old(self).energy(),
            final(self).blocked() == old(self).blocked(),
    {
        self.user_active = active;
    }

    /// Whether the user is active.
    pub fn user_active(&self) -> (b: bool)
        ensures
            b == self.active(),
    {
        self.user_active
    }

    /// The interval suggested for the current energy.
    pub fn compute_suggested_interval(&self) -> (s: i32)
        ensures
            s == interval_for(self.energy()),
    {
        if self.energy_bp > 8000 {
            10
        } else if self.energy_bp > 5000 {
            30
        } else {
            60
        }
    }

    /// Sets an idea aside; beyond capacity the oldest goes.
    pub fn add_blocked_idea(&mut self, idea: String)
        ensures
            final(self).energy() == old(self).energy(),
            final(self).active() == old(self).active(),
            old(self).blocked().len() + 1 <= BLOCKED_CAPACITY ==> final(self).blocked() == old(
                self,
            ).blocked().push(idea@),
            old(self).blocked().len() + 1 > BLOCKED_CAPACITY ==> final(self).blocked() == old(
                self,
            ).blocked().push(idea@).drop_first(),
    {
        let ghost before = self.blocked();
        let ghost v = idea@;
        self.blocked_ideas.push(idea);
        assert(self.blocked() =~= before.push(v));
        if self.blocked_ideas.len() > BLOCKED_CAPACITY {
            self.blocked_ideas.remove(0);
            assert(self.blocked() =~= before.push(v).drop_first());
        }
    }

    /// The blocked ideas, oldest first.
    pub fn get_blocked_ideas(&self) -> (v: Vec<String>)
        ensures
            string_views(v@) == self.blocked(),
    {
        let mut v: Vec<String> = Vec::new();
        let mut i: usize = 0;
        while i < self.blocked_ideas.len()
            invariant
                i <= self.blocked_ideas@.len(),
                string_views(v@) == string_views(self.blocked_ideas@.subrange(0, i as int)),
            decreases self.blocked_ideas.len() - i,
        {
            v.push(self.blocked_ideas[i].clone());
            assert(string_views(self.blocked_ideas@.subrange(0, i + 1)) =~= string_views(
                self.blocked_ideas@.subrange(0, i as int),
            ).push(self.blocked_ideas@[i as int]@));
            assert(string_views(v@) =~= string_views(self.blocked_ideas@.subrange(0, i as int)).push(
                self.blocked_ideas@[i as int]@,
            ));
            i = i + 1;
        }
        assert(self.blocked_ideas@.subrange(0, self.blocked_ideas@.len() as int)
            =~= self.blocked_ideas@);
        v
    }
}

} // verus!
