use vstd::prelude::*;
use crate::team::Team;

verus! {

/// The number of tiles that each team owns.
#[derive(Clone, Copy, Debug, PartialEq, Eq, Structural)]
pub struct Scoreboard {
    pub tiles_a: i64,
    pub tiles_b: i64,
}

impl Scoreboard {
    /// The counter of `team`.
    pub open spec fn score(self, team: Team) -> int {
        match team {
            Team::A => self.tiles_a as int,
            Team::B => self.tiles_b as int,
        }
    }

    /// A scoreboard with `tiles_a` tiles for team A and `tiles_b` for team B.
    pub fn new(tiles_a: i64, tiles_b: i64) -> (r: Scoreboard)
        ensures
            r.tiles_a == tiles_a,
            r.tiles_b == tiles_b,
    {
        Scoreboard { tiles_a, tiles_b }
    }

    /// Returns the counter of `team`.
    pub fn score_of(&self, team: Team) -> (r: i64)
        ensures
            r == self.score(team),
    {
        match team {
            Team::A => self.tiles_a,
            Team::B => self.tiles_b,
        }
    }

    /// Lends out the counter of `team`; the other counter stays as it is.
    pub fn score_for_team(&mut self, team: Team) -> (r: &mut i64)
        ensures
            *r == old(self).score(team),
            final(self).score(team) == *final(r),
            final(self).score(team.opposite_spec()) == old(self).score(team.opposite_spec()),
    {
        match team {
            Team::A => &mut self.tiles_a,
            Team::B => &mut self.tiles_b,
        }
    }

    /// Moves one tile from `prev` to `new`: `prev` loses one, `new` gains one.
    pub fn flip(&mut self, prev: Team, new: Team)
        requires
            prev != new,
            old(self).score(prev) > i64::MIN,
            old(self).score(new) < i64::MAX,
        ensures
            final(self).score(prev) == old(self).score(prev) - 1,
            final(self).score(new) == old(self).score(new) + 1,
    {
        let p = self.score_for_team(prev);
        *p = *p - 1;
        let n = self.score_for_team(new);
        *n = *n + 1;
    }
}

} // verus!
