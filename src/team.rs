use vstd::prelude::*;

verus! {

/// One of the two teams that compete for tiles.
#[derive(Clone, Copy, Debug, PartialEq, Eq, Structural)]
pub enum Team {
    A,
    B,
}

impl Team {
    /// The other team.
    pub open spec fn opposite_spec(self) -> Team {
        match self {
            Team::A => Team::B,
            Team::B => Team::A,
        }
    }

    /// Returns the other team.
    pub fn opposite(self) -> (r: Team)
        ensures
            r == self.opposite_spec(),
            r != self,
    {
        match self {
            Team::A => Team::B,
            Team::B => Team::A,
        }
    }

    /// Returns the team's display name.
    pub fn name(self) -> (r: &'static str)
        ensures
            self == Team::A ==> r@ == "Blue"@,
            self == Team::B ==> r@ == "Red"@,
    {
        proof {
            reveal_strlit("Blue");
            reveal_strlit("Red");
        }
        match self {
            Team::A => "Blue",
            Team::B => "Red",
        }
    }
}

/// Taking the other team twice gives back the team itself.
pub proof fn lemma_opposite_involution(t: Team)
    ensures
        t.opposite_spec().opposite_spec() == t,
        t.opposite_spec() != t,
{
}

} // verus!
