//! Rank tiers and the classification of point totals into tiers.

use vstd::prelude::*;
use crate::text::str_eq;

verus! {

/// The thirteen rank tiers, ordered from lowest to highest.
#[derive(Debug, PartialEq, Eq, Structural, Clone, Copy)]
pub enum Rank {
    Unranked,
    RedTopaz,
    Sapphire,
    Emerald,
    Ruby,
    Diamond,
    Dragonstone,
    Onyx,
    Zenyte,
    Death,
    Blood,
    Soul,
    Wrath,
}

/// The tier a total point value falls in.  Bands are half-open,
/// contiguous and exhaustive; anything below one point is unranked.
pub open spec fn rank_of(points: int) -> Rank {
    if points < 1 {
        Rank::Unranked
    } else if points < 200 {
        Rank::RedTopaz
    } else if points < 500 {
        Rank::Sapphire
    } else if points < 750 {
        Rank::Emerald
    } else if points < 1000 {
        Rank::Ruby
    } else if points < 1500 {
        Rank::Diamond
    } else if points < 2000 {
        Rank::Dragonstone
    } else if points < 3000 {
        Rank::Onyx
    } else if points < 4000 {
        Rank::Zenyte
    } else if points < 5000 {
        Rank::Death
    } else if points < 6000 {
        Rank::Blood
    } else if points < 8000 {
        Rank::Soul
    } else {
        Rank::Wrath
    }
}

/// The half-open band of point totals belonging to one tier.
pub open spec fn in_band(points: int, rank: Rank) -> bool {
    match rank {
        Rank::Unranked => points < 1,
        Rank::RedTopaz => 1 <= points < 200,
        Rank::Sapphire => 200 <= points < 500,
        Rank::Emerald => 500 <= points < 750,
        Rank::Ruby => 750 <= points < 1000,
        Rank::Diamond => 1000 <= points < 1500,
        Rank::Dragonstone => 1500 <= points < 2000,
        Rank::Onyx => 2000 <= points < 3000,
        Rank::Zenyte => 3000 <= points < 4000,
        Rank::Death => 4000 <= points < 5000,
        Rank::Blood => 5000 <= points < 6000,
        Rank::Soul => 6000 <= points < 8000,
        Rank::Wrath => 8000 <= points,
    }
}

/// Classification is total and exhaustive: every point total lies in the
/// band of the tier it is classified into, and in the band of no other tier.
pub proof fn lemma_rank_bands_exhaustive(points: int)
    ensures
        in_band(points, rank_of(points)),
        forall|t: Rank| in_band(points, t) ==> t == rank_of(points),
{
}

/// Maps a total point value to its rank tier.
pub fn evaluate_rank(points: &i64) -> (r: Rank)
    ensures
        r == rank_of(*points as int),
{
    let p: i64 = *points;
    if p < 1 {
        Rank::Unranked
    } else if p < 200 {
        Rank::RedTopaz
    } else if p < 500 {
        Rank::Sapphire
    } else if p < 750 {
        Rank::Emerald
    } else if p < 1000 {
        Rank::Ruby
    } else if p < 1500 {
        Rank::Diamond
    } else if p < 2000 {
        Rank::Dragonstone
    } else if p < 3000 {
        Rank::Onyx
    } else if p < 4000 {
        Rank::Zenyte
    } else if p < 5000 {
        Rank::Death
    } else if p < 6000 {
        Rank::Blood
    } else if p < 8000 {
        Rank::Soul
    } else {
        Rank::Wrath
    }
}

/// The printed name of each tier.
pub open spec fn rank_name_spec(r: Rank) -> Seq<char> {
    match r {
        Rank::Unranked => "Unranked"@,
        Rank::RedTopaz => "RedTopaz"@,
        Rank::Sapphire => "Sapphire"@,
        Rank::Emerald => "Emerald"@,
        Rank::Ruby => "Ruby"@,
        Rank::Diamond => "Diamond"@,
        Rank::Dragonstone => "Dragonstone"@,
        Rank::Onyx => "Onyx"@,
        Rank::Zenyte => "Zenyte"@,
        Rank::Death => "Death"@,
        Rank::Blood => "Blood"@,
        Rank::Soul => "Soul"@,
        Rank::Wrath => "Wrath"@,
    }
}

/// The tier named by a string; unknown names fall back to unranked.
pub open spec fn rank_from_name_spec(s: Seq<char>) -> Rank {
    if s == "Unranked"@ {
        Rank::Unranked
    } else if s == "RedTopaz"@ {
        Rank::RedTopaz
    } else if s == "Sapphire"@ {
        Rank::Sapphire
    } else if s == "Emerald"@ {
        Rank::Emerald
    } else if s == "Ruby"@ {
        Rank::Ruby
    } else if s == "Diamond"@ {
        Rank::Diamond
    } else if s == "Dragonstone"@ {
        Rank::Dragonstone
    } else if s == "Onyx"@ {
        Rank::Onyx
    } else if s == "Zenyte"@ {
        Rank::Zenyte
    } else if s == "Death"@ {
        Rank::Death
    } else if s == "Blood"@ {
        Rank::Blood
    } else if s == "Soul"@ {
        Rank::Soul
    } else if s == "Wrath"@ {
        Rank::Wrath
    } else {
        Rank::Unranked
    }
}

impl Rank {
    /// The tier's printed name.
    pub fn name(&self) -> (s: String)
        ensures
            s@ == rank_name_spec(*self),
    {
        match self {
            Rank::Unranked => String::from_str("Unranked"),
            Rank::RedTopaz => String::from_str("RedTopaz"),
            Rank::Sapphire => String::from_str("Sapphire"),
            Rank::Emerald => String::from_str("Emerald"),
            Rank::Ruby => String::from_str("Ruby"),
            Rank::Diamond => String::from_str("Diamond"),
            Rank::Dragonstone => String::from_str("Dragonstone"),
            Rank::Onyx => String::from_str("Onyx"),
            Rank::Zenyte => String::from_str("Zenyte"),
            Rank::Death => String::from_str("Death"),
            Rank::Blood => String::from_str("Blood"),
            Rank::Soul => String::from_str("Soul"),
            Rank::Wrath => String::from_str("Wrath"),
        }
    }

    /// Reads a tier back from its printed name; unknown names are unranked.
    pub fn from_name(name: &str) -> (r: Self)
        ensures
            r == rank_from_name_spec(name@),
    {
        if str_eq(name, "Unranked") {
            Rank::Unranked
        } else if str_eq(name, "RedTopaz") {
            Rank::RedTopaz
        } else if str_eq(name, "Sapphire") {
            Rank::Sapphire
        } else if str_eq(name, "Emerald") {
            Rank::Emerald
        } else if str_eq(name, "Ruby") {
            Rank::Ruby
        } else if str_eq(name, "Diamond") {
            Rank::Diamond
        } else if str_eq(name, "Dragonstone") {
            Rank::Dragonstone
        } else if str_eq(name, "Onyx") {
            Rank::Onyx
        } else if str_eq(name, "Zenyte") {
            Rank::Zenyte
        } else if str_eq(name, "Death") {
            Rank::Death
        } else if str_eq(name, "Blood") {
            Rank::Blood
        } else if str_eq(name, "Soul") {
            Rank::Soul
        } else if str_eq(name, "Wrath") {
            Rank::Wrath
        } else {
            Rank::Unranked
        }
    }
}

/// A tier's printed name always reads back as the same tier.
pub proof fn lemma_rank_name_round_trip(r: Rank)
    ensures
        rank_from_name_spec(rank_name_spec(r)) == r,
{
    reveal_strlit("Unranked");
    reveal_strlit("RedTopaz");
    reveal_strlit("Sapphire");
    reveal_strlit("Emerald");
    reveal_strlit("Ruby");
    reveal_strlit("Diamond");
    reveal_strlit("Dragonstone");
    reveal_strlit("Onyx");
    reveal_strlit("Zenyte");
    reveal_strlit("Death");
    reveal_strlit("Blood");
    reveal_strlit("Soul");
    reveal_strlit("Wrath");
    assert("Unranked"@.len() == 8 && "RedTopaz"@.len() == 8 && "Sapphire"@.len() == 8);
    assert("Emerald"@.len() == 7 && "Ruby"@.len() == 4 && "Diamond"@.len() == 7);
    assert("Dragonstone"@.len() == 11 && "Onyx"@.len() == 4 && "Zenyte"@.len() == 6);
    assert("Death"@.len() == 5 && "Blood"@.len() == 5 && "Soul"@.len() == 4 && "Wrath"@.len() == 5);
    assert("RedTopaz"@[0] == 'R' && "Unranked"@[0] == 'U' && "Sapphire"@[0] == 'S');
    assert("Diamond"@[0] == 'D' && "Emerald"@[0] == 'E');
    assert("Ruby"@[0] == 'R' && "Onyx"@[0] == 'O' && "Soul"@[0] == 'S');
    assert("Death"@[0] == 'D' && "Blood"@[0] == 'B' && "Wrath"@[0] == 'W');
    match r {
        Rank::Unranked => assert(rank_from_name_spec("Unranked"@) == Rank::Unranked),
        Rank::RedTopaz => assert(rank_from_name_spec("RedTopaz"@) == Rank::RedTopaz),
        Rank::Sapphire => assert(rank_from_name_spec("Sapphire"@) == Rank::Sapphire),
        Rank::Emerald => assert(rank_from_name_spec("Emerald"@) == Rank::Emerald),
        Rank::Ruby => assert(rank_from_name_spec("Ruby"@) == Rank::Ruby),
        Rank::Diamond => assert(rank_from_name_spec("Diamond"@) == Rank::Diamond),
        Rank::Dragonstone => assert(rank_from_name_spec("Dragonstone"@) == Rank::Dragonstone),
        Rank::Onyx => assert(rank_from_name_spec("Onyx"@) == Rank::Onyx),
        Rank::Zenyte => assert(rank_from_name_spec("Zenyte"@) == Rank::Zenyte),
        Rank::Death => assert(rank_from_name_spec("Death"@) == Rank::Death),
        Rank::Blood => assert(rank_from_name_spec("Blood"@) == Rank::Blood),
        Rank::Soul => assert(rank_from_name_spec("Soul"@) == Rank::Soul),
        Rank::Wrath => assert(rank_from_name_spec("Wrath"@) == Rank::Wrath),
    }
}

} // verus!
