//! Compass directions and small sets of them.
//!
//! A `Directions` value is a set over the four variants of `Direction`,
//! kept as four booleans so that set reasoning stays plain.  The same type
//! doubles as the four-bit connectivity mask that picks a border glyph.

use vstd::prelude::*;

verus! {

#[derive(Clone, Copy, Debug, PartialEq, Eq, Structural)]
pub enum Direction {
    North,
    East,
    South,
    West,
}

/// A set of compass directions.
#[derive(Clone, Copy, Debug, PartialEq, Eq, Structural)]
pub struct Directions {
    pub north: bool,
    pub east: bool,
    pub south: bool,
    pub west: bool,
}

impl Direction {
    pub open spec fn spec_opposite(self) -> Direction {
        match self {
            Direction::North => Direction::South,
            Direction::East => Direction::West,
            Direction::South => Direction::North,
            Direction::West => Direction::East,
        }
    }

    /// The direction pointing the opposite way.
    #[verifier::when_used_as_spec(spec_opposite)]
    pub fn opposite(self) -> (r: Direction)
        ensures
            r == self.spec_opposite(),
    {
        match self {
            Direction::North => Direction::South,
            Direction::East => Direction::West,
            Direction::South => Direction::North,
            Direction::West => Direction::East,
        }
    }

    pub open spec fn spec_clockwise(self) -> Direction {
        match self {
            Direction::North => Direction::East,
            Direction::East => Direction::South,
            Direction::South => Direction::West,
            Direction::West => Direction::North,
        }
    }

    /// The direction a quarter turn clockwise from this one.
    #[verifier::when_used_as_spec(spec_clockwise)]
    pub fn clockwise(self) -> (r: Direction)
        ensures
            r == self.spec_clockwise(),
    {
        match self {
            Direction::North => Direction::East,
            Direction::East => Direction::South,
            Direction::South => Direction::West,
            Direction::West => Direction::North,
        }
    }

    pub open spec fn spec_counterclockwise(self) -> Direction {
        match self {
            Direction::North => Direction::West,
            Direction::East => Direction::North,
            Direction::South => Direction::East,
            Direction::West => Direction::South,
        }
    }

    /// The direction a quarter turn counterclockwise from this one.
    #[verifier::when_used_as_spec(spec_counterclockwise)]
    pub fn counterclockwise(self) -> (r: Direction)
        ensures
            r == self.spec_counterclockwise(),
    {
        match self {
            Direction::North => Direction::West,
            Direction::East => Direction::North,
            Direction::South => Direction::East,
            Direction::West => Direction::South,
        }
    }

    /// The singleton set holding only this direction.
    pub fn singleton(self) -> (r: Directions)
        ensures
            forall|d: Direction| r.has(d) <==> d == self,
    {
        match self {
            Direction::North => Directions { north: true, east: false, south: false, west: false },
            Direction::East => Directions { north: false, east: true, south: false, west: false },
            Direction::South => Directions { north: false, east: false, south: true, west: false },
            Direction::West => Directions { north: false, east: false, south: false, west: true },
        }
    }
}

impl Directions {
    /// Membership, the set model every other contract is written over.
    pub open spec fn has(self, d: Direction) -> bool {
        match d {
            Direction::North => self.north,
            Direction::East => self.east,
            Direction::South => self.south,
            Direction::West => self.west,
        }
    }

    /// How many directions the set holds.
    pub open spec fn count(self) -> int {
        (if self.north { 1 as int } else { 0 }) + (if self.east { 1 as int } else { 0 })
            + (if self.south { 1 as int } else { 0 }) + (if self.west { 1 as int } else { 0 })
    }

    /// The empty set.
    pub fn empty() -> (r: Directions)
        ensures
            forall|d: Direction| !r.has(d),
    {
        Directions { north: false, east: false, south: false, west: false }
    }

    pub fn contains(self, d: Direction) -> (r: bool)
        ensures
            r == self.has(d),
    {
        match d {
            Direction::North => self.north,
            Direction::East => self.east,
            Direction::South => self.south,
            Direction::West => self.west,
        }
    }

    pub fn is_empty(self) -> (r: bool)
        ensures
            r <==> forall|d: Direction| !self.has(d),
    {
        let r = !self.north && !self.east && !self.south && !self.west;
        assert(r <==> (!self.has(Direction::North) && !self.has(Direction::East) && !self.has(
            Direction::South,
        ) && !self.has(Direction::West)));
        r
    }

    pub fn insert(self, d: Direction) -> (r: Directions)
        ensures
            forall|e: Direction| r.has(e) <==> (self.has(e) || e == d),
    {
        match d {
            Direction::North => Directions { north: true, ..self },
            Direction::East => Directions { east: true, ..self },
            Direction::South => Directions { south: true, ..self },
            Direction::West => Directions { west: true, ..self },
        }
    }

    pub open spec fn spec_remove(self, d: Direction) -> Directions {
        match d {
            Direction::North => Directions { north: false, ..self },
            Direction::East => Directions { east: false, ..self },
            Direction::South => Directions { south: false, ..self },
            Direction::West => Directions { west: false, ..self },
        }
    }

    #[verifier::when_used_as_spec(spec_remove)]
    pub fn remove(self, d: Direction) -> (r: Directions)
        ensures
            r == self.spec_remove(d),
            forall|e: Direction| r.has(e) <==> (self.has(e) && e != d),
    {
        match d {
            Direction::North => Directions { north: false, ..self },
            Direction::East => Directions { east: false, ..self },
            Direction::South => Directions { south: false, ..self },
            Direction::West => Directions { west: false, ..self },
        }
    }

    pub fn union(self, other: Directions) -> (r: Directions)
        ensures
            forall|d: Direction| r.has(d) <==> (self.has(d) || other.has(d)),
    {
        Directions {
            north: self.north || other.north,
            east: self.east || other.east,
            south: self.south || other.south,
            west: self.west || other.west,
        }
    }

    pub open spec fn spec_complement(self) -> Directions {
        Directions {
            north: !self.north,
            east: !self.east,
            south: !self.south,
            west: !self.west,
        }
    }

    /// The set of directions not in this set.
    #[verifier::when_used_as_spec(spec_complement)]
    pub fn complement(self) -> (r: Directions)
        ensures
            r == self.spec_complement(),
            forall|d: Direction| r.has(d) <==> !self.has(d),
    {
        Directions {
            north: !self.north,
            east: !self.east,
            south: !self.south,
            west: !self.west,
        }
    }

    /// The `k`-th member, in North, East, South, West order.
    pub open spec fn spec_nth(self, k: int) -> Direction {
        if self.north && k == 0 {
            Direction::North
        } else if self.east && k == (if self.north { 1 as int } else { 0 }) {
            Direction::East
        } else if self.south && k == (if self.north { 1 as int } else { 0 }) + (if self.east {
            1 as int
        } else {
            0
        }) {
            Direction::South
        } else {
            Direction::West
        }
    }

    /// Returns how many directions the set holds.
    pub fn len(self) -> (r: usize)
        ensures
            r == self.count(),
    {
        let mut n: usize = 0;
        if self.north {
            n = n + 1;
        }
        if self.east {
            n = n + 1;
        }
        if self.south {
            n = n + 1;
        }
        if self.west {
            n = n + 1;
        }
        n
    }

    /// Returns the `k`-th member in North, East, South, West order.
    pub fn nth(self, k: usize) -> (r: Direction)
        requires
            k < self.count(),
        ensures
            r == self.spec_nth(k as int),
            self.has(r),
    {
        let mut k = k;
        if self.north {
            if k == 0 {
                return Direction::North;
            }
            k = k - 1;
        }
        if self.east {
            if k == 0 {
                return Direction::East;
            }
            k = k - 1;
        }
        if self.south {
            if k == 0 {
                return Direction::South;
            }
            k = k - 1;
        }
        Direction::West
    }
}

} // verus!
