//! Indices and kinds of the celestial bodies that maps are laid on.
use vstd::prelude::*;

verus! {

/// Whether orbits are drawn.
#[derive(Clone, Copy, Debug, PartialEq, Eq, Structural)]
pub struct ShowOrbits(pub bool);

impl ShowOrbits {
    pub fn get(&self) -> (r: bool)
        ensures
            r == self.0,
    {
        self.0
    }

    pub fn set(&mut self, show: bool)
        ensures
            final(self).0 == show,
    {
        self.0 = show;
    }
}

impl Default for ShowOrbits {
    fn default() -> (r: ShowOrbits)
        ensures
            r.0 == false,
    {
        ShowOrbits(false)
    }
}

/// The index of a body in the cosmos, under which its data is kept.
#[derive(Clone, Copy, Debug, PartialEq, Eq, Structural)]
pub struct BodyIndex(usize);

impl BodyIndex {
    pub closed spec fn spec_index(&self) -> usize {
        self.0
    }

    pub fn new(index: usize) -> (r: BodyIndex)
        ensures
            r.spec_index() == index,
    {
        BodyIndex(index)
    }

    pub fn index(&self) -> (r: usize)
        ensures
            r == self.spec_index(),
    {
        self.0
    }
}

/// The index of an orbit in the cosmos, under which its data is kept.
#[derive(Clone, Copy, Debug, PartialEq, Eq, Structural)]
pub struct OrbitIndex(usize);

impl OrbitIndex {
    pub closed spec fn spec_index(&self) -> usize {
        self.0
    }

    pub fn new(index: usize) -> (r: OrbitIndex)
        ensures
            r.spec_index() == index,
    {
        OrbitIndex(index)
    }

    pub fn index(&self) -> (r: usize)
        ensures
            r == self.spec_index(),
    {
        self.0
    }
}

/// Marks a star.
#[derive(Clone, Copy, Debug, Default, PartialEq, Eq, Structural)]
pub struct Star;

/// Marks a planet.
#[derive(Clone, Copy, Debug, Default, PartialEq, Eq, Structural)]
pub struct Planet;

/// Marks a moon.
#[derive(Clone, Copy, Debug, Default, PartialEq, Eq, Structural)]
pub struct Moon;

/// The type of a main sequence star.
#[derive(Clone, Copy, Debug, Default, PartialEq, Eq, Structural)]
pub enum StarType {
    #[default]
    O,
    B,
    A,
    F,
    G,
    K,
    M,
}

/// The detailed class of a main sequence star.
#[derive(Clone, Copy, Debug, PartialEq, Eq, Structural)]
pub struct StarClass {
    pub ty: StarType,
    pub sub_ty: u32,
    pub index: u32,
}

/// The type of a planet.
#[derive(Clone, Copy, Debug, Default, PartialEq, Eq, Structural)]
pub enum BodyType {
    #[default]
    Rocky,
    GasGiant,
    IceGiant,
}

} // verus!
