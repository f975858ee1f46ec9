use vstd::prelude::*;

verus! {

/// A 2D integer coordinate: a cell of the field grid, or an intermediate
/// point just outside it before clamping.
#[derive(Clone, Copy, PartialEq, Eq, Structural, Debug)]
pub struct Pos(pub i32, pub i32);

impl std::ops::Add for Pos {
    type Output = Pos;

    /// Component-wise vector addition.
    fn add(self, rhs: Pos) -> (r: Pos) {
        Pos(self.0 + rhs.0, self.1 + rhs.1)
    }
}

impl vstd::std_specs::ops::AddSpecImpl for Pos {
    open spec fn obeys_add_spec() -> bool {
        true
    }

    open spec fn add_req(self, rhs: Pos) -> bool {
        i32::MIN <= self.0 + rhs.0 <= i32::MAX && i32::MIN <= self.1 + rhs.1 <= i32::MAX
    }

    open spec fn add_spec(self, rhs: Pos) -> Pos {
        Pos((self.0 + rhs.0) as i32, (self.1 + rhs.1) as i32)
    }
}

impl Pos {
    /// In-place component-wise accumulation of `rhs` into `self`.
    pub fn add_assign(&mut self, rhs: Pos)
        requires
            i32::MIN <= old(self).0 + rhs.0 <= i32::MAX,
            i32::MIN <= old(self).1 + rhs.1 <= i32::MAX,
        ensures
            final(self).0 == old(self).0 + rhs.0,
            final(self).1 == old(self).1 + rhs.1,
    {
        self.0 = self.0 + rhs.0;
        self.1 = self.1 + rhs.1;
    }
}

} // verus!
