use vstd::prelude::*;
use core::ops::Neg;
use vstd::std_specs::ops::{AddSpec, DivSpec, MulSpec, NegSpec, SubSpec};

verus! {

/// A triple of scalars. It stands both for a free vector and for a position:
/// callers keep track of which one they mean.
#[derive(PartialEq, Eq, Debug, Clone, Copy, Default)]
pub struct Vec3<T>(pub T, pub T, pub T);

/// A position in space; the same type as a free vector.
pub type Point3<T> = Vec3<T>;

impl<T> Vec3<T> {
    /// The component on axis `dim` (0, 1 or 2), or `None` for any other axis.
    pub open spec fn component(self, dim: int) -> Option<T> {
        if dim == 0 {
            Some(self.0)
        } else if dim == 1 {
            Some(self.1)
        } else if dim == 2 {
            Some(self.2)
        } else {
            None
        }
    }
}

impl<T: Copy> Vec3<T> {
    pub fn new(x: T, y: T, z: T) -> (r: Self)
        ensures
            r == Vec3(x, y, z),
    {
        Vec3(x, y, z)
    }

    pub fn x(&self) -> (r: T)
        ensures
            r == self.0,
    {
        self.0
    }

    pub fn y(&self) -> (r: T)
        ensures
            r == self.1,
    {
        self.1
    }

    pub fn z(&self) -> (r: T)
        ensures
            r == self.2,
    {
        self.2
    }

    /// The component on axis `dim`: `Some` exactly for the axes 0, 1 and 2.
    pub fn get(&self, dim: u32) -> (r: Option<T>)
        ensures
            r == self.component(dim as int),
            r is Some <==> dim < 3,
    {
        match dim {
            0 => Some(self.0),
            1 => Some(self.1),
            2 => Some(self.2),
            _ => None,
        }
    }
}

impl<T: Copy + core::ops::Add<Output = T>> core::ops::Add for Vec3<T> {
    type Output = Vec3<T>;

    fn add(self, rhs: Vec3<T>) -> (r: Vec3<T>) {
        Vec3(self.0 + rhs.0, self.1 + rhs.1, self.2 + rhs.2)
    }
}

impl<T: Copy + core::ops::Add<Output = T>> vstd::std_specs::ops::AddSpecImpl for Vec3<T> {
    open spec fn obeys_add_spec() -> bool {
        T::obeys_add_spec()
    }

    open spec fn add_req(self, rhs: Vec3<T>) -> bool {
        &&& self.0.add_req(rhs.0)
        &&& self.1.add_req(rhs.1)
        &&& self.2.add_req(rhs.2)
    }

    open spec fn add_spec(self, rhs: Vec3<T>) -> Vec3<T> {
        Vec3(self.0.add_spec(rhs.0), self.1.add_spec(rhs.1), self.2.add_spec(rhs.2))
    }
}

impl<T: Copy + core::ops::Sub<Output = T>> core::ops::Sub for Vec3<T> {
    type Output = Vec3<T>;

    fn sub(self, rhs: Vec3<T>) -> (r: Vec3<T>) {
        Vec3(self.0 - rhs.0, self.1 - rhs.1, self.2 - rhs.2)
    }
}

impl<T: Copy + core::ops::Sub<Output = T>> vstd::std_specs::ops::SubSpecImpl for Vec3<T> {
    open spec fn obeys_sub_spec() -> bool {
        T::obeys_sub_spec()
    }

    open spec fn sub_req(self, rhs: Vec3<T>) -> bool {
        &&& self.0.sub_req(rhs.0)
        &&& self.1.sub_req(rhs.1)
        &&& self.2.sub_req(rhs.2)
    }

    open spec fn sub_spec(self, rhs: Vec3<T>) -> Vec3<T> {
        Vec3(self.0.sub_spec(rhs.0), self.1.sub_spec(rhs.1), self.2.sub_spec(rhs.2))
    }
}

impl<T: Copy + core::ops::Neg<Output = T>> core::ops::Neg for Vec3<T> {
    type Output = Vec3<T>;

    fn neg(self) -> (r: Vec3<T>) {
        Vec3(self.0.neg(), self.1.neg(), self.2.neg())
    }
}

impl<T: Copy + core::ops::Neg<Output = T>> vstd::std_specs::ops::NegSpecImpl for Vec3<T> {
    open spec fn obeys_neg_spec() -> bool {
        T::obeys_neg_spec()
    }

    open spec fn neg_req(self) -> bool {
        &&& self.0.neg_req()
        &&& self.1.neg_req()
        &&& self.2.neg_req()
    }

    open spec fn neg_spec(self) -> Vec3<T> {
        Vec3(self.0.neg_spec(), self.1.neg_spec(), self.2.neg_spec())
    }
}

/// Scaling by one scalar.
impl<T: Copy + core::ops::Mul<Output = T>> core::ops::Mul<T> for Vec3<T> {
    type Output = Vec3<T>;

    fn mul(self, c: T) -> (r: Vec3<T>) {
        Vec3(self.0 * c, self.1 * c, self.2 * c)
    }
}

impl<T: Copy + core::ops::Mul<Output = T>> vstd::std_specs::ops::MulSpecImpl<T> for Vec3<T> {
    open spec fn obeys_mul_spec() -> bool {
        T::obeys_mul_spec()
    }

    open spec fn mul_req(self, c: T) -> bool {
        &&& self.0.mul_req(c)
        &&& self.1.mul_req(c)
        &&& self.2.mul_req(c)
    }

    open spec fn mul_spec(self, c: T) -> Vec3<T> {
        Vec3(self.0.mul_spec(c), self.1.mul_spec(c), self.2.mul_spec(c))
    }
}

/// The componentwise product.
impl<T: Copy + core::ops::Mul<Output = T>> core::ops::Mul<Vec3<T>> for Vec3<T> {
    type Output = Vec3<T>;

    fn mul(self, rhs: Vec3<T>) -> (r: Vec3<T>) {
        Vec3(self.0 * rhs.0, self.1 * rhs.1, self.2 * rhs.2)
    }
}

impl<T: Copy + core::ops::Mul<Output = T>> vstd::std_specs::ops::MulSpecImpl<Vec3<T>> for Vec3<T> {
    open spec fn obeys_mul_spec() -> bool {
        T::obeys_mul_spec()
    }

    open spec fn mul_req(self, rhs: Vec3<T>) -> bool {
        &&& self.0.mul_req(rhs.0)
        &&& self.1.mul_req(rhs.1)
        &&& self.2.mul_req(rhs.2)
    }

    open spec fn mul_spec(self, rhs: Vec3<T>) -> Vec3<T> {
        Vec3(self.0.mul_spec(rhs.0), self.1.mul_spec(rhs.1), self.2.mul_spec(rhs.2))
    }
}

/// Division of every component by one scalar.
impl<T: Copy + core::ops::Div<Output = T>> core::ops::Div<T> for Vec3<T> {
    type Output = Vec3<T>;

    fn div(self, c: T) -> (r: Vec3<T>) {
        Vec3(self.0 / c, self.1 / c, self.2 / c)
    }
}

impl<T: Copy + core::ops::Div<Output = T>> vstd::std_specs::ops::DivSpecImpl<T> for Vec3<T> {
    open spec fn obeys_div_spec() -> bool {
        T::obeys_div_spec()
    }

    open spec fn div_req(self, c: T) -> bool {
        &&& self.0.div_req(c)
        &&& self.1.div_req(c)
        &&& self.2.div_req(c)
    }

    open spec fn div_spec(self, c: T) -> Vec3<T> {
        Vec3(self.0.div_spec(c), self.1.div_spec(c), self.2.div_spec(c))
    }
}

} // verus!
