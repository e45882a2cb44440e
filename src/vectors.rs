//! The vector and rotation types of `glam`, carried through the library as
//! opaque values: the library stores, copies and hands them to the caller's
//! geometry, and never looks inside.
use vstd::prelude::*;

verus! {

/// `glam::Vec3`, a position or direction in world space. Declared opaque:
/// nothing is assumed of its contents or of any of its methods.
#[verifier::external_type_specification]
#[verifier::external_body]
pub struct ExVec3(glam::Vec3);

/// `glam::Quat`, the rotation that orients a projectile's visual. Declared
/// opaque: nothing is assumed of its contents or of any of its methods.
#[verifier::external_type_specification]
#[verifier::external_body]
pub struct ExQuat(glam::Quat);

} // verus!
