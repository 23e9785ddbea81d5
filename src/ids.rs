use vstd::prelude::*;

verus! {

/// The identity of a shape: the 128-bit value of a random version-4 UUID.
#[derive(Clone, Copy, Debug, PartialEq, Eq, Structural, Hash)]
pub struct ShapeId(pub u128);

/// Relies on `uuid::Uuid::new_v4` followed by `Uuid::as_u128`: a random UUID
/// whose version nibble (bits 76 to 79 of the big-endian value) is set to 4.
#[verifier::external_body]
fn random_uuid_value() -> (r: u128)
    ensures
        (r >> 76u128) & 0xfu128 == 4,
{
    uuid::Uuid::new_v4().as_u128()
}

impl ShapeId {
    /// A fresh random identity.
    pub fn new_v4() -> (r: ShapeId)
        ensures
            r.version() == 4,
    {
        ShapeId(random_uuid_value())
    }

    /// The UUID version field of this identity.
    pub open spec fn version(self) -> u128 {
        (self.0 >> 76u128) & 0xfu128
    }
}

} // verus!
