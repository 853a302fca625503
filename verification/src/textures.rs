//! Textures: a point-to-colour capability.  Only the constant variant
//! exists; materials consume it for their attenuation and emission.

use vstd::prelude::*;

use crate::vector3::Vector;

verus! {

/// A texture that returns the same colour everywhere.
#[derive(Clone, Copy, PartialEq, Eq, Structural, Debug)]
pub struct ConstantTexture {
    pub color: Vector,
}

impl ConstantTexture {
    /// Builds the texture from its colour.
    pub fn new(color: Vector) -> (r: ConstantTexture)
        ensures
            r.color == color,
    {
        ConstantTexture { color }
    }

    /// The colour at a point: the stored colour.
    pub fn value(&self, _p: Vector) -> (r: Vector)
        ensures
            r == self.color,
    {
        self.color
    }
}

/// The closed family of textures.
#[derive(Clone, Copy, PartialEq, Eq, Structural, Debug)]
pub enum Texture {
    Constant(ConstantTexture),
}

/// The colour a texture yields at a point.
pub open spec fn texture_value_spec(t: Texture, p: Vector) -> Vector {
    match t {
        Texture::Constant(c) => c.color,
    }
}

impl Texture {
    /// Evaluates the texture at a point.
    pub fn value(&self, p: Vector) -> (r: Vector)
        ensures
            r == texture_value_spec(*self, p),
    {
        match self {
            Texture::Constant(c) => c.value(p),
        }
    }
}

} // verus!
