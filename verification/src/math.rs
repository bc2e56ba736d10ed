//! Geometry values carried as IEEE-754 bit patterns.
//!
//! The batching logic never inspects coordinates; it only threads them
//! through compositions. Each value here stores the raw 32-bit words of the
//! underlying single-precision floats, and every arithmetic operation is an
//! opaque, deterministic function of those words, computed by glam behind a
//! trusted wrapper and named by an uninterpreted spec function.

use vstd::prelude::*;

verus! {

/// A three-component vector, one 32-bit word per component.
#[derive(Debug, Clone, Copy, PartialEq, Eq, Structural)]
pub struct Vec3Bits {
    pub x: u32,
    pub y: u32,
    pub z: u32,
}

/// A four-component vector, one 32-bit word per component.
#[derive(Debug, Clone, Copy, PartialEq, Eq, Structural)]
pub struct Vec4Bits {
    pub x: u32,
    pub y: u32,
    pub z: u32,
    pub w: u32,
}

/// A quaternion, one 32-bit word per component.
#[derive(Debug, Clone, Copy, PartialEq, Eq, Structural)]
pub struct QuatBits {
    pub x: u32,
    pub y: u32,
    pub z: u32,
    pub w: u32,
}

/// An affine transform: a 3x3 linear part followed by a translation,
/// stored column-major as twelve 32-bit words.
#[derive(Debug, Clone, Copy, PartialEq, Eq)]
pub struct AffineBits {
    pub words: [u32; 12],
}

/// A 4x4 matrix stored column-major as sixteen 32-bit words, carried
/// opaquely from the camera to the uniform buffer write.
#[derive(Debug, Clone, Copy, PartialEq, Eq)]
pub struct Mat4Bits {
    pub words: [u32; 16],
}

/// The bit pattern of the single-precision value one.
pub const FLOAT_ONE_BITS: u32 = 0x3F80_0000;

/// What composing two affine transforms yields.
pub uninterp spec fn affine_mul_of(a: AffineBits, b: AffineBits) -> AffineBits;

/// The rotation and translation parts of an affine transform.
pub uninterp spec fn affine_decompose_of(t: AffineBits) -> (QuatBits, Vec3Bits);

/// What adding two vectors yields.
pub uninterp spec fn vec3_add_of(a: Vec3Bits, b: Vec3Bits) -> Vec3Bits;

/// What composing two quaternions yields.
pub uninterp spec fn quat_mul_of(a: QuatBits, b: QuatBits) -> QuatBits;

/// The affine transform built from a scale, a rotation and a translation.
pub uninterp spec fn affine_from_srt_of(
    scale: Vec3Bits,
    rotation: QuatBits,
    translation: Vec3Bits,
) -> AffineBits;

/// Relies on glam::Affine3A's `Mul` impl: composes two affine transforms.
#[verifier::external_body]
fn affine_mul_raw(a: &AffineBits, b: &AffineBits) -> (r: AffineBits)
    ensures
        r == affine_mul_of(*a, *b),
{
    let fa = glam::Affine3A::from_cols_array(&bytemuck::cast(a.words));
    let fb = glam::Affine3A::from_cols_array(&bytemuck::cast(b.words));
    AffineBits { words: bytemuck::cast((fa * fb).to_cols_array()) }
}

/// Relies on glam::Affine3A::to_scale_rotation_translation: recovers the
/// rotation and translation of an affine transform; the scale is dropped.
#[verifier::external_body]
fn affine_decompose_raw(t: &AffineBits) -> (r: (QuatBits, Vec3Bits))
    ensures
        r == affine_decompose_of(*t),
{
    let fa = glam::Affine3A::from_cols_array(&bytemuck::cast(t.words));
    let (_scale, rot, trans) = fa.to_scale_rotation_translation();
    let q: [u32; 4] = bytemuck::cast(rot.to_array());
    let v: [u32; 3] = bytemuck::cast(trans.to_array());
    (QuatBits { x: q[0], y: q[1], z: q[2], w: q[3] }, Vec3Bits { x: v[0], y: v[1], z: v[2] })
}

/// Relies on glam::Vec3's `Add` impl: adds two vectors componentwise.
#[verifier::external_body]
fn vec3_add_raw(a: &Vec3Bits, b: &Vec3Bits) -> (r: Vec3Bits)
    ensures
        r == vec3_add_of(*a, *b),
{
    let fa = glam::Vec3::from_array(bytemuck::cast([a.x, a.y, a.z]));
    let fb = glam::Vec3::from_array(bytemuck::cast([b.x, b.y, b.z]));
    let s: [u32; 3] = bytemuck::cast((fa + fb).to_array());
    Vec3Bits { x: s[0], y: s[1], z: s[2] }
}

/// Relies on glam::Quat's `Mul` impl: combines two rotations.
#[verifier::external_body]
fn quat_mul_raw(a: &QuatBits, b: &QuatBits) -> (r: QuatBits)
    ensures
        r == quat_mul_of(*a, *b),
{
    let fa = glam::Quat::from_array(bytemuck::cast([a.x, a.y, a.z, a.w]));
    let fb = glam::Quat::from_array(bytemuck::cast([b.x, b.y, b.z, b.w]));
    let s: [u32; 4] = bytemuck::cast((fa * fb).to_array());
    QuatBits { x: s[0], y: s[1], z: s[2], w: s[3] }
}

/// Relies on glam::Affine3A::from_scale_rotation_translation: builds an
/// affine transform from its three parts.
#[verifier::external_body]
fn affine_from_srt_raw(scale: &Vec3Bits, rotation: &QuatBits, translation: &Vec3Bits) -> (r:
    AffineBits)
    ensures
        r == affine_from_srt_of(*scale, *rotation, *translation),
{
    let s = glam::Vec3::from_array(bytemuck::cast([scale.x, scale.y, scale.z]));
    let q = glam::Quat::from_array(bytemuck::cast([rotation.x, rotation.y, rotation.z, rotation.w]));
    let t = glam::Vec3::from_array(bytemuck::cast([translation.x, translation.y, translation.z]));
    AffineBits { words: bytemuck::cast(glam::Affine3A::from_scale_rotation_translation(s, q, t).to_cols_array()) }
}

impl Vec3Bits {
    /// Componentwise vector addition.
    pub fn add(&self, other: &Vec3Bits) -> (r: Vec3Bits)
        ensures
            r == vec3_add_of(*self, *other),
    {
        vec3_add_raw(self, other)
    }
}

impl QuatBits {
    /// The rotation that does nothing.
    pub open spec fn spec_identity() -> QuatBits {
        QuatBits { x: 0, y: 0, z: 0, w: FLOAT_ONE_BITS }
    }

    /// The rotation that does nothing.
    pub fn identity() -> (r: QuatBits)
        ensures
            r == QuatBits::spec_identity(),
    {
        QuatBits { x: 0, y: 0, z: 0, w: FLOAT_ONE_BITS }
    }

    /// Combines two rotations; `self` is applied after `other`.
    pub fn mul(&self, other: &QuatBits) -> (r: QuatBits)
        ensures
            r == quat_mul_of(*self, *other),
    {
        quat_mul_raw(self, other)
    }
}

impl AffineBits {
    /// Composes two transforms; the result applies `other` first, `self` second.
    pub fn compose(&self, other: &AffineBits) -> (r: AffineBits)
        ensures
            r == affine_mul_of(*self, *other),
    {
        affine_mul_raw(self, other)
    }

    /// The rotation and translation parts of this transform.
    pub fn decompose(&self) -> (r: (QuatBits, Vec3Bits))
        ensures
            r == affine_decompose_of(*self),
    {
        affine_decompose_raw(self)
    }

    /// Builds a transform from a scale, a rotation and a translation.
    pub fn from_scale_rotation_translation(scale: &Vec3Bits, rotation: &QuatBits, translation:
        &Vec3Bits) -> (r: AffineBits)
        ensures
            r == affine_from_srt_of(*scale, *rotation, *translation),
    {
        affine_from_srt_raw(scale, rotation, translation)
    }

    /// The transform that moves nothing: identity linear part, zero translation.
    pub open spec fn spec_identity() -> AffineBits {
        AffineBits {
            words: [
                FLOAT_ONE_BITS,
                0,
                0,
                0,
                FLOAT_ONE_BITS,
                0,
                0,
                0,
                FLOAT_ONE_BITS,
                0,
                0,
                0,
            ],
        }
    }

    /// The transform that moves nothing.
    pub fn identity() -> (r: AffineBits)
        ensures
            r == AffineBits::spec_identity(),
    {
        AffineBits {
            words: [
                FLOAT_ONE_BITS,
                0,
                0,
                0,
                FLOAT_ONE_BITS,
                0,
                0,
                0,
                FLOAT_ONE_BITS,
                0,
                0,
                0,
            ],
        }
    }
}

impl Mat4Bits {
    /// Wraps sixteen raw words as a matrix value.
    pub fn from_words(words: [u32; 16]) -> (r: Mat4Bits)
        ensures
            r.words == words,
    {
        Mat4Bits { words }
    }
}

} // verus!
