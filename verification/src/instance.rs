//! Per-placement instance records.
//!
//! An instance record describes one placement of a drawable: a world
//! position and a rotation. Records are plain values, copied into staging
//! lists and, from there, into the GPU-resident instance buffers.

use crate::math::{
    affine_decompose_of, quat_mul_of, vec3_add_of, AffineBits, QuatBits, Vec3Bits, Vec4Bits,
    FLOAT_ONE_BITS,
};
use vstd::prelude::*;

verus! {

/// One placement of a drawable: world position and rotation.
#[derive(Debug, Clone, Copy, PartialEq, Eq, Structural)]
pub struct Instance {
    pub position: Vec4Bits,
    pub rotation: QuatBits,
}

impl Instance {
    /// The identity placement: zero position, identity rotation.
    pub open spec fn spec_identity() -> Instance {
        Instance {
            position: Vec4Bits { x: 0, y: 0, z: 0, w: 0 },
            rotation: QuatBits::spec_identity(),
        }
    }

    /// The identity placement: zero position, identity rotation.
    pub fn identity() -> (r: Instance)
        ensures
            r == Instance::spec_identity(),
    {
        Instance {
            position: Vec4Bits { x: 0, y: 0, z: 0, w: 0 },
            rotation: QuatBits::identity(),
        }
    }

    /// How a transform moves a placement.
    ///
    /// Only the transform's translation is added to the position (its
    /// rotation and scale are not applied to the existing position
    /// component), and the transform's rotation is composed onto the
    /// record's rotation. The new position's fourth component is set to one.
    pub open spec fn spec_transformed(self, t: AffineBits) -> Instance {
        Instance {
            position: Vec4Bits {
                x: vec3_add_of(
                    affine_decompose_of(t).1,
                    Vec3Bits { x: self.position.x, y: self.position.y, z: self.position.z },
                ).x,
                y: vec3_add_of(
                    affine_decompose_of(t).1,
                    Vec3Bits { x: self.position.x, y: self.position.y, z: self.position.z },
                ).y,
                z: vec3_add_of(
                    affine_decompose_of(t).1,
                    Vec3Bits { x: self.position.x, y: self.position.y, z: self.position.z },
                ).z,
                w: FLOAT_ONE_BITS,
            },
            rotation: quat_mul_of(affine_decompose_of(t).0, self.rotation),
        }
    }

    /// Applies a transform to this placement; see `spec_transformed`.
    pub fn transformed(&self, t: &AffineBits) -> (r: Instance)
        ensures
            r == self.spec_transformed(*t),
    {
        let (rot, trans) = t.decompose();
        let moved = trans.add(
            &Vec3Bits { x: self.position.x, y: self.position.y, z: self.position.z },
        );
        Instance {
            position: Vec4Bits { x: moved.x, y: moved.y, z: moved.z, w: FLOAT_ONE_BITS },
            rotation: rot.mul(&self.rotation),
        }
    }
}

} // verus!
