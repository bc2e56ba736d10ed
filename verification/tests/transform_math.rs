//! Cross-checks of the transform arithmetic against glam computed
//! directly, bit for bit.

use fire_and_sword::instance::Instance;
use fire_and_sword::math::{AffineBits, QuatBits, Vec3Bits, Vec4Bits};

fn v3(x: f32, y: f32, z: f32) -> Vec3Bits {
    Vec3Bits { x: x.to_bits(), y: y.to_bits(), z: z.to_bits() }
}

fn affine_of(a: &AffineBits) -> glam::Affine3A {
    let mut cols = [0.0f32; 12];
    for (slot, word) in cols.iter_mut().zip(a.words.iter()) {
        *slot = f32::from_bits(*word);
    }
    glam::Affine3A::from_cols_array(&cols)
}

fn bits_of(a: glam::Affine3A) -> [u32; 12] {
    a.to_cols_array().map(f32::to_bits)
}

fn sample_transforms() -> Vec<AffineBits> {
    let rot = QuatBits::identity();
    vec![
        AffineBits::identity(),
        AffineBits::from_scale_rotation_translation(&v3(1.0, 1.0, 1.0), &rot, &v3(3.0, -1.0, 0.5)),
        AffineBits::from_scale_rotation_translation(&v3(2.0, 0.5, 1.5), &rot, &v3(0.0, 4.0, 0.0)),
        {
            let q = glam::Quat::from_rotation_y(std::f32::consts::FRAC_PI_2).to_array();
            AffineBits::from_scale_rotation_translation(
                &v3(1.0, 1.0, 1.0),
                &QuatBits {
                    x: q[0].to_bits(),
                    y: q[1].to_bits(),
                    z: q[2].to_bits(),
                    w: q[3].to_bits(),
                },
                &v3(-2.0, 0.0, 7.0),
            )
        },
    ]
}

#[test]
fn composition_matches_glam_bit_for_bit() {
    let ts = sample_transforms();
    for a in &ts {
        for b in &ts {
            let composed = a.compose(b);
            let expected = bits_of(affine_of(a) * affine_of(b));
            assert_eq!(composed.words, expected);
        }
    }
}

#[test]
fn stepwise_composition_matches_sequential_multiplication() {
    // composing along a path one step at a time agrees with multiplying
    // the whole path out left to right
    let ts = sample_transforms();
    let mut stepwise = AffineBits::identity();
    for t in &ts {
        stepwise = stepwise.compose(t);
    }
    let mut reference = affine_of(&AffineBits::identity());
    for t in &ts {
        reference = reference * affine_of(t);
    }
    assert_eq!(stepwise.words, bits_of(reference));
}

#[test]
fn decompose_recovers_rotation_and_translation() {
    let t = AffineBits::from_scale_rotation_translation(
        &v3(2.0, 2.0, 2.0),
        &QuatBits::identity(),
        &v3(5.0, 6.0, 7.0),
    );
    let (rot, trans) = t.decompose();
    let (_s, expected_rot, expected_trans) = affine_of(&t).to_scale_rotation_translation();
    let eq = expected_rot.to_array();
    assert_eq!([rot.x, rot.y, rot.z, rot.w], eq.map(f32::to_bits));
    let et = expected_trans.to_array();
    assert_eq!([trans.x, trans.y, trans.z], et.map(f32::to_bits));
    assert_eq!(trans, v3(5.0, 6.0, 7.0));
}

#[test]
fn vector_addition_matches_glam() {
    let a = v3(1.5, -2.25, 1000.125);
    let b = v3(0.25, 7.0, -0.125);
    let sum = a.add(&b);
    assert_eq!(sum, v3(1.75, 4.75, 1000.0));
}

#[test]
fn transformed_instance_composes_rotation_in_transform_first_order() {
    // the transform's rotation is composed onto the instance's rotation,
    // with the transform's on the left; the two orders differ, so this
    // pins the order down
    let qy = glam::Quat::from_rotation_y(std::f32::consts::FRAC_PI_2);
    let qx = glam::Quat::from_rotation_x(std::f32::consts::FRAC_PI_2);
    let qy_arr = qy.to_array();
    let t = AffineBits::from_scale_rotation_translation(
        &v3(1.0, 1.0, 1.0),
        &QuatBits {
            x: qy_arr[0].to_bits(),
            y: qy_arr[1].to_bits(),
            z: qy_arr[2].to_bits(),
            w: qy_arr[3].to_bits(),
        },
        &v3(0.0, 0.0, 0.0),
    );
    let qx_arr = qx.to_array();
    let inst = Instance {
        position: Vec4Bits { x: 0, y: 0, z: 0, w: 0 },
        rotation: QuatBits {
            x: qx_arr[0].to_bits(),
            y: qx_arr[1].to_bits(),
            z: qx_arr[2].to_bits(),
            w: qx_arr[3].to_bits(),
        },
    };
    let moved = inst.transformed(&t);
    // expected: (rotation recovered from the transform) * (instance rotation)
    let (_s, recovered, _t) = affine_of(&t).to_scale_rotation_translation();
    let expected = (recovered * qx).to_array().map(f32::to_bits);
    assert_eq!(
        [moved.rotation.x, moved.rotation.y, moved.rotation.z, moved.rotation.w],
        expected
    );
    let other_order = (qx * recovered).to_array().map(f32::to_bits);
    assert_ne!(
        [moved.rotation.x, moved.rotation.y, moved.rotation.z, moved.rotation.w],
        other_order
    );
}

#[test]
fn transformed_instance_adds_translation_only() {
    // position picks up the transform's translation; the existing position
    // component is neither scaled nor rotated
    let t = AffineBits::from_scale_rotation_translation(
        &v3(3.0, 3.0, 3.0),
        &QuatBits::identity(),
        &v3(10.0, 0.0, 0.0),
    );
    let inst = Instance {
        position: Vec4Bits {
            x: 1.0f32.to_bits(),
            y: 2.0f32.to_bits(),
            z: 4.0f32.to_bits(),
            w: 1.0f32.to_bits(),
        },
        rotation: QuatBits::identity(),
    };
    let moved = inst.transformed(&t);
    assert_eq!(f32::from_bits(moved.position.x), 11.0);
    assert_eq!(f32::from_bits(moved.position.y), 2.0);
    assert_eq!(f32::from_bits(moved.position.z), 4.0);
    assert_eq!(f32::from_bits(moved.position.w), 1.0);
}
