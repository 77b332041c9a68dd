//! Points, directions and colours: three numbers each.
//!
//! The arithmetic on them is done outside this crate. Here they are made,
//! turned round and, as colours, brought down to eight bits per channel.

use vstd::prelude::*;
use crate::scalar::Scalar;

verus! {

/// Three numbers: a point, a direction or a colour.
#[derive(Clone, Copy, Debug)]
pub struct Vec3 {
    pub x: Scalar,
    pub y: Scalar,
    pub z: Scalar,
}

/// The encoding of 255.99, by which a channel is scaled on its way to a
/// byte.
pub const CHANNEL_SCALE_BITS: u64 = 0x406f_ffae_147a_e148;

pub type Point3 = Vec3;

pub type Color = Vec3;

/// The byte of one channel of a colour. Below zero it is 0, from exactly
/// one upwards it is 255. In between it is the whole part of `scaled`,
/// which is the channel times 255.99. A channel that stands for no number
/// has the byte of `scaled`, which is 0 where that stands for no number
/// either.
pub open spec fn channel_byte(channel: Scalar, scaled: Scalar) -> u8 {
    if channel.less(Scalar::zero()) {
        0u8
    } else if channel.at_least(Scalar::one()) {
        255u8
    } else {
        scaled.byte()
    }
}

fn channel_to_byte(channel: Scalar, scaled: Scalar) -> (byte: u8)
    ensures
        byte == channel_byte(channel, scaled),
{
    if channel.lt(Scalar::zero()) {
        0
    } else if channel.ge(Scalar::one()) {
        255
    } else {
        scaled.to_byte()
    }
}

impl Vec3 {
    /// The vector with its components negated.
    pub open spec fn negated(self) -> Vec3 {
        Vec3 { x: self.x.negated(), y: self.y.negated(), z: self.z.negated() }
    }

    /// The red, green and blue byte of a colour whose channels times 255.99
    /// are `scaled`.
    pub open spec fn bytes(self, scaled: Vec3) -> Seq<u8> {
        seq![
            channel_byte(self.x, scaled.x),
            channel_byte(self.y, scaled.y),
            channel_byte(self.z, scaled.z),
        ]
    }

    pub fn new(x: Scalar, y: Scalar, z: Scalar) -> (vector: Vec3)
        ensures
            vector == (Vec3 { x, y, z }),
    {
        Vec3 { x, y, z }
    }

    /// The colour in eight bits per channel, given as `scaled` the colour
    /// times 255.99.
    pub fn to_rgb(&self, scaled: Vec3) -> (rgb: [u8; 3])
        ensures
            rgb@ == self.bytes(scaled),
    {
        [
            channel_to_byte(self.x, scaled.x),
            channel_to_byte(self.y, scaled.y),
            channel_to_byte(self.z, scaled.z),
        ]
    }
}

impl core::ops::Neg for Vec3 {
    type Output = Vec3;

    fn neg(self) -> (negated: Vec3) {
        Vec3 { x: self.x.neg(), y: self.y.neg(), z: self.z.neg() }
    }
}

impl vstd::std_specs::ops::NegSpecImpl for Vec3 {
    open spec fn obeys_neg_spec() -> bool {
        true
    }

    open spec fn neg_req(self) -> bool {
        true
    }

    open spec fn neg_spec(self) -> Vec3 {
        self.negated()
    }
}

} // verus!
