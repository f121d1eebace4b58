//! Packed per-instance face records, read bit for bit by the vertex shader.
//!
//! Layout of the 32-bit word, most significant first:
//! bits 31..28 x, 27..24 y, 23..20 z, 19..12 direction, 11..4 face identifier,
//! 3..0 zero. Directions: 0 +X, 1 -X, 2 +Y, 3 -Y, 4 +Z, 5 -Z.
use vstd::prelude::*;
use crate::blocks::FaceType;

verus! {

/// The word that encodes one face.
pub open spec fn pack_bits(x: u32, y: u32, z: u32, normal: u32, face_id: u32) -> u32 {
    (x << 28u32) | (y << 24u32) | (z << 20u32) | (normal << 12u32) | (face_id << 4u32)
}

pub open spec fn field_x(w: u32) -> u32 {
    (w >> 28u32) & 0xFu32
}

pub open spec fn field_y(w: u32) -> u32 {
    (w >> 24u32) & 0xFu32
}

pub open spec fn field_z(w: u32) -> u32 {
    (w >> 20u32) & 0xFu32
}

pub open spec fn field_normal(w: u32) -> u32 {
    (w >> 12u32) & 0xFFu32
}

pub open spec fn field_face_id(w: u32) -> u32 {
    (w >> 4u32) & 0xFFu32
}

/// Decoding a packed word gives back every field that fits its slot:
/// x, y, z below 16, the direction below 6 and the face identifier below 256.
pub proof fn lemma_pack_round_trip(x: u32, y: u32, z: u32, normal: u32, face_id: u32)
    requires
        x < 16,
        y < 16,
        z < 16,
        normal < 6,
        face_id < 256,
    ensures
        field_x(pack_bits(x, y, z, normal, face_id)) == x,
        field_y(pack_bits(x, y, z, normal, face_id)) == y,
        field_z(pack_bits(x, y, z, normal, face_id)) == z,
        field_normal(pack_bits(x, y, z, normal, face_id)) == normal,
        field_face_id(pack_bits(x, y, z, normal, face_id)) == face_id,
{
    assert(field_x(pack_bits(x, y, z, normal, face_id)) == x
        && field_y(pack_bits(x, y, z, normal, face_id)) == y
        && field_z(pack_bits(x, y, z, normal, face_id)) == z
        && field_normal(pack_bits(x, y, z, normal, face_id)) == normal
        && field_face_id(pack_bits(x, y, z, normal, face_id)) == face_id) by (bit_vector)
        requires
            x < 16,
            y < 16,
            z < 16,
            normal < 6,
            face_id < 256,
    ;
}

/// One visible face of a voxel, as the GPU reads it.
#[derive(Clone, Copy, PartialEq, Eq, Structural, Debug)]
pub struct FaceData {
    data: u32,
}

impl View for FaceData {
    type V = u32;

    closed spec fn view(&self) -> u32 {
        self.data
    }
}

impl FaceData {
    /// Packs a voxel's local position, the face direction and the face tile.
    /// Coordinates above 15 or a direction above 5 do not fit the layout.
    pub fn pack(x: usize, y: usize, z: usize, normal: u32, face_id: FaceType) -> (r: Self)
        requires
            x < 16,
            y < 16,
            z < 16,
            normal < 6,
        ensures
            r@ == pack_bits(x as u32, y as u32, z as u32, normal, face_id.index()),
    {
        let (xx, yy, zz) = (x as u32, y as u32, z as u32);
        let id = face_id.index();
        FaceData {
            data: (xx << 28u32) | (yy << 24u32) | (zz << 20u32) | (normal << 12u32) | (id << 4u32),
        }
    }

    /// A record from its raw instance word.
    pub fn from_data(data: u32) -> (r: Self)
        ensures
            r@ == data,
    {
        FaceData { data }
    }

    /// The raw instance word.
    pub fn data(&self) -> (r: u32)
        ensures
            r == self@,
    {
        self.data
    }

    /// Decodes `(x, y, z, direction, face identifier)` from the word.
    pub fn unpack(&self) -> (r: (u32, u32, u32, u32, u32))
        ensures
            r == (field_x(self@), field_y(self@), field_z(self@), field_normal(self@), field_face_id(self@)),
    {
        let w = self.data;
        ((w >> 28u32) & 0xF, (w >> 24u32) & 0xF, (w >> 20u32) & 0xF, (w >> 12u32) & 0xFF, (w >> 4u32) & 0xFF)
    }
}

} // verus!
