use voxel::blocks::FaceType;
use voxel::face::FaceData;

#[test]
fn pack_places_each_field() {
    let f = FaceData::pack(1, 2, 3, 4, FaceType::Stone);
    assert_eq!(f.data(), (1u32 << 28) | (2 << 24) | (3 << 20) | (4 << 12) | (2 << 4));
    assert_eq!(f.data(), 0x1230_4020);
}

#[test]
fn pack_extremes() {
    let f = FaceData::pack(15, 15, 15, 5, FaceType::Dirt);
    assert_eq!(f.data(), 0xFFF0_5010);
    let g = FaceData::pack(0, 0, 0, 0, FaceType::Moss);
    assert_eq!(g.data(), 0);
}

#[test]
fn pack_then_unpack_round_trips() {
    let tiles = [FaceType::Moss, FaceType::Dirt, FaceType::Stone];
    for x in 0..16usize {
        for y in 0..16usize {
            for z in 0..16usize {
                for d in 0..6u32 {
                    for t in tiles {
                        let f = FaceData::pack(x, y, z, d, t);
                        assert_eq!(f.unpack(), (x as u32, y as u32, z as u32, d, t.index()));
                    }
                }
            }
        }
    }
}

#[test]
fn unpack_reads_the_full_face_id_range() {
    let f = FaceData::pack(7, 8, 9, 3, FaceType::Dirt);
    assert_eq!(f.unpack(), (7, 8, 9, 3, 1));
}

#[test]
fn raw_words_decode_by_field() {
    let f = FaceData::from_data(0xABC3_07F0);
    assert_eq!(f.data(), 0xABC3_07F0);
    assert_eq!(f.unpack(), (0xA, 0xB, 0xC, 0x30, 0x7F));
}
