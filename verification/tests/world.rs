use blocky::decoder::Decoder;
use blocky::encoder::Encoder;
use blocky::position::{BlockPosition, ChunkPosition};
use blocky::resources::{ResourceLocation, ResourceLocationError};

#[test]
fn test_block_position_round_trip() {
    let positions = [
        BlockPosition { x: 0, y: 0, z: 0 },
        BlockPosition { x: 100, y: 64, z: -200 },
        BlockPosition { x: -33554432, y: 0, z: 33554431 },
        BlockPosition { x: 123456, y: 4095, z: -654321 },
    ];
    for p in positions.iter() {
        let bytes = p.to_bytes().unwrap();
        assert_eq!(bytes.len(), 8);
        let back = BlockPosition::from_bytes(&bytes).unwrap();
        assert_eq!(back, *p);
    }
}

#[test]
fn test_block_position_packing() {
    // x = 1 sits in the top 26 bits, z = 2 in the middle, y = 3 at the
    // bottom of the 64-bit word.
    let p = BlockPosition { x: 1, y: 3, z: 2 };
    let bytes = p.to_bytes().unwrap();
    let word = u64::from_bytes(&bytes).unwrap();
    assert_eq!(word, (1u64 << 38) | (2u64 << 12) | 3u64);
}

#[test]
fn test_chunk_position_round_trip() {
    let p = ChunkPosition { x: -5, z: 1000 };
    let bytes = p.to_bytes().unwrap();
    assert_eq!(bytes.len(), 8);
    let back = ChunkPosition::from_bytes(&bytes).unwrap();
    assert_eq!(back, p);
}

#[test]
fn test_chunk_position_from_block() {
    assert_eq!(
        ChunkPosition::from(BlockPosition { x: 0, y: 0, z: 0 }),
        ChunkPosition { x: 0, z: 0 }
    );
    assert_eq!(
        ChunkPosition::from(BlockPosition { x: 17, y: 64, z: 31 }),
        ChunkPosition { x: 1, z: 1 }
    );
    assert_eq!(
        ChunkPosition::from(BlockPosition { x: -1, y: 64, z: -16 }),
        ChunkPosition { x: -1, z: -1 }
    );
    assert_eq!(
        ChunkPosition::from(BlockPosition { x: -17, y: 64, z: -33 }),
        ChunkPosition { x: -2, z: -3 }
    );
}

#[test]
fn test_resource_location_new_valid() {
    let rl = ResourceLocation::new("blocky", "entity/zombie").unwrap();
    assert_eq!(rl.namespace, "blocky");
    assert_eq!(rl.path, "entity/zombie");
    assert!(rl.is_valid());
}

#[test]
fn test_resource_location_new_invalid() {
    assert_eq!(
        ResourceLocation::new("Bad", "path"),
        Err(ResourceLocationError::InvalidNamespace)
    );
    assert_eq!(
        ResourceLocation::new("ok", "Bad Path"),
        Err(ResourceLocationError::InvalidPath)
    );
    assert_eq!(
        ResourceLocation::new("ok/slash", "p"),
        Err(ResourceLocationError::InvalidNamespace)
    );
}

#[test]
fn test_resource_location_from_str_with_colon() {
    let rl = ResourceLocation::from_str("blocky:stone").unwrap();
    assert_eq!(rl.namespace, "blocky");
    assert_eq!(rl.path, "stone");
}

#[test]
fn test_resource_location_from_str_default_namespace() {
    let rl = ResourceLocation::from_str("stone").unwrap();
    assert_eq!(rl.namespace, "minecraft");
    assert_eq!(rl.path, "stone");
}

#[test]
fn test_resource_location_from_str_second_colon_rejected() {
    assert_eq!(
        ResourceLocation::from_str("a:b:c"),
        Err(ResourceLocationError::InvalidPath)
    );
}

#[test]
fn test_resource_location_to_string() {
    let rl = ResourceLocation::new("blocky", "dirt").unwrap();
    assert_eq!(rl.to_string(), "blocky:dirt");
}
