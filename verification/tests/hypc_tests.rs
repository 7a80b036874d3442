use symtex::agent::{extract_discovered, ids_to_point_set};
use symtex::hypc::{
    parse_hypc_bytes, serialize_tile, smc1_decode_rle, smc1_encode_rle, EcefUnits, GeoExtentQ7,
    HypcError, HypcTile, PointUnits, Smc1Chunk, Smc1CoordSpace, Smc1Encoding, HYPC_VERSION,
};

fn base_tile() -> HypcTile {
    HypcTile {
        units_per_meter: 1000,
        anchor_ecef_units: EcefUnits { x: 4_000_000_000, y: -3_000_000_123, z: 12345 },
        tile_key: None,
        points_units: vec![
            PointUnits { x: 1, y: -2, z: 3 },
            PointUnits { x: -40, y: 50, z: -60 },
        ],
        labels: None,
        geot: None,
        smc1: None,
    }
}

#[test]
fn rle_round_trip_simple() {
    let raw = [7u8, 7, 7, 1, 2, 2];
    let enc = smc1_encode_rle(&raw);
    assert_eq!(enc, vec![3, 0, 7, 1, 0, 1, 2, 0, 2]);
    let dec = smc1_decode_rle(&enc).unwrap();
    assert_eq!(dec, raw.to_vec());
}

#[test]
fn rle_round_trip_empty() {
    let enc = smc1_encode_rle(&[]);
    assert!(enc.is_empty());
    assert!(smc1_decode_rle(&enc).unwrap().is_empty());
}

#[test]
fn rle_long_run_splits_at_u16_max() {
    let raw = vec![9u8; 70000];
    let enc = smc1_encode_rle(&raw);
    assert_eq!(enc.len(), 6, "two records: 65535 + 4465");
    assert_eq!(u16::from_le_bytes([enc[0], enc[1]]), 65535);
    assert_eq!(enc[2], 9);
    assert_eq!(u16::from_le_bytes([enc[3], enc[4]]), 4465);
    assert_eq!(enc[5], 9);
    let dec = smc1_decode_rle(&enc).unwrap();
    assert_eq!(dec, raw);
}

#[test]
fn rle_decode_rejects_partial_record() {
    assert_eq!(smc1_decode_rle(&[3, 0]).unwrap_err(), HypcError::RleTruncated);
    assert_eq!(smc1_decode_rle(&[3, 0, 7, 1]).unwrap_err(), HypcError::RleTruncated);
}

#[test]
fn rle_encode_explicit_bytes() {
    // Greedy maximal runs: a record with a short run is never followed by
    // another record of the same byte.
    assert_eq!(smc1_encode_rle(&[5, 5, 5, 9]), vec![3, 0, 5, 1, 0, 9]);
    assert_eq!(smc1_encode_rle(&[8]), vec![1, 0, 8]);
}

#[test]
fn rle_decode_explicit_bytes() {
    let dec = smc1_decode_rle(&[3, 0, 5, 2, 0, 8]).unwrap();
    assert_eq!(dec, vec![5, 5, 5, 8, 8]);
}

#[test]
fn tile_round_trip_minimal() {
    let tile = base_tile();
    let bytes = serialize_tile(&tile).unwrap();
    let back = parse_hypc_bytes(&bytes).unwrap();
    assert_eq!(back.units_per_meter, 1000);
    assert_eq!(back.anchor_ecef_units, tile.anchor_ecef_units);
    assert!(back.tile_key.is_none());
    assert_eq!(back.points_units, tile.points_units);
    assert!(back.labels.is_none());
    assert!(back.geot.is_none());
    assert!(back.smc1.is_none());
}

#[test]
fn tile_round_trip_all_chunks() {
    let mut tile = base_tile();
    tile.tile_key = Some((0u8..32).collect());
    tile.labels = Some(vec![1, 2]);
    tile.geot = Some(GeoExtentQ7 {
        lon_min_q7: -1800000000,
        lon_max_q7: 1800000000,
        lat_min_q7: -900000000,
        lat_max_q7: 900000000,
    });
    tile.smc1 = Some(Smc1Chunk {
        width: 4,
        height: 2,
        coord_space: Smc1CoordSpace::Crs84BboxNorm,
        encoding: Smc1Encoding::Rle,
        palette: vec![(1, 10), (2, 20)],
        data: smc1_encode_rle(&[1, 1, 1, 1, 2, 2, 2, 2]),
    });
    let bytes = serialize_tile(&tile).unwrap();
    let back = parse_hypc_bytes(&bytes).unwrap();
    assert_eq!(back.tile_key, tile.tile_key);
    assert_eq!(back.points_units, tile.points_units);
    assert_eq!(back.labels, tile.labels);
    assert_eq!(back.geot, tile.geot);
    let smc1 = back.smc1.unwrap();
    assert_eq!(smc1.width, 4);
    assert_eq!(smc1.height, 2);
    assert_eq!(smc1.coord_space, Smc1CoordSpace::Crs84BboxNorm);
    assert_eq!(smc1.encoding, Smc1Encoding::Rle);
    assert_eq!(smc1.palette, vec![(1, 10), (2, 20)]);
    assert_eq!(smc1_decode_rle(&smc1.data).unwrap(), vec![1, 1, 1, 1, 2, 2, 2, 2]);
}

#[test]
fn tile_header_layout_is_little_endian() {
    let tile = base_tile();
    let bytes = serialize_tile(&tile).unwrap();
    assert_eq!(&bytes[0..4], b"HYPC");
    assert_eq!(u32::from_le_bytes([bytes[4], bytes[5], bytes[6], bytes[7]]), HYPC_VERSION);
    assert_eq!(u32::from_le_bytes([bytes[8], bytes[9], bytes[10], bytes[11]]), 0, "no flags");
    assert_eq!(u32::from_le_bytes([bytes[12], bytes[13], bytes[14], bytes[15]]), 2, "count");
    assert_eq!(u32::from_le_bytes([bytes[16], bytes[17], bytes[18], bytes[19]]), 1000);
    assert_eq!(
        i64::from_le_bytes(bytes[20..28].try_into().unwrap()),
        4_000_000_000i64
    );
    assert_eq!(bytes.len(), 44 + 2 * 12);
}

#[test]
fn parse_rejects_bad_magic() {
    let mut bytes = serialize_tile(&base_tile()).unwrap();
    bytes[0] = b'X';
    assert_eq!(parse_hypc_bytes(&bytes).unwrap_err(), HypcError::BadMagic);
}

#[test]
fn parse_rejects_unsupported_version() {
    let mut bytes = serialize_tile(&base_tile()).unwrap();
    bytes[4] = 9;
    assert_eq!(parse_hypc_bytes(&bytes).unwrap_err(), HypcError::UnsupportedVersion);
}

#[test]
fn parse_rejects_unknown_flags() {
    let mut bytes = serialize_tile(&base_tile()).unwrap();
    bytes[8] = 0x10;
    assert_eq!(parse_hypc_bytes(&bytes).unwrap_err(), HypcError::UnknownFlags);
}

#[test]
fn parse_rejects_zero_units_per_meter() {
    let mut bytes = serialize_tile(&base_tile()).unwrap();
    for b in bytes.iter_mut().skip(16).take(4) {
        *b = 0;
    }
    assert_eq!(parse_hypc_bytes(&bytes).unwrap_err(), HypcError::ZeroUnitsPerMeter);
}

#[test]
fn parse_rejects_truncated_input() {
    let bytes = serialize_tile(&base_tile()).unwrap();
    assert_eq!(parse_hypc_bytes(&bytes[..3]).unwrap_err(), HypcError::Truncated);
    assert_eq!(parse_hypc_bytes(&bytes[..20]).unwrap_err(), HypcError::Truncated);
    assert_eq!(
        parse_hypc_bytes(&bytes[..bytes.len() - 1]).unwrap_err(),
        HypcError::Truncated
    );
}

#[test]
fn parse_rejects_trailing_bytes() {
    let mut bytes = serialize_tile(&base_tile()).unwrap();
    bytes.push(0);
    assert_eq!(parse_hypc_bytes(&bytes).unwrap_err(), HypcError::TrailingBytes);
}

#[test]
fn parse_rejects_bad_chunk_tags() {
    let mut tile = base_tile();
    tile.geot = Some(GeoExtentQ7 { lon_min_q7: 0, lon_max_q7: 1, lat_min_q7: 2, lat_max_q7: 3 });
    let mut bytes = serialize_tile(&tile).unwrap();
    let geot_at = 44 + 24;
    assert_eq!(&bytes[geot_at..geot_at + 4], b"GEOT");
    bytes[geot_at] = b'X';
    assert_eq!(parse_hypc_bytes(&bytes).unwrap_err(), HypcError::BadGeotTag);

    let mut tile = base_tile();
    tile.smc1 = Some(Smc1Chunk {
        width: 1,
        height: 1,
        coord_space: Smc1CoordSpace::DecodeXY,
        encoding: Smc1Encoding::Raw,
        palette: vec![],
        data: vec![0],
    });
    let mut bytes = serialize_tile(&tile).unwrap();
    let smc1_at = 44 + 24;
    assert_eq!(&bytes[smc1_at..smc1_at + 4], b"SMC1");
    bytes[smc1_at] = b'X';
    assert_eq!(parse_hypc_bytes(&bytes).unwrap_err(), HypcError::BadSmc1Tag);
}

#[test]
fn parse_rejects_unknown_smc1_codes() {
    let mut tile = base_tile();
    tile.smc1 = Some(Smc1Chunk {
        width: 1,
        height: 1,
        coord_space: Smc1CoordSpace::DecodeXY,
        encoding: Smc1Encoding::Raw,
        palette: vec![],
        data: vec![0],
    });
    let bytes = serialize_tile(&tile).unwrap();
    let smc1_at = 44 + 24;
    let mut bad_cs = bytes.clone();
    bad_cs[smc1_at + 8] = 7;
    assert_eq!(parse_hypc_bytes(&bad_cs).unwrap_err(), HypcError::UnknownCoordSpace);
    let mut bad_enc = bytes.clone();
    bad_enc[smc1_at + 9] = 7;
    assert_eq!(parse_hypc_bytes(&bad_enc).unwrap_err(), HypcError::UnknownEncoding);
}

#[test]
fn serialize_rejects_ill_formed_tiles() {
    let mut tile = base_tile();
    tile.units_per_meter = 0;
    assert_eq!(serialize_tile(&tile).unwrap_err(), HypcError::ZeroUnitsPerMeter);

    let mut tile = base_tile();
    tile.labels = Some(vec![1]);
    assert_eq!(serialize_tile(&tile).unwrap_err(), HypcError::LabelsLengthMismatch);

    let mut tile = base_tile();
    tile.tile_key = Some(vec![0; 31]);
    assert_eq!(serialize_tile(&tile).unwrap_err(), HypcError::BadKeyLength);
}

#[test]
fn extract_discovered_clamps_to_counter() {
    // Counter says 2, capacity is 4: only the first two ids are read.
    let mut buf = Vec::new();
    buf.extend_from_slice(&2u32.to_le_bytes());
    for id in [11u32, 22, 33, 44] {
        buf.extend_from_slice(&id.to_le_bytes());
    }
    let ids = extract_discovered(&buf);
    assert_eq!(ids, vec![11, 22]);
}

#[test]
fn extract_discovered_clamps_to_capacity() {
    // Counter claims more results than the buffer can hold: the read is
    // clamped to the capacity, defending against transient over-writes.
    let mut buf = Vec::new();
    buf.extend_from_slice(&1000u32.to_le_bytes());
    for id in [5u32, 6] {
        buf.extend_from_slice(&id.to_le_bytes());
    }
    let ids = extract_discovered(&buf);
    assert_eq!(ids, vec![5, 6]);
    let ps = ids_to_point_set(&ids);
    assert_eq!(ps.len(), 2);
    assert!(ps.contains(5) && ps.contains(6));
}

#[test]
fn extract_discovered_empty_buffer() {
    assert!(extract_discovered(&[]).is_empty());
    assert!(extract_discovered(&0u32.to_le_bytes()).is_empty());
}

#[test]
fn chunk_codes_round_trip() {
    for enc in [Smc1Encoding::Raw, Smc1Encoding::Rle] {
        assert_eq!(Smc1Encoding::from_code(enc.code()), Some(enc));
    }
    assert_eq!(Smc1Encoding::from_code(2), None);
    for cs in [Smc1CoordSpace::DecodeXY, Smc1CoordSpace::Crs84BboxNorm] {
        assert_eq!(Smc1CoordSpace::from_code(cs.code()), Some(cs));
    }
    assert_eq!(Smc1CoordSpace::from_code(2), None);
}
