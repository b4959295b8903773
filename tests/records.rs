use movesync::records::{decode_records, RecordReader, RemotePosition, RemotePositions};

#[test]
fn decodes_one_record() {
    let (recs, rest) = decode_records(&[0, 0, 0, 0, 0x3f, 0x80, 0, 0]);
    assert_eq!(recs, vec![RemotePosition { x_bits: 0, y_bits: 0x3f80_0000 }]);
    assert!(rest.is_empty());
    assert_eq!(f32::from_bits(recs[0].x_bits), 0.0);
    assert_eq!(f32::from_bits(recs[0].y_bits), 1.0);
}

#[test]
fn decoding_leaves_partial_record() {
    for k in 0..4usize {
        for r in 0..8usize {
            let bytes: Vec<u8> = (0..(8 * k + r)).map(|i| i as u8).collect();
            let (recs, rest) = decode_records(&bytes);
            assert_eq!(recs.len(), k);
            assert_eq!(rest, bytes[8 * k..].to_vec());
        }
    }
}

#[test]
fn decodes_big_endian_words() {
    let bytes = [0x12, 0x34, 0x56, 0x78, 0xbf, 0x80, 0x00, 0x00, 0x3e, 0x4c, 0xcc, 0xcd, 0, 0, 0, 1, 9, 9];
    let (recs, rest) = decode_records(&bytes);
    assert_eq!(
        recs,
        vec![
            RemotePosition { x_bits: 0x1234_5678, y_bits: 0xbf80_0000 },
            RemotePosition { x_bits: 0x3e4c_cccd, y_bits: 1 },
        ]
    );
    assert_eq!(f32::from_bits(recs[0].y_bits), -1.0);
    assert_eq!(rest, vec![9, 9]);
}

#[test]
fn reader_holds_partial_record_across_polls() {
    let mut reader = RecordReader::new();
    assert!(reader.feed(&[0, 0, 0]).is_empty());
    assert!(reader.feed(&[0, 0x3f, 0x80]).is_empty());
    let recs = reader.feed(&[0, 0, 0x40, 0, 0, 0, 0, 0]);
    assert_eq!(recs, vec![RemotePosition { x_bits: 0, y_bits: 0x3f80_0000 }]);
    let recs = reader.feed(&[0, 0, 0, 0]);
    assert_eq!(recs, vec![RemotePosition { x_bits: 0x4000_0000, y_bits: 0 }]);
    assert!(reader.feed(&[]).is_empty());
}

#[test]
fn remote_positions_replaced_whole() {
    let mut store = RemotePositions::new();
    assert!(store.remote_snapshot().is_empty());
    let a = vec![RemotePosition { x_bits: 1, y_bits: 2 }, RemotePosition { x_bits: 3, y_bits: 4 }];
    store.replace_remote(a.clone());
    assert_eq!(store.remote_snapshot(), a);
    let b = vec![RemotePosition { x_bits: 5, y_bits: 6 }];
    store.replace_remote(b.clone());
    assert_eq!(store.remote_snapshot(), b);
    store.replace_remote(Vec::new());
    assert!(store.remote_snapshot().is_empty());
}
