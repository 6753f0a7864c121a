use vddb::compress::{decode_column, encode_column, EncodedColumn};
use vddb::types::{CompressionType, Value};

fn sample() -> Vec<Value> {
    vec![
        Value::Int32(7),
        Value::Int32(7),
        Value::Int32(7),
        Value::String("x".to_string()),
        Value::String("x".to_string()),
        Value::Float32(2.5f32.to_bits()),
        Value::Int32(7),
    ]
}

#[test]
fn plain_round_trip() {
    let values = sample();
    let encoded = encode_column(&values, &CompressionType::Plain);
    assert!(matches!(encoded, EncodedColumn::Plain(_)));
    assert_eq!(decode_column(&encoded).expect("decode"), values);
}

#[test]
fn rle_round_trip_collapses_runs() {
    let values = sample();
    let encoded = encode_column(&values, &CompressionType::Rle);
    match &encoded {
        EncodedColumn::Rle(runs) => {
            // three runs of 7, one of "x", one of 2.5, one trailing 7
            assert_eq!(runs.len(), 4);
            assert_eq!(runs[0].0, 3);
            assert_eq!(runs[1].0, 2);
        }
        other => panic!("unexpected encoding: {:?}", other),
    }
    assert_eq!(decode_column(&encoded).expect("decode"), values);
}

#[test]
fn dictionary_round_trip_reuses_codes() {
    let values = sample();
    let encoded = encode_column(&values, &CompressionType::Dictionary);
    match &encoded {
        EncodedColumn::Dict { values: dict, codes } => {
            // three distinct values, seven codes, the last code reuses the first
            assert_eq!(dict.len(), 3);
            assert_eq!(codes.len(), 7);
            assert_eq!(codes[0], codes[6]);
        }
        other => panic!("unexpected encoding: {:?}", other),
    }
    assert_eq!(decode_column(&encoded).expect("decode"), values);
}

#[test]
fn dictionary_code_out_of_range_fails() {
    let broken = EncodedColumn::Dict {
        values: vec![Value::Int32(1)],
        codes: vec![0, 5],
    };
    assert!(matches!(
        decode_column(&broken),
        Err(vddb::types::DbError::SerializationError(_))
    ));
}

#[test]
fn empty_column_round_trips_under_every_encoding() {
    let empty: Vec<Value> = vec![];
    for c in [
        CompressionType::Plain,
        CompressionType::Rle,
        CompressionType::Dictionary,
    ] {
        let encoded = encode_column(&empty, &c);
        assert_eq!(decode_column(&encoded).expect("decode"), empty);
    }
}
