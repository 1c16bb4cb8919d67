use bran::activations::ActivationType;
use bran::error::NetError;
use bran::persist::{decode_model, encode_model, LayerRecord};

fn bits(v: &[f32]) -> Vec<u32> {
    v.iter().map(|x| x.to_bits()).collect()
}

fn sample_model() -> Vec<LayerRecord> {
    vec![
        LayerRecord {
            rows: 3,
            cols: 2,
            weights: bits(&[0.5, -0.25, 1.0, 2.0, -3.5, 0.125]),
            biases: bits(&[0.1, 0.2, 0.3]),
            activation: ActivationType::ReLU,
        },
        LayerRecord {
            rows: 1,
            cols: 3,
            weights: bits(&[0.75, -1.5, 2.25]),
            biases: bits(&[-0.5]),
            activation: ActivationType::Sigmoid,
        },
    ]
}

#[test]
fn round_trip_keeps_every_layer() {
    let model = sample_model();
    let bytes = encode_model(&model);
    let back = decode_model(&bytes).unwrap();
    assert_eq!(back, model);
}

#[test]
fn round_trip_of_every_activation_and_empty_model() {
    for a in [ActivationType::ReLU, ActivationType::Sigmoid, ActivationType::Linear, ActivationType::Tanh] {
        let model = vec![LayerRecord { rows: 0, cols: 4, weights: vec![], biases: vec![], activation: a }];
        assert_eq!(decode_model(&encode_model(&model)).unwrap(), model);
    }
    let empty: Vec<LayerRecord> = vec![];
    let bytes = encode_model(&empty);
    assert_eq!(bytes, vec![0u8; 8]);
    assert_eq!(decode_model(&bytes).unwrap(), empty);
}

#[test]
fn encoded_layout_is_exact() {
    let model = vec![LayerRecord {
        rows: 1,
        cols: 1,
        weights: vec![0x3f80_0000],
        biases: vec![0x0000_0001],
        activation: ActivationType::Tanh,
    }];
    let mut expected: Vec<u8> = vec![1, 0, 0, 0, 0, 0, 0, 0];
    expected.push(1);
    expected.extend_from_slice(&[1, 0, 0, 0, 0, 0, 0, 0]);
    expected.extend_from_slice(&[1, 0, 0, 0, 0, 0, 0, 0]);
    expected.extend_from_slice(&[1, 0, 0, 0, 0, 0, 0, 0]);
    expected.extend_from_slice(&[0x00, 0x00, 0x80, 0x3f]);
    expected.push(1);
    expected.extend_from_slice(&[1, 0, 0, 0, 0, 0, 0, 0]);
    expected.extend_from_slice(&[1, 0, 0, 0, 0, 0, 0, 0]);
    expected.extend_from_slice(&[1, 0, 0, 0]);
    expected.extend_from_slice(&[3, 0, 0, 0]);
    assert_eq!(encode_model(&model), expected);
}

#[test]
fn layout_matches_bincode_of_ndarray_parameters() {
    let w = ndarray::arr2(&[[0.5f32, -0.25], [1.0, 2.0], [-3.5, 0.125]]);
    let b = ndarray::arr1(&[0.1f32, 0.2, 0.3]);
    let w2 = ndarray::arr2(&[[0.75f32, -1.5, 2.25]]);
    let b2 = ndarray::arr1(&[-0.5f32]);
    let reference = bincode::serialize(&vec![(w, b, 0u32), (w2, b2, 1u32)]).unwrap();
    assert_eq!(encode_model(&sample_model()), reference);
    assert_eq!(decode_model(&reference).unwrap(), sample_model());
}

#[test]
fn trailing_bytes_are_ignored() {
    let mut bytes = encode_model(&sample_model());
    bytes.extend_from_slice(&[9, 9, 9]);
    assert_eq!(decode_model(&bytes).unwrap(), sample_model());
}

#[test]
fn truncated_file_is_refused() {
    let bytes = encode_model(&sample_model());
    for cut in [0, 5, 8, 20, bytes.len() / 2, bytes.len() - 1] {
        assert_eq!(decode_model(&bytes[..cut]), Err(NetError::Deserialization));
    }
}

#[test]
fn bad_version_byte_is_refused() {
    let mut bytes = encode_model(&sample_model());
    bytes[8] = 2;
    assert_eq!(decode_model(&bytes), Err(NetError::Deserialization));
}

#[test]
fn unknown_activation_tag_is_refused() {
    let model = vec![LayerRecord { rows: 0, cols: 0, weights: vec![], biases: vec![], activation: ActivationType::Linear }];
    let mut bytes = encode_model(&model);
    let n = bytes.len();
    bytes[n - 4] = 4;
    assert_eq!(decode_model(&bytes), Err(NetError::Deserialization));
}

#[test]
fn element_count_must_match_dimensions() {
    let mut bytes = encode_model(&sample_model());
    // the row count of the first weight matrix
    bytes[9] = 4;
    assert_eq!(decode_model(&bytes), Err(NetError::Deserialization));
}

#[test]
fn huge_layer_count_is_refused() {
    let mut bytes = encode_model(&sample_model());
    bytes[7] = 0xff;
    assert_eq!(decode_model(&bytes), Err(NetError::Deserialization));
}
