use bran::activations::ActivationType;
use bran::error::NetError;
use bran::layers::{CacheState, LayerShape};
use bran::model::NetworkShape;
use bran::persist::LayerRecord;

fn two_layers() -> NetworkShape {
    let mut nn = NetworkShape::new();
    nn.add_layer(LayerShape::new(2, 3, ActivationType::ReLU));
    nn.add_layer(LayerShape::new(3, 1, ActivationType::Sigmoid));
    nn
}

#[test]
fn network_forward_output_shape() {
    let mut nn = two_layers();
    assert_eq!(nn.forward(1, 2), Ok((1, 1)));
    assert_eq!(nn.layer(0).cache, CacheState::ForwardComputed { batch: 1 });
    assert_eq!(nn.layer(1).cache, CacheState::ForwardComputed { batch: 1 });
}

#[test]
fn network_forward_rejects_wrong_width() {
    let mut nn = two_layers();
    assert_eq!(nn.forward(1, 3), Err(NetError::DimensionMismatch));
    assert_eq!(nn.layer(0).cache, CacheState::Idle);
}

#[test]
fn empty_network_passes_input_through() {
    let mut nn = NetworkShape::new();
    assert_eq!(nn.forward(7, 4), Ok((7, 4)));
    assert_eq!(nn.backward(7, 4), Ok((7, 4)));
}

#[test]
fn network_backward_needs_matching_forward() {
    let mut nn = two_layers();
    assert_eq!(nn.backward(1, 1), Err(NetError::MissingForward));
    nn.forward(4, 2).unwrap();
    assert_eq!(nn.backward(3, 1), Err(NetError::DimensionMismatch));
    assert_eq!(nn.backward(4, 2), Err(NetError::DimensionMismatch));
    assert_eq!(nn.backward(4, 1), Ok((4, 2)));
    assert_eq!(nn.layer(0).cache, CacheState::Idle);
    assert_eq!(nn.layer(1).cache, CacheState::Idle);
    assert_eq!(nn.backward(4, 1), Err(NetError::MissingForward));
}

fn record(rows: u64, cols: u64, a: ActivationType) -> LayerRecord {
    LayerRecord { rows, cols, weights: vec![0; (rows * cols) as usize], biases: vec![0; rows as usize], activation: a }
}

#[test]
fn loaded_records_become_idle_layers() {
    let recs = vec![record(3, 2, ActivationType::ReLU), record(1, 3, ActivationType::Tanh)];
    let nn = NetworkShape::from_records(&recs).unwrap();
    assert_eq!(nn.len(), 2);
    assert_eq!(nn.layer(0), LayerShape::new(2, 3, ActivationType::ReLU));
    assert_eq!(nn.layer(1), LayerShape::new(3, 1, ActivationType::Tanh));
}

#[test]
fn loaded_records_must_chain() {
    let recs = vec![record(3, 2, ActivationType::ReLU), record(1, 4, ActivationType::Tanh)];
    assert_eq!(NetworkShape::from_records(&recs).unwrap_err(), NetError::Deserialization);
}

#[test]
fn requested_layers_must_chain() {
    let ok = vec![LayerShape::new(2, 3, ActivationType::ReLU), LayerShape::new(3, 1, ActivationType::Linear)];
    let nn = NetworkShape::from_layers(&ok).unwrap();
    assert_eq!(nn.len(), 2);
    assert_eq!(nn.layer(1), ok[1]);
    let bad = vec![LayerShape::new(2, 3, ActivationType::ReLU), LayerShape::new(4, 1, ActivationType::Linear)];
    assert_eq!(NetworkShape::from_layers(&bad).unwrap_err(), NetError::DimensionMismatch);
    assert_eq!(NetworkShape::from_layers(&vec![]).unwrap().len(), 0);
}
