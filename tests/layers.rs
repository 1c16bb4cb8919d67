use bran::activations::ActivationType;
use bran::error::NetError;
use bran::layers::{CacheState, LayerShape};
use bran::persist::LayerRecord;

#[test]
fn dense_layer_forward_output_shape() {
    let mut layer = LayerShape::new(2, 3, ActivationType::ReLU);
    assert_eq!(layer.forward(1, 2), Ok((1, 3)));
    assert_eq!(layer.cache, CacheState::ForwardComputed { batch: 1 });
}

#[test]
fn forward_rejects_wrong_width() {
    let mut layer = LayerShape::new(2, 3, ActivationType::Sigmoid);
    assert_eq!(layer.forward(4, 3), Err(NetError::DimensionMismatch));
    assert_eq!(layer.cache, CacheState::Idle);
}

#[test]
fn backward_consumes_the_forward_cache() {
    let mut layer = LayerShape::new(2, 3, ActivationType::Tanh);
    assert_eq!(layer.backward(5, 3), Err(NetError::MissingForward));
    layer.forward(5, 2).unwrap();
    assert_eq!(layer.backward(4, 3), Err(NetError::DimensionMismatch));
    assert_eq!(layer.backward(5, 2), Err(NetError::DimensionMismatch));
    assert_eq!(layer.backward(5, 3), Ok((5, 2)));
    assert_eq!(layer.cache, CacheState::Idle);
    assert_eq!(layer.backward(5, 3), Err(NetError::MissingForward));
}

#[test]
fn rehydrate_restores_sizes_and_activation() {
    let record = LayerRecord { rows: 3, cols: 2, weights: vec![0; 6], biases: vec![0; 3], activation: ActivationType::Linear };
    let shape = LayerShape::rehydrate(&record).unwrap();
    assert_eq!(shape, LayerShape::new(2, 3, ActivationType::Linear));
    let bad = LayerRecord { rows: 3, cols: 2, weights: vec![0; 6], biases: vec![0; 2], activation: ActivationType::Linear };
    assert_eq!(LayerShape::rehydrate(&bad), Err(NetError::Deserialization));
}
