use bran::activations::{ActivationType, OptimizerKind};

#[test]
fn activation_names_are_read() {
    assert_eq!(ActivationType::from_name("ReLU"), ActivationType::ReLU);
    assert_eq!(ActivationType::from_name("Sigmoid"), ActivationType::Sigmoid);
    assert_eq!(ActivationType::from_name("Tanh"), ActivationType::Tanh);
    assert_eq!(ActivationType::from_name("Linear"), ActivationType::Linear);
}

#[test]
fn unknown_activation_name_falls_back_to_relu() {
    assert_eq!(ActivationType::from_name("softmax"), ActivationType::ReLU);
    assert_eq!(ActivationType::from_name(""), ActivationType::ReLU);
    assert_eq!(ActivationType::from_name("sigmoid"), ActivationType::ReLU);
    assert_eq!(ActivationType::from_name("Sigmoid "), ActivationType::ReLU);
}

#[test]
fn optimizer_names_are_read_with_sgd_fallback() {
    assert_eq!(OptimizerKind::from_name("SGD"), OptimizerKind::SGD);
    assert_eq!(OptimizerKind::from_name("Adam"), OptimizerKind::Adam);
    assert_eq!(OptimizerKind::from_name("RMSProp"), OptimizerKind::SGD);
}

#[test]
fn tags_round_trip_and_stay_below_four() {
    let all = [ActivationType::ReLU, ActivationType::Sigmoid, ActivationType::Linear, ActivationType::Tanh];
    for (i, a) in all.iter().enumerate() {
        assert_eq!(a.tag(), i as u32);
        assert_eq!(ActivationType::from_tag(a.tag()), Some(*a));
    }
    assert_eq!(ActivationType::from_tag(4), None);
    assert_eq!(ActivationType::from_tag(u32::MAX), None);
}
