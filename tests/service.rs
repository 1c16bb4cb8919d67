use bran::error::NetError;
use bran::service::{rocket, AppState};

#[test]
fn service_starts_without_model_or_stats() {
    let state: AppState<String, f32> = rocket();
    assert!(state.network.is_none());
    assert!(state.stats.epochs.is_empty());
    assert_eq!(state.model().unwrap_err(), NetError::NoModel);
}

#[test]
fn installed_model_is_served_and_training_resets_stats() {
    let mut state: AppState<String, f32> = rocket();
    state.stats.log_epoch(1.0, 0.5, 0.5);
    state.install("first".to_string());
    assert_eq!(state.model().unwrap(), "first");
    state.model_mut().unwrap().push('!');
    assert_eq!(state.network.as_deref(), Some("first!"));
    assert_eq!(state.stats.losses, vec![0.5]);
    state.begin_training();
    assert!(state.stats.losses.is_empty());
    assert_eq!(state.network.as_deref(), Some("first!"));
}
