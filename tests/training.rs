use bran::training::{TrainSchedule, TrainStep};

#[test]
fn each_epoch_runs_its_batches_then_ends() {
    let mut s = TrainSchedule::new(5, 2, 2);
    let mut steps = Vec::new();
    for _ in 0..10 {
        steps.push(s.step());
    }
    assert_eq!(
        steps,
        vec![
            TrainStep::Batch { start: 0, end: 2 },
            TrainStep::Batch { start: 2, end: 4 },
            TrainStep::Batch { start: 4, end: 5 },
            TrainStep::EndOfEpoch { epoch: 1 },
            TrainStep::Batch { start: 0, end: 2 },
            TrainStep::Batch { start: 2, end: 4 },
            TrainStep::Batch { start: 4, end: 5 },
            TrainStep::EndOfEpoch { epoch: 2 },
            TrainStep::Done,
            TrainStep::Done,
        ]
    );
}

#[test]
fn zero_epochs_is_done_at_once() {
    let mut s = TrainSchedule::new(5, 2, 0);
    assert_eq!(s.step(), TrainStep::Done);
}

#[test]
fn no_samples_still_ends_every_epoch() {
    let mut s = TrainSchedule::new(0, 3, 2);
    assert_eq!(s.step(), TrainStep::EndOfEpoch { epoch: 1 });
    assert_eq!(s.step(), TrainStep::EndOfEpoch { epoch: 2 });
    assert_eq!(s.step(), TrainStep::Done);
}

#[test]
fn inputs_and_targets_must_have_the_same_sample_count() {
    assert!(TrainSchedule::for_data(4, 3, 2, 1).is_err());
    let mut s = TrainSchedule::for_data(3, 3, 2, 1).unwrap();
    assert_eq!(s.step(), TrainStep::Batch { start: 0, end: 2 });
    assert_eq!(s.step(), TrainStep::Batch { start: 2, end: 3 });
    assert_eq!(s.step(), TrainStep::EndOfEpoch { epoch: 1 });
    assert_eq!(s.step(), TrainStep::Done);
}
