use room_acoustics::plan::{plan_correlation, CorrelationError, CorrelationPlan};

#[test]
fn channels_of_unequal_length_are_refused() {
    assert_eq!(plan_correlation(1, 2), Err(CorrelationError::InvalidInput));
    assert_eq!(plan_correlation(2, 1), Err(CorrelationError::InvalidInput));
    assert_eq!(plan_correlation(0, 64), Err(CorrelationError::InvalidInput));
}

#[test]
fn refusal_names_the_rule() {
    assert_eq!(CorrelationError::InvalidInput.message(), "channels must have equal length");
}

#[test]
fn plan_for_sixty_four_samples() {
    let plan = plan_correlation(64, 64).unwrap();
    assert_eq!(plan, CorrelationPlan { signal_length: 64, transform_length: 128 });
    assert_eq!(plan.spectrum_length(), 65);
    assert_eq!(plan.lag_count(), 127);
}

#[test]
fn plan_for_eleven_samples_rounds_twenty_two_up_to_twenty_four() {
    let plan = plan_correlation(11, 11).unwrap();
    assert_eq!(plan.signal_length, 11);
    assert_eq!(plan.transform_length, 24);
    assert_eq!(plan.spectrum_length(), 13);
    assert_eq!(plan.lag_count(), 21);
}

#[test]
fn plan_for_empty_channels() {
    let plan = plan_correlation(0, 0).unwrap();
    assert_eq!(plan.signal_length, 0);
    assert_eq!(plan.transform_length, 1);
    assert_eq!(plan.spectrum_length(), 1);
    assert_eq!(plan.lag_count(), 0);
}

#[test]
fn plan_for_one_sample() {
    let plan = plan_correlation(1, 1).unwrap();
    assert_eq!(plan.transform_length, 2);
    assert_eq!(plan.spectrum_length(), 2);
    assert_eq!(plan.lag_count(), 1);
}

#[test]
fn transform_length_of_a_plan_holds_every_lag() {
    for l in 0usize..600 {
        let plan = plan_correlation(l, l).unwrap();
        assert!(plan.transform_length >= 2 * l);
        assert!(plan.transform_length >= plan.lag_count());
        assert!(plan.transform_length >= 1);
    }
}
