use open_duck_playground::ActionSmoother;

fn low_pass(control_freq: f64, cutoff_frequency: f64) -> impl Fn(f64, f64) -> f64 {
    let alpha = (1.0 / cutoff_frequency) / ((1.0 / control_freq) + (1.0 / cutoff_frequency));
    move |last, current| alpha * last + (1.0 - alpha) * current
}

#[test]
fn filters_values() {
    let mut filter: ActionSmoother<f64> = ActionSmoother::new();

    filter.push(&[0.0, 0.0]);
    assert_eq!(filter.filtered(0.0, low_pass(100.0, 30.0)), vec![0.0, 0.0]);

    filter.push(&[1.0, -1.0]);
    let values = filter.filtered(0.0, low_pass(100.0, 30.0));
    assert!(values[0] > 0.0 && values[0] < 1.0);
    assert!(values[1] < 0.0 && values[1] > -1.0);
}

#[test]
fn nothing_pushed_gives_nothing() {
    let mut filter: ActionSmoother<f64> = ActionSmoother::new();
    assert!(filter.filtered(0.0, |a, b| a + b).is_empty());
}

#[test]
fn previous_output_is_resized_to_the_action() {
    let mut filter: ActionSmoother<i64> = ActionSmoother::new();
    filter.push(&[1, 2]);
    // The first push is also the previous output: 1 + 1, 2 + 2.
    assert_eq!(filter.filtered(0, |a, b| a + b), vec![2, 4]);
    // Longer action: the previous output is padded with zero.
    filter.push(&[10, 20, 30]);
    assert_eq!(filter.filtered(0, |a, b| a * 100 + b), vec![210, 420, 30]);
    // Shorter action: the previous output is cut.
    filter.push(&[5]);
    assert_eq!(filter.filtered(0, |a, b| a - b), vec![205]);
    // Filtering again blends with the new previous output.
    assert_eq!(filter.filtered(0, |a, b| a - b), vec![200]);
}

#[test]
fn blend_weights_follow_the_cutoff() {
    let mut filter: ActionSmoother<f64> = ActionSmoother::new();
    filter.push(&[0.0]);
    filter.filtered(0.0, low_pass(100.0, 100.0));
    filter.push(&[1.0]);
    // Equal frequencies give an even blend.
    assert_eq!(filter.filtered(0.0, low_pass(100.0, 100.0)), vec![0.5]);
}
