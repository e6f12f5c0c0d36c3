use digital_filter::DigitalFilter;
use digital_filter::FilterError;

fn run_filter(f: &mut DigitalFilter, inputs: &[i64]) -> Vec<i64> {
    inputs.iter().map(|x| f.filter(*x)).collect()
}

#[test]
fn basic_filter_test() {
    let coeffs = vec![1, 1, 1, 0];
    let mut filter = DigitalFilter::new(coeffs).unwrap();
    let inputs = [4, 8, 15, 16, 23, 42];
    let expected_output = [4, 12, 27, 39, 54, 81];
    let actual_output = run_filter(&mut filter, &inputs);
    assert_eq!(expected_output.to_vec(), actual_output);
}

#[test]
fn varying_weight_filter_test() {
    let coeffs = vec![1, 2, 3, 0];
    let mut filter = DigitalFilter::new(coeffs).unwrap();
    let inputs = [4, 8, 15, 16, 23, 42];
    let expected_output = [4, 16, 43, 70, 100, 136];
    let actual_output = run_filter(&mut filter, &inputs);
    assert_eq!(expected_output.to_vec(), actual_output);
}

#[test]
fn enforce_sentinel_suffix() {
    // No sentinel 0 at the end
    let coeffs = vec![1, 1, 1, 1];
    let r = DigitalFilter::new(coeffs);
    assert!(matches!(r, Err(FilterError::InvalidCoefficients)));
}

#[test]
fn impulse_response_reproduces_taps() {
    let coeffs = vec![5, 7, 9, 0];
    let mut filter = DigitalFilter::new(coeffs).unwrap();
    let inputs = [1, 0, 0, 0, 0];
    let expected_output = [5, 7, 9, 0, 0];
    let actual_output = run_filter(&mut filter, &inputs);
    assert_eq!(expected_output.to_vec(), actual_output);
}

#[test]
fn reset_right_after_construction_matches_fresh_filter() {
    let inputs = [4, 8, 15, 16, 23, 42];
    let mut fresh = DigitalFilter::new(vec![2, 4, 6, 0]).unwrap();
    let mut cleared = DigitalFilter::new(vec![2, 4, 6, 0]).unwrap();
    cleared.clear_buffer();
    let fresh_out = run_filter(&mut fresh, &inputs);
    let cleared_out = run_filter(&mut cleared, &inputs);
    assert_eq!(fresh_out, cleared_out);
}

#[test]
fn clear_buffer_wipes_history_mid_stream() {
    let inputs = [9, -3, 27, 14];
    let mut fresh = DigitalFilter::new(vec![1, 2, 3, 0]).unwrap();
    let mut reused = DigitalFilter::new(vec![1, 2, 3, 0]).unwrap();
    run_filter(&mut reused, &[100, 200, 300]);
    reused.clear_buffer();
    let fresh_out = run_filter(&mut fresh, &inputs);
    let reused_out = run_filter(&mut reused, &inputs);
    assert_eq!(fresh_out, reused_out);
}

#[test]
fn steady_state_window_slides() {
    let mut filter = DigitalFilter::new(vec![1, 1, 0]).unwrap();
    let inputs = [1, 2, 3, 4, 5];
    let expected_output = [1, 3, 5, 7, 9];
    let actual_output = run_filter(&mut filter, &inputs);
    assert_eq!(expected_output.to_vec(), actual_output);
}

#[test]
fn negative_coefficients_and_samples() {
    let mut filter = DigitalFilter::new(vec![1, -2, 0]).unwrap();
    let inputs = [3, 1, -4];
    let expected_output = [3, -5, -6];
    let actual_output = run_filter(&mut filter, &inputs);
    assert_eq!(expected_output.to_vec(), actual_output);
}

#[test]
fn empty_coefficients_rejected() {
    let r = DigitalFilter::new(vec![]);
    assert!(matches!(r, Err(FilterError::InvalidCoefficients)));
}

#[test]
fn sentinel_alone_rejected() {
    // A lone sentinel leaves no taps at all.
    let r = DigitalFilter::new(vec![0]);
    assert!(matches!(r, Err(FilterError::InvalidCoefficients)));
}

#[test]
fn oversized_coefficient_sequence_rejected() {
    // 4096 taps plus the sentinel is one tap too many.
    let coeffs = vec![0; 4097];
    let r = DigitalFilter::new(coeffs);
    assert!(matches!(r, Err(FilterError::InvalidCoefficients)));
}

#[test]
fn largest_filter_accepted() {
    // 4095 taps plus the sentinel is the largest accepted shape.
    let mut coeffs = vec![1; 4095];
    coeffs.push(0);
    let mut filter = DigitalFilter::new(coeffs).unwrap();
    assert_eq!(filter.filter(1), 1);
    assert_eq!(filter.filter(1), 2);
}

#[test]
fn coefficient_magnitude_boundary() {
    let over = DigitalFilter::new(vec![16777217, 0]);
    assert!(matches!(over, Err(FilterError::InvalidCoefficients)));
    let mut at_limit = DigitalFilter::new(vec![16777216, 0]).unwrap();
    assert_eq!(at_limit.filter(16777216), 281474976710656);
}
