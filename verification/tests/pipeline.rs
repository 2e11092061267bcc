use realfft::num_complex::Complex;
use realfft::RealFftPlanner;
use room_acoustics::lag_window::extract_linear;
use room_acoustics::padding::pad;
use room_acoustics::plan::{plan_correlation, CorrelationError};

fn forward(mut buffer: Vec<f32>) -> Vec<Complex<f32>> {
    let mut planner = RealFftPlanner::<f32>::new();
    let transform = planner.plan_fft_forward(buffer.len());
    let mut spectrum = transform.make_output_vec();
    transform.process(&mut buffer, &mut spectrum).unwrap();
    spectrum
}

fn inverse(mut spectrum: Vec<Complex<f32>>, length: usize) -> Vec<f32> {
    let mut planner = RealFftPlanner::<f32>::new();
    let transform = planner.plan_fft_inverse(length);
    let mut buffer = transform.make_output_vec();
    transform.process(&mut spectrum, &mut buffer).unwrap();
    buffer.iter().map(|value| value / length as f32).collect()
}

fn correlate(a: &Vec<f32>, b: &Vec<f32>) -> Result<Vec<f32>, CorrelationError> {
    let plan = plan_correlation(a.len(), b.len())?;
    let n = plan.transform_length;
    let a_spectrum = forward(pad(a, n, 0.0));
    let b_spectrum = forward(pad(b, n, 0.0));
    assert_eq!(a_spectrum.len(), plan.spectrum_length());
    assert_eq!(b_spectrum.len(), plan.spectrum_length());
    let mut cross_power = Vec::with_capacity(a_spectrum.len());
    for k in 0..a_spectrum.len() {
        cross_power.push(a_spectrum[k] * b_spectrum[k].conj());
    }
    let circular = inverse(cross_power, n);
    assert_eq!(circular.len(), n);
    let window = extract_linear(&circular, a.len());
    assert_eq!(window.len(), plan.lag_count());
    Ok(window)
}

fn coefficient(left: &Vec<f32>, right: &Vec<f32>) -> Result<f32, CorrelationError> {
    let window = correlate(left, right)?;
    let mut left_energy = 0.0f64;
    let mut right_energy = 0.0f64;
    for i in 0..left.len() {
        left_energy += (left[i] as f64) * (left[i] as f64);
        right_energy += (right[i] as f64) * (right[i] as f64);
    }
    let root = (left_energy * right_energy).sqrt() as f32;
    let mut peak = 0.0f32;
    for value in window {
        if value / root > peak {
            peak = value / root;
        }
    }
    Ok(peak)
}

fn direct_correlation(a: &Vec<f32>, b: &Vec<f32>, lag: isize) -> f32 {
    let mut sum = 0.0f64;
    for j in 0..b.len() as isize {
        let i = j + lag;
        if i >= 0 && i < a.len() as isize {
            sum += a[i as usize] as f64 * b[j as usize] as f64;
        }
    }
    sum as f32
}

fn half_sine(count: usize) -> Vec<f32> {
    (0..count)
        .map(|i| (std::f32::consts::PI * (i as f32 + 0.5) / count as f32).sin())
        .collect()
}

#[test]
fn unit_impulse_against_itself_peaks_at_lag_zero() {
    for l in [1usize, 2, 5, 8, 33] {
        let mut impulse = vec![0.0f32; l];
        impulse[0] = 1.0;
        let window = correlate(&impulse, &impulse).unwrap();
        assert_eq!(window.len(), 2 * l - 1);
        for (i, value) in window.iter().enumerate() {
            if i == l - 1 {
                assert!((value - 1.0).abs() < 1e-5);
            } else {
                assert!(value.abs() < 1e-5);
            }
        }
    }
}

#[test]
fn delayed_impulse_peaks_at_the_positive_lag_of_its_delay() {
    let delayed = vec![0.0f32, 0.0, 1.0, 0.0];
    let reference = vec![1.0f32, 0.0, 0.0, 0.0];
    let window = correlate(&delayed, &reference).unwrap();
    let expected = [0.0f32, 0.0, 0.0, 0.0, 0.0, 1.0, 0.0];
    for i in 0..7 {
        assert!((window[i] - expected[i]).abs() < 1e-5);
    }
    let swapped = correlate(&reference, &delayed).unwrap();
    let mirrored = [0.0f32, 1.0, 0.0, 0.0, 0.0, 0.0, 0.0];
    for i in 0..7 {
        assert!((swapped[i] - mirrored[i]).abs() < 1e-5);
    }
}

#[test]
fn window_agrees_with_the_sum_of_products_at_every_lag() {
    let a = vec![0.5f32, -1.25, 2.0, 0.75, -0.5, 1.5, 3.0];
    let b = vec![1.0f32, 0.25, -2.0, 1.75, 0.5, -1.0, 0.125];
    let window = correlate(&a, &b).unwrap();
    assert_eq!(window.len(), 13);
    for i in 0..13usize {
        let lag = i as isize - 6;
        assert!((window[i] - direct_correlation(&a, &b, lag)).abs() < 1e-4);
    }
}

#[test]
fn one_sample_gives_the_product_of_the_two_samples() {
    let window = correlate(&vec![3.0f32], &vec![-2.0f32]).unwrap();
    assert_eq!(window.len(), 1);
    assert!((window[0] + 6.0).abs() < 1e-5);
}

#[test]
fn empty_channels_give_an_empty_window() {
    let nothing: Vec<f32> = Vec::new();
    assert_eq!(correlate(&nothing, &nothing), Ok(Vec::new()));
}

#[test]
fn signal_against_itself_has_coefficient_one() {
    let signals = vec![
        vec![1.0f32],
        vec![0.25f32, -0.5, 0.75],
        vec![1.0f32, 2.0, 3.0, 4.0, 5.0, 6.0, 7.0, 8.0, 9.0, 10.0, 11.0],
        half_sine(64),
        (0..200).map(|i| ((i * 37 % 101) as f32 - 50.0) / 50.0).collect(),
    ];
    for signal in signals {
        let value = coefficient(&signal, &signal).unwrap();
        assert!((value - 1.0).abs() < 1e-4);
    }
}

#[test]
fn signal_against_its_negation_stays_between_zero_and_one() {
    let signals = vec![
        vec![1.0f32, -1.0, 1.0, -1.0, 1.0, -1.0],
        vec![0.25f32, -0.5, 0.75],
        (0..64).map(|i| (i as f32 * 0.7).sin()).collect(),
    ];
    for signal in signals {
        let negated: Vec<f32> = signal.iter().map(|value| -value).collect();
        let value = coefficient(&signal, &negated).unwrap();
        assert!(value >= 0.0);
        assert!(value <= 1.0 + 1e-4);
    }
}

#[test]
fn sine_channels_in_phase_and_inverted() {
    let sine = half_sine(64);
    let same = coefficient(&sine, &sine).unwrap();
    assert!((same - 1.0).abs() < 1e-4);
    let inverted: Vec<f32> = sine.iter().map(|value| -value).collect();
    let opposite = coefficient(&sine, &inverted).unwrap();
    assert!(opposite >= 0.0);
    assert!(opposite < 1e-4);
}

#[test]
fn coefficient_of_channels_of_unequal_length_is_refused() {
    assert_eq!(coefficient(&vec![1.0], &vec![1.0, 2.0]), Err(CorrelationError::InvalidInput));
}

#[test]
fn silent_channels_give_no_finite_positive_coefficient() {
    let silence = vec![0.0f32; 16];
    let value = coefficient(&silence, &silence).unwrap();
    assert!(value == 0.0 || !value.is_finite());
}
