use num::complex::Complex;

use fft_rust::{approximate_complex, convolve, fft, multiply_pointwise};

// An eight-point transform needs the root of unity for length 8, which the
// library derives by a complex square root; a wrong root would change every
// rounded output below.
#[test]
fn fft_impulse_of_length_eight_test() {
    let mut impulse = vec![Complex::new(0f64, 0f64); 8];
    impulse[1] = Complex::new(1f64, 0f64);
    assert_eq!(
        approximate_complex(&fft(&impulse)),
        vec![
            Complex::new(1f64, 0f64),
            Complex::new(1f64, -1f64),
            Complex::new(0f64, -1f64),
            Complex::new(-1f64, -1f64),
            Complex::new(-1f64, 0f64),
            Complex::new(-1f64, 1f64),
            Complex::new(0f64, 1f64),
            Complex::new(1f64, 1f64)
        ]
    );
}

// conj(i) * i = 1: a result that only comes out if the first operand is
// conjugated before the multiplication.
#[test]
fn multiply_pointwise_conjugates_first_operand_test() {
    assert_eq!(
        multiply_pointwise(&vec![Complex::new(0f64, 1f64)], &vec![Complex::new(0f64, 1f64)]),
        vec![Complex::new(1f64, 0f64)]
    );
}

// With unequal lengths the shorter operand is left-padded with zeros, on
// whichever side it stands.
#[test]
fn multiply_pointwise_pads_shorter_operand_test() {
    assert_eq!(
        multiply_pointwise(
            &vec![Complex::new(2f64, 0f64)],
            &vec![Complex::new(3f64, 0f64), Complex::new(4f64, 0f64)]
        ),
        vec![Complex::new(0f64, 0f64), Complex::new(8f64, 0f64)]
    );
    assert_eq!(
        multiply_pointwise(
            &vec![Complex::new(1f64, 0f64), Complex::new(2f64, 0f64)],
            &vec![Complex::new(5f64, 0f64)]
        ),
        vec![Complex::new(0f64, 0f64), Complex::new(10f64, 0f64)]
    );
}

// Empty operands are allowed: the empty side is padded with zeros, and a
// zero times anything is zero.
#[test]
fn multiply_pointwise_empty_operand_test() {
    assert_eq!(
        multiply_pointwise(&vec![], &vec![Complex::new(7f64, 2f64)]),
        vec![Complex::new(0f64, 0f64)]
    );
    let empty: Vec<Complex<f64>> = vec![];
    assert_eq!(multiply_pointwise(&empty, &empty), vec![]);
}

// A single sample is its own spectrum.
#[test]
fn fft_single_element_test() {
    assert_eq!(
        fft(&vec![Complex::new(5f64, 0f64)]),
        vec![Complex::new(5f64, 0f64)]
    );
}

// A length that is not a power of two is padded up: five samples give an
// eight-entry spectrum.
#[test]
fn fft_pads_to_next_power_of_two_test() {
    let input = vec![Complex::new(1f64, 0f64); 5];
    assert_eq!(fft(&input).len(), 8);
}

// Convolution of two single samples is their (conjugated) product.
#[test]
fn convolve_single_elements_test() {
    assert_eq!(
        convolve(&vec![Complex::new(2f64, 0f64)], &vec![Complex::new(3f64, 0f64)]),
        vec![Complex::new(6f64, 0f64)]
    );
}

// A sixteen-point round trip crosses two levels of square-root-derived
// roots of unity; it only comes back to the input if forward and inverse
// twiddle factors match at every level.
#[test]
fn round_trip_of_length_sixteen_test() {
    let input: Vec<Complex<f64>> = (0..16)
        .map(|k| Complex::new((3 * k % 7) as f64, (k % 5) as f64))
        .collect();
    assert_eq!(approximate_complex(&fft_rust::ifft(&fft(&input))), input);
}

// Rounding goes to the nearest integer in each component independently,
// away from zero on ties.
#[test]
fn approximate_complex_rounds_each_component_test() {
    assert_eq!(
        approximate_complex(&vec![
            Complex::new(-0.4f64, -1.6f64),
            Complex::new(2.5f64, -1.49f64)
        ]),
        vec![Complex::new(0f64, -2f64), Complex::new(3f64, -1f64)]
    );
}
