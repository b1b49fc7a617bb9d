use num::complex::Complex;

use fft_rust::{approximate_complex, convolve, fft, ifft, is_int_power_of_two, multiply_pointwise,
    next_power_of_two, zero_pad_left};

#[test]
fn fft_test() {
    assert_eq!(
        fft(&vec![Complex::new(2f64, 0f64), Complex::new(2f64, 0f64)]),
        vec![Complex::new(4f64, 0f64), Complex::new(0f64, 0f64)]
    );
    assert_eq!(
        fft(&vec![Complex::new(1f64, 0f64), Complex::new(3f64, 0f64)]),
        vec![Complex::new(4f64, 0f64), Complex::new(-2f64, 0f64)]
    );
    assert_eq!(
        fft(&vec![
            Complex::new(1f64, 0f64),
            Complex::new(1f64, 0f64),
            Complex::new(1f64, 0f64),
            Complex::new(1f64, 0f64)
        ]),
        vec![
            Complex::new(4f64, 0f64),
            Complex::new(0f64, 0f64),
            Complex::new(0f64, 0f64),
            Complex::new(0f64, 0f64)
        ]
    );
    assert_eq!(
        fft(&vec![
            Complex::new(2f64, 0f64),
            Complex::new(7f64, 0f64),
            Complex::new(-1f64, 0f64)
        ]),
        vec![
            Complex::new(8f64, 0f64),
            Complex::new(-7f64, -3f64),
            Complex::new(6f64, 0f64),
            Complex::new(-7f64, 3f64)
        ]
    );
    assert_eq!(
        fft(&vec![
            Complex::new(4f64, 0f64),
            Complex::new(3f64, 0f64),
            Complex::new(-5f64, 0f64),
            Complex::new(1f64, 0f64)
        ]),
        vec![
            Complex::new(3f64, 0f64),
            Complex::new(9f64, -2f64),
            Complex::new(-5f64, 0f64),
            Complex::new(9f64, 2f64)
        ]
    );
}

#[test]
fn ifft_test() {
    assert_eq!(
        ifft(&vec![Complex::new(4f64, 0f64), Complex::new(0f64, 0f64)]),
        vec![Complex::new(2f64, 0f64), Complex::new(2f64, 0f64)]
    );
    assert_eq!(
        ifft(&vec![Complex::new(4f64, 0f64), Complex::new(-2f64, 0f64)]),
        vec![Complex::new(1f64, 0f64), Complex::new(3f64, 0f64)]
    );
    assert_eq!(
        ifft(&vec![
            Complex::new(4f64, 0f64),
            Complex::new(0f64, 0f64),
            Complex::new(0f64, 0f64),
            Complex::new(0f64, 0f64)
        ]),
        vec![
            Complex::new(1f64, 0f64),
            Complex::new(1f64, 0f64),
            Complex::new(1f64, 0f64),
            Complex::new(1f64, 0f64)
        ]
    );
}

#[test]
fn ifft_reverses_fft_test() {
    assert_eq!(
        approximate_complex(&ifft(&fft(&vec![
            Complex::new(2f64, 0f64),
            Complex::new(2f64, 0f64)
        ]))),
        vec![Complex::new(2f64, 0f64), Complex::new(2f64, 0f64)]
    );
    assert_eq!(
        approximate_complex(&ifft(&fft(&vec![
            Complex::new(2f64, 0f64),
            Complex::new(2f64, 0f64),
            Complex::new(2f64, 0f64)
        ]))),
        vec![
            Complex::new(0f64, 0f64),
            Complex::new(2f64, 0f64),
            Complex::new(2f64, 0f64),
            Complex::new(2f64, 0f64)
        ]
    );
    assert_eq!(
        approximate_complex(&ifft(&fft(&vec![
            Complex::new(2f64, 0f64),
            Complex::new(7f64, 0f64),
            Complex::new(-1f64, 0f64)
        ]))),
        vec![
            Complex::new(0f64, 0f64),
            Complex::new(2f64, 0f64),
            Complex::new(7f64, 0f64),
            Complex::new(-1f64, 0f64)
        ]
    );
}

#[test]
fn convolve_test() {
    let list_a = vec![
        // binary 0110 -> decimal 6
        Complex::new(0f64, 0f64),
        Complex::new(1f64, 0f64),
        Complex::new(1f64, 0f64),
        Complex::new(0f64, 0f64),
    ];
    let list_b = vec![
        // binary 0010 -> decimal 2
        Complex::new(0f64, 0f64),
        Complex::new(0f64, 0f64),
        Complex::new(1f64, 0f64),
        Complex::new(0f64, 0f64),
    ];
    let output = convolve(&list_a, &list_b);
    assert_eq!(
        approximate_complex(&output),
        vec![
            // binary 1100 -> decimal 12
            Complex::new(1f64, 0f64),
            Complex::new(1f64, 0f64),
            Complex::new(0f64, 0f64),
            Complex::new(0f64, 0f64)
        ]
    );

    let mut list_c = vec![
        // decimal 25
        Complex::new(0f64, 0f64),
        Complex::new(0f64, 0f64),
        Complex::new(2f64, 0f64),
        Complex::new(5f64, 0f64),
    ];
    let list_d = vec![
        // decimal 25
        Complex::new(0f64, 0f64),
        Complex::new(0f64, 0f64),
        Complex::new(2f64, 0f64),
        Complex::new(5f64, 0f64),
    ];
    list_c.reverse(); // why do i need to reverse this one to get the answer??
    let output2 = convolve(&list_c, &list_d);
    assert_eq!(
        approximate_complex(&output2),
        vec![
            // decimal 400 + 200 + 25 = 625
            Complex::new(0f64, 0f64),
            Complex::new(4f64, 0f64),
            Complex::new(20f64, 0f64),
            Complex::new(25f64, 0f64)
        ]
    );
}

#[test]
fn multiply_pointwise_test() {
    let list_a = vec![
        // binary 0110 -> decimal 6
        Complex::new(0f64, 0f64),
        Complex::new(1f64, 0f64),
        Complex::new(1f64, 0f64),
        Complex::new(0f64, 0f64),
    ];
    let list_b = vec![
        // binary 0010 -> decimal 2
        Complex::new(0f64, 0f64),
        Complex::new(0f64, 0f64),
        Complex::new(1f64, 0f64),
        Complex::new(0f64, 0f64),
    ];
    let output = multiply_pointwise(&list_a, &list_b);
    assert_eq!(
        output,
        vec![
            // binary 0010 -> decimal 2
            Complex::new(0f64, 0f64),
            Complex::new(0f64, 0f64),
            Complex::new(1f64, 0f64),
            Complex::new(0f64, 0f64)
        ]
    );
}

#[test]
fn approximate_complex_test() {
    let arg = vec![
        Complex::new(1f64, 0.000001f64),
        Complex::new(2.00000001f64, 0f64),
    ];
    assert_eq!(
        approximate_complex(&arg),
        vec![Complex::new(1f64, 0f64), Complex::new(2f64, 0f64)]
    );
}

#[test]
fn zero_pad_left_test() {
    assert_eq!(
        zero_pad_left(&vec![Complex::new(1f64, 0f64)], 1),
        vec![Complex::new(0f64, 0f64), Complex::new(1f64, 0f64)]
    );
    assert_eq!(
        zero_pad_left(&vec![Complex::new(1f64, 0f64)], 0),
        vec![Complex::new(1f64, 0f64)]
    );
    assert_eq!(
        zero_pad_left(
            &vec![
                Complex::new(1f64, 0f64),
                Complex::new(2f64, 0f64),
                Complex::new(3f64, 0f64),
                Complex::new(4f64, 0f64)
            ],
            4
        ),
        vec![
            Complex::new(0f64, 0f64),
            Complex::new(0f64, 0f64),
            Complex::new(0f64, 0f64),
            Complex::new(0f64, 0f64),
            Complex::new(1f64, 0f64),
            Complex::new(2f64, 0f64),
            Complex::new(3f64, 0f64),
            Complex::new(4f64, 0f64)
        ]
    );
}

#[test]
fn is_power_of_two_test() {
    assert_eq!(is_int_power_of_two(0), false);
    assert_eq!(is_int_power_of_two(1), true);
    assert_eq!(is_int_power_of_two(2), true);
    assert_eq!(is_int_power_of_two(3), false);
    assert_eq!(is_int_power_of_two(4), true);
}

#[test]
fn next_power_of_two_test() {
    assert_eq!(next_power_of_two(1), 1);
    assert_eq!(next_power_of_two(2), 2);
    assert_eq!(next_power_of_two(3), 4);
    assert_eq!(next_power_of_two(5), 8);
    assert_eq!(next_power_of_two(9), 16);
    assert_eq!(next_power_of_two(17), 32);
}
