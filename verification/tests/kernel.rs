use julia_set::kernel::{get_iter_index, EscapeCounter, CAP};

#[derive(Clone, Copy, Debug, PartialEq)]
struct Complex {
    real: f64,
    imaginary: f64,
}

fn square(z: Complex) -> Complex {
    Complex {
        real: z.real * z.real - z.imaginary * z.imaginary,
        imaginary: 2.0 * z.real * z.imaginary,
    }
}

fn sum(a: Complex, b: Complex) -> Complex {
    Complex { real: a.real + b.real, imaginary: a.imaginary + b.imaginary }
}

fn norm(z: &Complex) -> f64 {
    z.real * z.real + z.imaginary * z.imaginary
}

fn escape_time(z: Complex, c: Complex) -> u32 {
    get_iter_index(z, |p: &Complex| !(norm(p) <= 4.0), |p: Complex| sum(square(p), c))
}

#[test]
fn cap_is_one_thousand() {
    assert_eq!(CAP, 1000);
}

#[test]
fn squaring_one_plus_two_i() {
    let z = square(Complex { real: 1.0, imaginary: 2.0 });
    assert_eq!(z, Complex { real: -3.0, imaginary: 4.0 });
}

#[test]
fn adding_one_plus_two_i_to_itself() {
    let c = Complex { real: 1.0, imaginary: 2.0 };
    let r = sum(c, c);
    assert_eq!(r.real, 2.0);
    assert_eq!(r.imaginary, 4.0);
}

#[test]
fn origin_under_zero_parameter_reaches_the_cap() {
    let zero = Complex { real: 0.0, imaginary: 0.0 };
    assert_eq!(escape_time(zero, zero), 1000);
}

#[test]
fn start_outside_the_radius_counts_zero() {
    let zero = Complex { real: 0.0, imaginary: 0.0 };
    assert_eq!(escape_time(Complex { real: 3.0, imaginary: 0.0 }, zero), 0);
    assert_eq!(escape_time(Complex { real: -1.5, imaginary: -1.5 }, zero), 0);
}

#[test]
fn start_on_the_radius_is_not_outside() {
    // 2 -> 4: the start has squared magnitude 4, which does not exceed the
    // threshold; the next point does.
    let zero = Complex { real: 0.0, imaginary: 0.0 };
    assert_eq!(escape_time(Complex { real: 2.0, imaginary: 0.0 }, zero), 1);
}

#[test]
fn orbit_that_leaves_after_a_few_steps() {
    // 0 -> 1 -> 2 -> 5 under z * z + 1.
    let zero = Complex { real: 0.0, imaginary: 0.0 };
    let one = Complex { real: 1.0, imaginary: 0.0 };
    assert_eq!(escape_time(zero, one), 3);
}

#[test]
fn not_a_number_counts_as_outside() {
    let zero = Complex { real: 0.0, imaginary: 0.0 };
    let nan = Complex { real: f64::NAN, imaginary: 0.0 };
    assert_eq!(escape_time(nan, zero), 0);
    assert_eq!(escape_time(zero, nan), 1);
    let inf = Complex { real: f64::INFINITY, imaginary: 0.0 };
    assert_eq!(escape_time(inf, zero), 0);
}

#[test]
fn kernel_tests_each_point_before_its_step() {
    // Points are plain integers here: the orbit 0, 1, 2, .. leaves at 5.
    let n = get_iter_index(0u64, |p: &u64| *p >= 5, |p: u64| p + 1);
    assert_eq!(n, 5);
    let n = get_iter_index(5u64, |p: &u64| *p >= 5, |p: u64| p + 1);
    assert_eq!(n, 0);
}

#[test]
fn kernel_stops_at_the_cap() {
    let n = get_iter_index(0u64, |_: &u64| false, |p: u64| p + 1);
    assert_eq!(n, 1000);
    let n = get_iter_index(0u64, |p: &u64| *p >= 1000, |p: u64| p + 1);
    assert_eq!(n, 1000);
    let n = get_iter_index(0u64, |p: &u64| *p >= 999, |p: u64| p + 1);
    assert_eq!(n, 999);
}

#[test]
fn kernel_takes_one_step_for_each_count() {
    let steps = std::cell::Cell::new(0u32);
    let n = get_iter_index(
        0u64,
        |p: &u64| *p >= 7,
        |p: u64| {
            steps.set(steps.get() + 1);
            p + 1
        },
    );
    assert_eq!(n, 7);
    assert_eq!(steps.get(), 7);
}

#[test]
fn counter_starts_running_at_zero() {
    let counter = EscapeCounter::new();
    assert!(counter.is_running());
    assert_eq!(counter.count(), 0);
}

#[test]
fn counter_counts_points_inside() {
    let mut counter = EscapeCounter::new();
    assert!(counter.observe(false));
    assert!(counter.observe(false));
    assert_eq!(counter.count(), 2);
    assert!(counter.is_running());
}

#[test]
fn counter_stops_at_an_escape() {
    let mut counter = EscapeCounter::new();
    assert!(counter.observe(false));
    assert!(!counter.observe(true));
    assert!(!counter.is_running());
    assert_eq!(counter.count(), 1);
    // Later observations change nothing.
    assert!(!counter.observe(false));
    assert!(!counter.observe(true));
    assert_eq!(counter.count(), 1);
    assert!(!counter.is_running());
}

#[test]
fn counter_escapes_at_once() {
    let mut counter = EscapeCounter::new();
    assert!(!counter.observe(true));
    assert_eq!(counter.count(), 0);
    assert!(!counter.is_running());
}

#[test]
fn counter_stops_at_the_cap() {
    let mut counter = EscapeCounter::new();
    for k in 0u32..1000 {
        assert!(counter.is_running());
        assert_eq!(counter.count(), k);
        assert!(counter.observe(false));
    }
    assert!(!counter.is_running());
    assert_eq!(counter.count(), 1000);
    assert!(!counter.observe(false));
    assert!(!counter.observe(true));
    assert_eq!(counter.count(), 1000);
}
