use num::complex::Complex;
use num::Zero;
use polylog::li4::{Side, Tetralog, Shift, MINUS_SEVEN_EIGHTHS_ZETA_4, ZETA_4};
use polylog::{Double, Li4, Polar};

const PI: f64 = 3.141592653589793;

fn d(x: f64) -> Double {
    Double { bits: x.to_bits() }
}

fn c(re: f64, im: f64) -> polylog::Complex {
    polylog::Complex { re: d(re), im: d(im) }
}

fn polar(z: Complex<f64>) -> Polar {
    let nz = z.norm_sqr();
    let pz = z.arg();
    let lnz = 0.5 * nz.ln();
    Polar { z: c(z.re, z.im), norm_sqr: d(nz), arg: d(pz), log_norm_sqr: d(lnz * lnz + pz * pz) }
}

fn numbers() -> Vec<f64> {
    let positive: Vec<f64> = vec![
        0.0,
        f64::from_bits(1),
        1e-300,
        1e-9,
        0.25,
        0.5,
        0.9999999999999999,
        1.0,
        1.0000000000000002,
        2.0,
        3.141592653589793,
        1e300,
        f64::INFINITY,
        f64::NAN,
    ];
    let mut all: Vec<f64> = Vec::new();
    for x in positive.iter() {
        all.push(*x);
        all.push(-*x);
    }
    all
}

/// The logarithm that reads a zero of either sign as positive zero.
fn cln(z: Complex<f64>) -> Complex<f64> {
    let z = c(z.re, z.im).canonical();
    let z = Complex::new(f64::from_bits(z.re.bits), f64::from_bits(z.im.bits));
    Complex::new(0.5 * z.norm_sqr().ln(), z.arg())
}

/// The fourth-order polylogarithm in rounded arithmetic, on the expansion and values that
/// the library gives.
fn li4(z: Complex<f64>) -> Complex<f64> {
    let pi2 = PI * PI;
    let z4 = 1.082323233711138;
    let bf = [
        1.,
        -7. / 16.,
        1.165123456790123e-01,
        -1.982060185185185e-02,
        1.927932098765432e-03,
        -3.105709876543209e-05,
        -1.562400911485783e-05,
        8.485123546773206e-07,
        2.290961660318971e-07,
        -2.183261421852691e-08,
        -3.882824879172015e-09,
        5.446292103220332e-10,
        6.960805210682725e-11,
        -1.337573768644521e-11,
        -1.278485268526657e-12,
        3.260562858024892e-13,
        2.364757116861825e-14,
        -7.923135122031161e-15,
    ];
    let pz = z.arg();
    let lnz = 0.5 * z.norm_sqr().ln();
    let side = match polar(z).li4() {
        Tetralog::Value(value) => {
            return Complex::new(f64::from_bits(value.re.bits), f64::from_bits(value.im.bits));
        }
        Tetralog::NearOne => {
            let u = Complex::new(lnz, pz);
            let u2 = u * u;
            let c1 = 1.202056903159594;
            let c2 = 0.8224670334241132;
            let c3 = (11.0 / 6.0 - cln(-u)) / 6.0;
            let c4 = -1.0 / 48.0;
            let cs = [
                -6.944444444444444e-04,
                1.653439153439153e-06,
                -1.093544413650234e-08,
                1.043837849393405e-10,
                -1.216594230062244e-12,
                1.613000652835010e-14,
                -2.342881045287934e-16,
            ];
            let mut tail = Complex::new(0., 0.);
            for k in cs.iter().rev() {
                tail = k + u2 * tail;
            }
            return z4 + u2 * (c2 + u2 * c4) + u * (c1 + u2 * (c3 + u2 * tail));
        }
        Tetralog::Series(side) => side,
    };
    let (u, rest) = match side {
        Side::Inside => (-cln(1. - z), Complex::new(0., 0.)),
        Side::Outside(shift) => {
            let pi4 = pi2 * pi2;
            let arg = match shift {
                Shift::MinusPi => pz - PI,
                Shift::PlusPi => pz + PI,
            };
            let lmz = Complex::new(lnz, arg);
            let lmz2 = lmz * lmz;
            (-cln(1. - 1. / z), 1. / 360. * (-7. * pi4 + lmz2 * (-30. * pi2 - 15. * lmz2)))
        }
    };
    let sgn = f64::from(side.sign());
    let mut tail = Complex::new(0., 0.);
    for b in bf.iter().rev() {
        tail = u * (b + tail);
    }
    rest + sgn * tail
}

fn assert_eq_complex(found: Complex<f64>, expected: Complex<f64>, eps: f64) {
    assert!((found.re - expected.re).abs() < eps, "found {}, expected {}", found, expected);
    assert!((found.im - expected.im).abs() < eps, "found {}, expected {}", found, expected);
}

#[test]
fn special_values() {
    let eps = 1e-15;
    let z4 = 1.082323233711138;
    let zero = Complex::zero();

    assert_eq_complex(li4(zero), zero, eps);
    assert_eq_complex(li4(Complex::new(1., 0.)), Complex::new(z4, 0.), eps);
    assert_eq_complex(li4(Complex::new(-1., 0.)), Complex::new(-7. / 8. * z4, 0.), eps);
    assert_eq_complex(li4(Complex::new(0.5, 0.)), Complex::new(0.5174790616738994, 0.), eps);
}

#[test]
fn test_values() {
    let eps = 1e-14;
    let values = [
        (Complex::new(0.5, 0.0), Complex::new(0.51747906167389939, 0.0)),
        (Complex::new(0.3, 0.0), Complex::new(0.30599453530775615, 0.0)),
        (Complex::new(-2.0, 0.0), Complex::new(-1.8131260153284912, 0.0)),
        (Complex::new(2.0, 0.0), Complex::new(2.4278628067547031, -0.17437130002545306)),
        (Complex::new(0.0, 1.0), Complex::new(-0.05918955184357787, 0.98894455174110534)),
        (Complex::new(1.0, 1.0), Complex::new(0.95931891357841926, 1.1380391966769828)),
        (Complex::new(-1.0, 1.0), Complex::new(-0.98574321042360463, 0.89692244253214969)),
        (Complex::new(0.7, 0.3), Complex::new(0.72644254930377841, 0.33313884650367863)),
        (Complex::new(0.2, -0.9), Complex::new(0.14841845581233179, -0.91349378445875258)),
        (Complex::new(3.0, 4.0), Complex::new(1.7828191078806618, 4.6508748375397671)),
        (Complex::new(-3.0, -0.5), Complex::new(-2.6263105434010214, -0.39126068929159125)),
        (Complex::new(0.9, 0.05), Complex::new(0.96362071389567845, 0.058300190930411508)),
        (Complex::new(0.1, 0.1), Complex::new(0.099973682516645805, 0.10127462085477094)),
        (Complex::new(1.2, 0.4), Complex::new(1.2906370747421412, 0.49860950055410965)),
        (Complex::new(-0.4, -0.3), Complex::new(-0.39524597479032737, -0.28631488759561321)),
        (Complex::new(10.0, -3.0), Complex::new(7.332504525049886, -8.1044936165174119)),
    ];

    for &(v, li4_v) in values.iter() {
        assert_eq_complex(li4(v), li4_v, eps);
    }
}

#[test]
fn closed_forms_at_zero_one_and_minus_one() {
    let z4: f64 = 1.082323233711138;
    assert_eq!(ZETA_4, z4.to_bits());
    assert_eq!(MINUS_SEVEN_EIGHTHS_ZETA_4, (-7. / 8. * z4).to_bits());
    for im in [0.0, -0.0] {
        assert_eq!(polar(Complex::new(0.0, im)).li4(), Tetralog::Value(c(0.0, 0.0)));
        assert_eq!(polar(Complex::new(-0.0, im)).li4(), Tetralog::Value(c(0.0, 0.0)));
        assert_eq!(polar(Complex::new(1.0, im)).li4(), Tetralog::Value(c(z4, 0.0)));
        assert_eq!(polar(Complex::new(-1.0, im)).li4(), Tetralog::Value(c(-7. / 8. * z4, 0.0)));
    }
}

#[test]
fn closed_forms_only_on_the_real_axis() {
    let all = numbers();
    for re in all.iter() {
        for im in all.iter() {
            let closed = matches!(polar(Complex::new(*re, *im)).li4(), Tetralog::Value(_));
            let expected = *im == 0.0 && (*re == 0.0 || *re == 1.0 || *re == -1.0);
            assert_eq!(closed, expected, "{:e} + {:e} i", re, im);
        }
    }
}

#[test]
fn sides_of_the_unit_circle() {
    assert_eq!(Side::choose_for(d(1.0), d(0.3)), Side::Inside);
    assert_eq!(Side::choose_for(d(0.25), d(-3.0)), Side::Inside);
    assert_eq!(Side::choose_for(d(1.0000000000000002), d(0.3)), Side::Outside(Shift::MinusPi));
    assert_eq!(Side::choose_for(d(4.0), d(f64::from_bits(1))), Side::Outside(Shift::MinusPi));
    assert_eq!(Side::choose_for(d(4.0), d(0.0)), Side::Outside(Shift::PlusPi));
    assert_eq!(Side::choose_for(d(4.0), d(-0.0)), Side::Outside(Shift::PlusPi));
    assert_eq!(Side::choose_for(d(4.0), d(-3.0)), Side::Outside(Shift::PlusPi));
    assert_eq!(Side::choose_for(d(f64::INFINITY), d(PI)), Side::Outside(Shift::MinusPi));
    assert_eq!(Side::choose_for(d(f64::NAN), d(1.0)), Side::Outside(Shift::MinusPi));
    assert_eq!(Side::choose_for(d(f64::NAN), d(f64::NAN)), Side::Outside(Shift::PlusPi));
    assert_eq!(Side::choose_for(d(4.0), d(f64::NAN)), Side::Outside(Shift::PlusPi));
    assert_eq!(Side::Inside.sign(), 1);
    assert_eq!(Side::Outside(Shift::MinusPi).sign(), -1);
    assert_eq!(Side::Outside(Shift::PlusPi).sign(), -1);
}

#[test]
fn expansion_goes_by_the_size_of_the_logarithm() {
    let z = c(0.5, 0.25);
    let near = Polar { z, norm_sqr: d(0.3125), arg: d(0.4636476090008061), log_norm_sqr: d(0.9999999999999999) };
    assert_eq!(near.li4(), Tetralog::NearOne);
    let edge = Polar { log_norm_sqr: d(1.0), ..near };
    assert_eq!(edge.li4(), Tetralog::Series(Side::Inside));
    let unknown = Polar { log_norm_sqr: d(f64::NAN), ..near };
    assert_eq!(unknown.li4(), Tetralog::Series(Side::Inside));
    let negative = Polar { log_norm_sqr: d(-1.0), ..near };
    assert_eq!(negative.li4(), Tetralog::NearOne);
}

#[test]
fn expansion_agrees_with_the_comparisons_of_numbers() {
    let all = numbers();
    for nz in all.iter() {
        for pz in all.iter() {
            for l in [0.5, 1.0, 1.5, f64::NAN] {
                let expected = if l < 1. {
                    Tetralog::NearOne
                } else if *nz <= 1.0 {
                    Tetralog::Series(Side::Inside)
                } else if *pz > 0.0 {
                    Tetralog::Series(Side::Outside(Shift::MinusPi))
                } else {
                    Tetralog::Series(Side::Outside(Shift::PlusPi))
                };
                let argument = Polar { z: c(0.5, 0.25), norm_sqr: d(*nz), arg: d(*pz), log_norm_sqr: d(l) };
                assert_eq!(argument.li4(), expected, "{:e} {:e} {:e}", nz, pz, l);
            }
        }
    }
}

#[test]
fn expansions_meet_where_the_logarithm_has_size_one() {
    let directions: [f64; 16] = [
        -2.945, -2.553, -2.16, -1.767, -1.374, -0.982, -0.589, -0.196, 0.196, 0.589, 0.982, 1.374,
        1.767, 2.16, 2.553, 2.945,
    ];
    for phi in directions.iter() {
        let below = Complex::from_polar(1.0 - 1e-12, *phi).exp();
        let above = Complex::from_polar(1.0 + 1e-12, *phi).exp();
        assert_eq!(polar(below).li4(), Tetralog::NearOne);
        assert!(matches!(polar(above).li4(), Tetralog::Series(_)));
        assert_eq_complex(li4(below), li4(above), 1e-10);
    }
}

#[test]
fn signed_zero_is_read_as_positive_zero_by_the_logarithm() {
    assert_eq!(c(-0.0, -0.0).canonical(), c(0.0, 0.0));
    assert_eq!(c(-2.0, -0.0).canonical(), c(-2.0, 0.0));
    assert_eq!(c(-0.0, 3.0).canonical(), c(0.0, 3.0));
    assert_eq!(c(1.5, -2.5).canonical(), c(1.5, -2.5));
    let on_the_cut = cln(Complex::new(-2.0, -0.0));
    assert_eq!(on_the_cut.im.to_bits(), PI.to_bits());
    assert_eq!(on_the_cut.re.to_bits(), (0.5 * 4.0f64.ln()).to_bits());
    assert_eq!(cln(Complex::new(-0.0, 1.0)).im.to_bits(), (PI / 2.0).to_bits());
}

#[test]
fn conjugation_changes_the_sign_of_the_imaginary_part_alone() {
    assert_eq!(c(1.0, 2.0).conj(), c(1.0, -2.0));
    assert_eq!(c(1.0, -0.0).conj(), c(1.0, 0.0));
    assert_eq!(c(-3.5, 0.0).conj().im.bits, (-0.0f64).to_bits());
    assert_eq!(c(1.0, 2.0).conj().conj(), c(1.0, 2.0));
}
