use raytracer::fixed::{fx_clamp, fx_div, fx_mul, fx_sqrt, EPS, SCALE, T_MAX};
use raytracer::math::Vec3;
use raytracer::utils::Rng;

const S: i128 = SCALE;

#[test]
fn scale_constants_are_consistent() {
    assert_eq!(S, 1 << 32);
    assert!(EPS > 0);
    assert!(T_MAX > EPS);
}

#[test]
fn fixed_mul_rescales_exactly() {
    assert_eq!(fx_mul(2 * S, 3 * S), 6 * S);
    assert_eq!(fx_mul(S / 2, S / 2), S / 4);
    assert_eq!(fx_mul(-2 * S, 3 * S), -6 * S);
    assert_eq!(fx_mul(0, 12345), 0);
}

#[test]
fn fixed_mul_truncates_toward_zero() {
    // 1/3 * 3 in fixed point: (S/3) has a truncated representation.
    let third = S / 3;
    let prod = fx_mul(third, 3 * S);
    assert!(prod <= S && S - prod <= 3);
    assert_eq!(fx_mul(-1, 1), 0);
}

#[test]
fn fixed_div_rescales_exactly() {
    assert_eq!(fx_div(6 * S, 3 * S), 2 * S);
    assert_eq!(fx_div(S, 2 * S), S / 2);
    assert_eq!(fx_div(-6 * S, 3 * S), -2 * S);
    assert_eq!(fx_div(S, -2 * S), -(S / 2));
}

#[test]
fn fixed_sqrt_is_exact_on_squares() {
    assert_eq!(fx_sqrt(4 * S), 2 * S);
    assert_eq!(fx_sqrt(25 * S), 5 * S);
    assert_eq!(fx_sqrt(0), 0);
    assert_eq!(fx_sqrt(S), S);
}

#[test]
fn fixed_sqrt_truncates() {
    let r = fx_sqrt(2 * S);
    // sqrt(2) = 1.41421356..., scaled: 6074000999.xx
    assert_eq!(r, 6074000999);
}

#[test]
fn fixed_clamp() {
    assert_eq!(fx_clamp(-5, 0, S), 0);
    assert_eq!(fx_clamp(2 * S, 0, S), S);
    assert_eq!(fx_clamp(17, 0, S), 17);
}

#[test]
fn vector_componentwise_ops() {
    let a = Vec3::new(S, 2 * S, 3 * S);
    let b = Vec3::new(4 * S, 5 * S, 6 * S);
    let sum = a.add(&b);
    assert_eq!((sum.x, sum.y, sum.z), (5 * S, 7 * S, 9 * S));
    let diff = b.sub(&a);
    assert_eq!((diff.x, diff.y, diff.z), (3 * S, 3 * S, 3 * S));
    let had = a.hadamard(&b);
    assert_eq!((had.x, had.y, had.z), (4 * S, 10 * S, 18 * S));
    let neg = a.neg();
    assert_eq!((neg.x, neg.y, neg.z), (-S, -2 * S, -3 * S));
    let sc = a.scale(2 * S);
    assert_eq!((sc.x, sc.y, sc.z), (2 * S, 4 * S, 6 * S));
    let dv = a.div_int(2);
    assert_eq!((dv.x, dv.y, dv.z), (S / 2, S, 3 * S / 2));
}

#[test]
fn dot_and_cross_products() {
    let a = Vec3::new(S, 2 * S, 3 * S);
    let b = Vec3::new(4 * S, 5 * S, 6 * S);
    assert_eq!(a.dot(&b), 32 * S);
    let c = a.cross(&b);
    assert_eq!((c.x, c.y, c.z), (-3 * S, 6 * S, -3 * S));
    // The cross product is orthogonal to both factors.
    assert_eq!(a.dot(&c), 0);
    assert_eq!(b.dot(&c), 0);
}

#[test]
fn length_of_pythagorean_triple() {
    let v = Vec3::new(3 * S, 4 * S, 0);
    assert_eq!(v.length_squared(), 25 * S);
    assert_eq!(v.length(), 5 * S);
}

#[test]
fn unit_normalizes_exactly_on_axes() {
    let v = Vec3::new(0, 0, 7 * S);
    let u = v.unit();
    assert_eq!((u.x, u.y, u.z), (0, 0, S));
}

#[test]
fn unit_truncates_components() {
    let v = Vec3::new(3 * S, 4 * S, 0);
    let u = v.unit();
    // 0.6 and 0.8, truncated toward zero at the last fixed-point step.
    assert_eq!(u.x, 3 * S * S / (5 * S));
    assert_eq!(u.y, 4 * S * S / (5 * S));
    assert_eq!(u.z, 0);
}

#[test]
fn unit_vector_length_is_one_within_tolerance() {
    // The proved law: for vectors of at least unit length, the squared
    // length of the normalization is within 16 fixed-point steps of one
    // (about 4e-9 in real terms).
    let cases = [
        Vec3::new(S, S, S),
        Vec3::new(3 * S, 4 * S, 0),
        Vec3::new(-7 * S, 2 * S + 12345, 9 * S - 67),
        Vec3::new(S, 0, 0),
        Vec3::new(123456789012, 987654321098, 555555555555),
    ];
    for v in cases {
        let u = v.unit();
        let n2 = u.length_squared();
        assert!(n2 >= S - 16, "norm2 too small: {n2}");
        assert!(n2 <= S + 16, "norm2 too large: {n2}");
        // And normalizing an already unit vector stays unit.
        let uu = u.unit();
        let nn2 = uu.length_squared();
        assert!(nn2 >= S - 16 && nn2 <= S + 16);
    }
}

#[test]
fn random_unit_sphere_is_unit() {
    let mut rng = Rng::new(7);
    for _ in 0..32 {
        let u = Vec3::random_unit_sphere(&mut rng);
        let n2 = u.length_squared();
        assert!(n2 >= S - 16 && n2 <= S + 24);
        assert!(u.x.abs() <= 2 * S && u.y.abs() <= 2 * S && u.z.abs() <= 2 * S);
    }
}

#[test]
fn rng_is_deterministic_for_a_seed() {
    let mut a = Rng::new(42);
    let mut b = Rng::new(42);
    for _ in 0..16 {
        assert_eq!(a.next_u64(), b.next_u64());
    }
    let expected = (42u128 * 6364136223846793005 + 1442695040888963407) % (1u128 << 64);
    let mut c = Rng::new(42);
    assert_eq!(c.next_u64() as u128, expected);
}

#[test]
fn rng_next_in_stays_in_range() {
    let mut rng = Rng::new(99);
    for _ in 0..64 {
        let x = rng.next_in(-S, S);
        assert!(-S <= x && x < S);
    }
}

#[test]
fn random_double_bounds() {
    for _ in 0..32 {
        let x = raytracer::utils::random_double();
        assert!(0 <= x && x < S);
        let y = raytracer::utils::random_double_in(-3 * S, 5 * S);
        assert!(-3 * S <= y && y < 5 * S);
        let z = raytracer::utils::random_double_in(7, 7);
        assert_eq!(z, 7);
    }
}

#[test]
fn scalar_division_truncates_toward_zero() {
    let v = Vec3::new(3 * S, -3 * S, S);
    let d = v.div_scalar(2 * S);
    assert_eq!((d.x, d.y, d.z), (3 * S / 2, -(3 * S / 2), S / 2));
    let t = Vec3::new(S, 0, 0).div_scalar(3 * S);
    assert_eq!(t.x, S * S / (3 * S));
}

#[test]
fn in_place_ops_match_their_pure_forms() {
    let a = Vec3::new(S, 2 * S, 3 * S);
    let b = Vec3::new(4 * S, 5 * S, 6 * S);
    let mut m = a;
    m.add_assign(&b);
    let p = a.add(&b);
    assert_eq!((m.x, m.y, m.z), (p.x, p.y, p.z));
    let mut m = a;
    m.sub_assign(&b);
    let p = a.sub(&b);
    assert_eq!((m.x, m.y, m.z), (p.x, p.y, p.z));
    let mut m = a;
    m.hadamard_assign(&b);
    let p = a.hadamard(&b);
    assert_eq!((m.x, m.y, m.z), (p.x, p.y, p.z));
    let mut m = a;
    m.scale_assign(7);
    let p = a.scale(7);
    assert_eq!((m.x, m.y, m.z), (p.x, p.y, p.z));
}
