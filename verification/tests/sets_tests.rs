// All values are fixed-point integers; each test picks its own scale and
// sticks to it (mostly 100, so 1.00 is written 100).

use fuzzy_trade::arith::MAX_VAL;
use fuzzy_trade::errors::FuzzyError;
use fuzzy_trade::set::{arange, FuzzySet, LinguisticVar};
use fuzzy_trade::shape::{trapezoidal, triangular, Shape};

#[test]
fn test_arange() {
    assert_eq!(arange(0, 5, 1).unwrap(), vec![0, 1, 2, 3, 4, 5]);
    // 0.0 to 0.5 in steps of 0.1, at scale 100
    assert_eq!(arange(0, 50, 10).unwrap(), vec![0, 10, 20, 30, 40, 50]);
}

#[test]
fn test_degree() {
    // universe 0.00..10.00 step 0.01, triangular(5, 0.8, 3), at scale 100
    let u = arange(0, 1000, 1).unwrap();
    let s1 = FuzzySet::new(
        &u,
        &Shape::Triangular(triangular(500, 80, 300)),
        "f1".to_string(),
    );
    assert_eq!(s1.degree_of(1100), 0);
    assert_eq!(s1.degree_of(500), 80);
    assert_eq!(s1.degree_of(350), 40);
    assert_eq!(s1.degree_of(0), 0);
    assert_eq!(s1.degree_of(-100), 0);
}

#[test]
fn linguistic() {
    let var1 = LinguisticVar::new(
        vec![
            (Shape::Triangular(triangular(500, 80, 300)), "normal".to_string()),
            (Shape::Triangular(triangular(300, 80, 150)), "weak".to_string()),
        ],
        arange(0, 1000, 1).unwrap(),
    );
    assert_eq!(var1.term(&"normal".to_string()).unwrap().degree_of(500), 80);
    assert_eq!(var1.term(&"weak".to_string()).unwrap().degree_of(300), 80);
}

#[test]
fn triangular_zero_outside_and_peak() {
    let t = triangular(2000, 100, 2000);
    // outside the support [0, 4000] the degree is exactly zero
    assert_eq!(t.function(-100), 0);
    assert_eq!(t.function(4001), 0);
    assert_eq!(t.function(9000), 0);
    // at the center the degree is exactly the peak height
    assert_eq!(t.function(2000), 100);
    // halfway down the slope
    assert_eq!(t.function(1000), 50);
    assert_eq!(t.function(3000), 50);
    // the support boundary itself
    assert_eq!(t.function(0), 0);
    assert_eq!(t.function(4000), 0);
}

#[test]
fn trapezoidal_profile() {
    let t = trapezoidal(-10000, -5000, 5000, 10000, 100);
    assert_eq!(t.function(-12000), 0);
    assert_eq!(t.function(-10000), 0);
    assert_eq!(t.function(-7500), 50);
    assert_eq!(t.function(-5000), 100);
    assert_eq!(t.function(0), 100);
    assert_eq!(t.function(5000), 100);
    assert_eq!(t.function(7500), 50);
    assert_eq!(t.function(10000), 0);
    assert_eq!(t.function(12000), 0);
}

#[test]
fn arange_endpoints() {
    // step does not divide the range: the last point stops short of `stop`
    // but stays within one step of it
    let u = arange(0, 100, 7).unwrap();
    assert_eq!(u.len(), 15);
    assert_eq!(u[0], 0);
    assert_eq!(*u.last().unwrap(), 98);
    assert!(*u.last().unwrap() <= 100);
    assert!(*u.last().unwrap() > 100 - 7);
    for i in 1..u.len() {
        assert!(u[i - 1] < u[i]);
    }
}

#[test]
fn arange_rejects_malformed_requests() {
    assert_eq!(arange(5, 0, 1).unwrap_err(), FuzzyError::Configuration);
    assert_eq!(arange(0, 5, 0).unwrap_err(), FuzzyError::Configuration);
    assert_eq!(arange(0, 5, -2).unwrap_err(), FuzzyError::Configuration);
    // a universe longer than the library's length bound is refused as well
    assert_eq!(
        arange(0, MAX_VAL, 1).unwrap_err(),
        FuzzyError::Configuration
    );
}

#[test]
fn arange_accepts_a_single_point() {
    assert_eq!(arange(7, 7, 3).unwrap(), vec![7]);
}

#[test]
fn degree_ties_break_toward_the_lower_index() {
    // 5 is equally far from 0 and 10; the first-encountered point wins
    let s = FuzzySet {
        name: "tie".to_string(),
        universe: vec![0, 10],
        membership: vec![7, 9],
    };
    assert_eq!(s.degree_of(5), 7);
    assert_eq!(s.degree_of(6), 9);
}

#[test]
fn degree_clamps_at_boundaries() {
    let u = arange(0, 1000, 1).unwrap();
    // a set whose membership at the lower boundary is the peak itself
    let low = FuzzySet::new(
        &u,
        &Shape::Triangular(triangular(0, 100, 500)),
        "low".to_string(),
    );
    assert_eq!(low.degree_of(-5), low.membership[0]);
    assert_eq!(low.degree_of(-5), 100);
    let high = FuzzySet::new(
        &u,
        &Shape::Triangular(triangular(1000, 100, 500)),
        "high".to_string(),
    );
    assert_eq!(high.degree_of(1100), *high.membership.last().unwrap());
    assert_eq!(high.degree_of(1100), 100);
}

#[test]
fn union_is_idempotent_and_commutative() {
    let u = arange(0, 1000, 1).unwrap();
    let a = FuzzySet::new(
        &u,
        &Shape::Triangular(triangular(300, 100, 300)),
        "a".to_string(),
    );
    let b = FuzzySet::new(
        &u,
        &Shape::Trapezoidal(trapezoidal(400, 600, 800, 1000, 90)),
        "b".to_string(),
    );
    let aa = a.std_union(&a, "aa".to_string()).unwrap();
    assert_eq!(aa.membership, a.membership);
    let ab = a.std_union(&b, "ab".to_string()).unwrap();
    let ba = b.std_union(&a, "ba".to_string()).unwrap();
    assert_eq!(ab.membership, ba.membership);
    for i in 0..u.len() {
        assert_eq!(ab.membership[i], a.membership[i].max(b.membership[i]));
    }
}

#[test]
fn intersect_is_commutative_and_pointwise_min() {
    let u = arange(0, 1000, 1).unwrap();
    let a = FuzzySet::new(
        &u,
        &Shape::Triangular(triangular(300, 100, 300)),
        "a".to_string(),
    );
    let b = FuzzySet::new(
        &u,
        &Shape::Triangular(triangular(700, 80, 400)),
        "b".to_string(),
    );
    let ab = a.std_intersect(&b, "ab".to_string()).unwrap();
    let ba = b.std_intersect(&a, "ba".to_string()).unwrap();
    assert_eq!(ab.membership, ba.membership);
    for i in 0..u.len() {
        assert_eq!(ab.membership[i], a.membership[i].min(b.membership[i]));
    }
}

#[test]
fn combining_different_universes_is_a_domain_mismatch() {
    let a = FuzzySet::new(
        &arange(0, 1000, 1).unwrap(),
        &Shape::Triangular(triangular(300, 100, 300)),
        "a".to_string(),
    );
    let b = FuzzySet::new(
        &arange(0, 1000, 2).unwrap(),
        &Shape::Triangular(triangular(300, 100, 300)),
        "b".to_string(),
    );
    assert_eq!(
        a.std_union(&b, "x".to_string()).unwrap_err(),
        FuzzyError::DomainMismatch
    );
    assert_eq!(
        a.std_intersect(&b, "x".to_string()).unwrap_err(),
        FuzzyError::DomainMismatch
    );
}

#[test]
fn clipping_takes_the_pointwise_minimum() {
    let u = arange(0, 1000, 1).unwrap();
    let a = FuzzySet::new(
        &u,
        &Shape::Triangular(triangular(500, 100, 500)),
        "a".to_string(),
    );
    let clipped = a.min(40, "clipped".to_string());
    for i in 0..u.len() {
        assert_eq!(clipped.membership[i], a.membership[i].min(40));
    }
}

#[test]
fn centroid_of_symmetric_triangular_is_the_center() {
    // universe 0..60.00, triangular centered at 30.00 whose support is the
    // whole universe: the centroid is the center, exactly
    let u = arange(0, 6000, 1).unwrap();
    let s = FuzzySet::new(
        &u,
        &Shape::Triangular(triangular(3000, 100, 3000)),
        "s".to_string(),
    );
    assert_eq!(s.centroid_defuzz().unwrap(), 3000);
    // clipping preserves the symmetry, so the centroid stays put
    let clipped = s.min(75, "clipped".to_string());
    assert_eq!(clipped.centroid_defuzz().unwrap(), 3000);
}

#[test]
fn centroid_of_all_zero_set_is_degenerate() {
    let u = arange(0, 100, 1).unwrap();
    // the shape's support lies entirely outside the universe
    let s = FuzzySet::new(
        &u,
        &Shape::Triangular(triangular(10000, 100, 100)),
        "s".to_string(),
    );
    assert_eq!(
        s.centroid_defuzz().unwrap_err(),
        FuzzyError::DegenerateDefuzzification
    );
}

#[test]
fn unknown_term_is_reported() {
    let var = LinguisticVar::new(
        vec![(Shape::Triangular(triangular(500, 80, 300)), "normal".to_string())],
        arange(0, 1000, 1).unwrap(),
    );
    assert_eq!(
        var.term(&"missing".to_string()).unwrap_err(),
        FuzzyError::UnknownTerm
    );
}

#[test]
fn error_descriptions_name_the_problem() {
    assert_eq!(
        FuzzyError::Configuration.describe(),
        "malformed universe or rule arity mismatch"
    );
    assert_eq!(
        FuzzyError::DomainMismatch.describe(),
        "the two fuzzy sets live on different universes"
    );
}
