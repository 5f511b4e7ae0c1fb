// Engine-level tests, at scale 100 (1.00 is written 100).

use fuzzy_trade::errors::FuzzyError;
use fuzzy_trade::rule::FuzzyEngine;
use fuzzy_trade::set::{arange, LinguisticVar};
use fuzzy_trade::shape::{triangular, Shape};

fn rsi_var() -> LinguisticVar {
    LinguisticVar::new(
        vec![
            (Shape::Triangular(triangular(2000, 100, 2000)), "low".to_string()),
            (Shape::Triangular(triangular(8000, 100, 2000)), "high".to_string()),
        ],
        arange(0, 10000, 1).unwrap(),
    )
}

#[test]
fn test_adding_rule() {
    let rsi = rsi_var();
    let mut f_engine = FuzzyEngine::new(vec![rsi.clone()], vec![rsi]);
    assert_eq!(
        f_engine
            .add_rule(vec!["medium".to_string()], vec!["low".to_string()])
            .unwrap_err(),
        FuzzyError::UnknownTerm
    );
}

#[test]
fn basic_test() {
    let rsi = rsi_var();
    let ma = LinguisticVar::new(
        vec![(Shape::Triangular(triangular(3000, 80, 2000)), "low".to_string())],
        arange(0, 10000, 1).unwrap(),
    );
    let trend = LinguisticVar::new(
        vec![(Shape::Triangular(triangular(3000, 100, 3000)), "weak".to_string())],
        arange(0, 10000, 1).unwrap(),
    );

    let mut f_engine = FuzzyEngine::new(vec![rsi, ma], vec![trend]);
    f_engine
        .add_rule(
            vec!["low".to_string(), "low".to_string()],
            vec!["weak".to_string()],
        )
        .unwrap();
    f_engine
        .add_rule(
            vec!["high".to_string(), "low".to_string()],
            vec!["weak".to_string()],
        )
        .unwrap();

    let res = f_engine.calculate(&vec![1500, 2500]).unwrap();
    assert_eq!(res.len(), 1);
    assert_eq!(res[0].membership.len(), res[0].universe.len());
}

#[test]
fn rule_arity_mismatch_is_a_configuration_error() {
    let rsi = rsi_var();
    let mut f_engine = FuzzyEngine::new(vec![rsi.clone()], vec![rsi]);
    assert_eq!(
        f_engine
            .add_rule(
                vec!["low".to_string(), "high".to_string()],
                vec!["low".to_string()],
            )
            .unwrap_err(),
        FuzzyError::Configuration
    );
    assert_eq!(
        f_engine.add_rule(vec!["low".to_string()], vec![]).unwrap_err(),
        FuzzyError::Configuration
    );
}

#[test]
fn calculating_with_no_rules_is_an_error() {
    let rsi = rsi_var();
    let f_engine = FuzzyEngine::new(vec![rsi.clone()], vec![rsi]);
    assert_eq!(
        f_engine.calculate(&vec![1500]).unwrap_err(),
        FuzzyError::EmptyRuleBase
    );
}

#[test]
fn single_rule_inference_centers_on_the_consequent() {
    // universe 0..100.00 step 0.01; "low" peaks at 20 with half-width 20;
    // the rule low -> weak(30, 1, 30); input 15.00
    let rsi = rsi_var();
    let trend = LinguisticVar::new(
        vec![(Shape::Triangular(triangular(3000, 100, 3000)), "weak".to_string())],
        arange(0, 10000, 1).unwrap(),
    );
    // the firing strength is the degree of 15.00 on "low": 0.75
    assert_eq!(rsi.term(&"low".to_string()).unwrap().degree_of(1500), 75);

    let mut f_engine = FuzzyEngine::new(vec![rsi], vec![trend]);
    f_engine
        .add_rule(vec!["low".to_string()], vec!["weak".to_string()])
        .unwrap();
    let res = f_engine.calculate(&vec![1500]).unwrap();
    assert_eq!(res.len(), 1);
    // clipping the symmetric "weak" set at 0.75 keeps it symmetric about
    // 30.00, so the defuzzified output is exactly 30.00
    assert_eq!(res[0].centroid_defuzz().unwrap(), 3000);
}

#[test]
fn equal_strength_rules_aggregate_by_union() {
    // two rules with the same antecedent but different consequent terms:
    // the output must be the pointwise maximum of both clipped sets, not
    // just the last one processed
    let x = LinguisticVar::new(
        vec![(Shape::Triangular(triangular(500, 100, 500)), "mid".to_string())],
        arange(0, 1000, 1).unwrap(),
    );
    let y = LinguisticVar::new(
        vec![
            (Shape::Triangular(triangular(200, 100, 200)), "left".to_string()),
            (Shape::Triangular(triangular(800, 100, 200)), "right".to_string()),
        ],
        arange(0, 1000, 1).unwrap(),
    );
    let left = y.term(&"left".to_string()).unwrap().clone();
    let right = y.term(&"right".to_string()).unwrap().clone();
    let expected = left.std_union(&right, "both".to_string()).unwrap();

    let mut f_engine = FuzzyEngine::new(vec![x], vec![y]);
    f_engine
        .add_rule(vec!["mid".to_string()], vec!["left".to_string()])
        .unwrap();
    f_engine
        .add_rule(vec!["mid".to_string()], vec!["right".to_string()])
        .unwrap();
    // input at the antecedent peak: both rules fire at full strength, so
    // neither consequent is cut down
    let res = f_engine.calculate(&vec![500]).unwrap();
    assert_eq!(res[0].membership, expected.membership);
    assert_ne!(res[0].membership, right.membership);
    assert_ne!(res[0].membership, left.membership);
}
