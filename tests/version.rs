use std::cmp::Ordering;
use modcheck::version::{ConstraintError, SemVer, SemVerReq, VersionBound, VersionConstraint};

fn v(s: &str) -> SemVer {
    SemVer::parse(s).unwrap()
}

#[test]
fn test_parse_version_constraint_bracketed_inclusive_unbounded() {
    let constraint = VersionConstraint::parse("[1.0.2-f,)").unwrap();
    assert_eq!(
        constraint,
        VersionConstraint::Bracketed(VersionBound::Inclusive(v("1.0.2-f")), VersionBound::Unbounded)
    );
    assert!(constraint.matches(&v("1.0.2-f")));
    assert!(constraint.matches(&v("1.0.3")));
    assert!(!constraint.matches(&v("1.0.1")));
}

#[test]
fn test_parse_version_constraint_bracketed_exclusive_inclusive() {
    let constraint = VersionConstraint::parse("(1.0.0, 2.0.0]").unwrap();
    assert_eq!(
        constraint,
        VersionConstraint::Bracketed(
            VersionBound::Exclusive(v("1.0.0")),
            VersionBound::Inclusive(v("2.0.0")),
        )
    );
    assert!(constraint.matches(&v("1.0.1")));
    assert!(constraint.matches(&v("2.0.0")));
    assert!(!constraint.matches(&v("1.0.0")));
    assert!(!constraint.matches(&v("2.0.1")));
}

#[test]
fn test_parse_version_constraint_semver_greater_than_or_equal() {
    let constraint = VersionConstraint::parse(">=1.2.1").unwrap();
    assert_eq!(constraint, VersionConstraint::Semver(SemVerReq::parse(">=1.2.1").unwrap()));
    assert!(constraint.matches(&v("1.2.1")));
    assert!(constraint.matches(&v("1.2.2")));
    assert!(!constraint.matches(&v("1.2.0")));
}

#[test]
fn test_parse_version_constraint_semver_caret_operator() {
    let constraint = VersionConstraint::parse("^1.2.3").unwrap();
    assert_eq!(constraint, VersionConstraint::Semver(SemVerReq::parse("^1.2.3").unwrap()));
    assert!(constraint.matches(&v("1.2.3")));
    assert!(constraint.matches(&v("1.2.4")));
    assert!(constraint.matches(&v("1.9.9")));
    assert!(!constraint.matches(&v("2.0.0")));
}

#[test]
fn test_parse_version_constraint_semver_tilde_operator() {
    let constraint = VersionConstraint::parse("~1.2.3").unwrap();
    assert_eq!(constraint, VersionConstraint::Semver(SemVerReq::parse("~1.2.3").unwrap()));
    assert!(constraint.matches(&v("1.2.3")));
    assert!(constraint.matches(&v("1.2.4")));
    assert!(!constraint.matches(&v("1.3.0")));
}

#[test]
fn test_parse_version_constraint_semver_exact() {
    let constraint = VersionConstraint::parse("=1.0.0").unwrap();
    assert_eq!(constraint, VersionConstraint::Semver(SemVerReq::parse("=1.0.0").unwrap()));
    assert!(constraint.matches(&v("1.0.0")));
    assert!(!constraint.matches(&v("1.0.1")));
}

#[test]
fn test_parse_version_constraint_semver_range() {
    let constraint = VersionConstraint::parse(">1.0.0, <2.0.0").unwrap();
    assert_eq!(constraint, VersionConstraint::Semver(SemVerReq::parse(">1.0.0, <2.0.0").unwrap()));
    assert!(constraint.matches(&v("1.0.1")));
    assert!(!constraint.matches(&v("1.0.0")));
    assert!(!constraint.matches(&v("2.0.0")));
}

#[test]
fn test_parse_version_constraint_invalid_format() {
    let result = VersionConstraint::parse("invalid-version");
    assert!(result.is_err());
}

#[test]
fn unrecognized_text_is_reported_as_such() {
    assert_eq!(VersionConstraint::parse("invalid-version"), Err(ConstraintError::Unrecognized));
    assert_eq!(VersionConstraint::parse("   "), Err(ConstraintError::Unrecognized));
    assert_eq!(VersionConstraint::parse("["), Err(ConstraintError::Unrecognized));
}

#[test]
fn bracket_needs_a_closing_bracket() {
    assert_eq!(VersionConstraint::parse("[1.0.0,2.0.0x"), Err(ConstraintError::Unrecognized));
    assert_eq!(VersionConstraint::parse("[,x"), Err(ConstraintError::Unrecognized));
    assert_eq!(VersionConstraint::parse("[1.0.0,é"), Err(ConstraintError::Unrecognized));
    assert_eq!(VersionConstraint::parse("(1.0.0"), Err(ConstraintError::Unrecognized));
}

#[test]
fn bracket_with_wrong_comma_count_is_rejected() {
    assert_eq!(VersionConstraint::parse("[1.0.0]"), Err(ConstraintError::BoundCount));
    assert_eq!(VersionConstraint::parse("[1.0.0,2.0.0,3.0.0]"), Err(ConstraintError::BoundCount));
}

#[test]
fn bracket_with_bad_bound_is_rejected() {
    assert_eq!(VersionConstraint::parse("[1.0,2.0)"), Err(ConstraintError::InvalidBound));
    assert_eq!(VersionConstraint::parse("[1.0.0,x)"), Err(ConstraintError::InvalidBound));
}

#[test]
fn surrounding_whitespace_is_trimmed() {
    let constraint = VersionConstraint::parse("  [ 1.0.0 , 2.0.0 )  ").unwrap();
    assert_eq!(
        constraint,
        VersionConstraint::Bracketed(
            VersionBound::Inclusive(v("1.0.0")),
            VersionBound::Exclusive(v("2.0.0")),
        )
    );
    assert!(constraint.matches(&v("1.5.0")));
    assert!(!constraint.matches(&v("2.0.0")));
    let req = VersionConstraint::parse("  >=1.0.0 ").unwrap();
    assert_eq!(req, VersionConstraint::Semver(SemVerReq::parse(">=1.0.0").unwrap()));
}

#[test]
fn unbounded_range_matches_everything_released() {
    let constraint = VersionConstraint::parse("(,)").unwrap();
    assert_eq!(constraint, VersionConstraint::Bracketed(VersionBound::Unbounded, VersionBound::Unbounded));
    assert!(constraint.matches(&v("0.0.1")));
    assert!(constraint.matches(&v("99.0.0")));
}

#[test]
fn bracket_grammar_scenario() {
    let c = VersionConstraint::parse("[1.0.2-f,)").unwrap();
    assert!(c.matches(&v("1.0.2-f")));
    assert!(c.matches(&v("1.0.3")));
    assert!(!c.matches(&v("1.0.1")));
    let d = VersionConstraint::parse("(1.0.0, 2.0.0]").unwrap();
    assert!(d.matches(&v("2.0.0")));
    assert!(!d.matches(&v("1.0.0")));
    assert!(!d.matches(&v("2.0.1")));
}

#[test]
fn semver_grammar_scenario() {
    let caret = VersionConstraint::parse("^1.2.3").unwrap();
    assert!(caret.matches(&v("1.9.9")));
    assert!(!caret.matches(&v("2.0.0")));
    let tilde = VersionConstraint::parse("~1.2.3").unwrap();
    assert!(tilde.matches(&v("1.2.4")));
    assert!(!tilde.matches(&v("1.3.0")));
}

#[test]
fn prerelease_needs_same_release_triple() {
    let req = VersionConstraint::parse(">=1.0.0").unwrap();
    assert!(!req.matches(&v("1.5.0-beta")));
    let req_pre = VersionConstraint::parse(">=1.5.0-alpha").unwrap();
    assert!(req_pre.matches(&v("1.5.0-beta")));
}

#[test]
fn bare_version_means_exactly_that_version() {
    let c = VersionConstraint::parse("1.16.3").unwrap();
    assert_eq!(c, VersionConstraint::Semver(SemVerReq::parse("=1.16.3").unwrap()));
    assert!(c.matches(&v("1.16.3")));
    assert!(!c.matches(&v("1.16.4")));
    assert!(!c.matches(&v("1.17.0")));
    let both = VersionConstraint::parse(" 1.2.0, <2").unwrap();
    assert_eq!(both, VersionConstraint::Semver(SemVerReq::parse("=1.2.0, <2").unwrap()));
    assert!(both.matches(&v("1.2.0")));
    assert!(!both.matches(&v("1.3.0")));
}

#[test]
fn disjunction_scenario_on_constraints() {
    let alts = ["1.16.2", "1.16.3"];
    let admits = |x: &str| alts.iter().any(|a| VersionConstraint::parse(a).unwrap().matches(&v(x)));
    assert!(admits("1.16.3"));
    assert!(!admits("1.17.0"));
}

#[test]
fn invalid_versions_do_not_parse() {
    assert!(SemVer::parse("1.0").is_none());
    assert!(SemVer::parse("abc").is_none());
    assert!(SemVer::parse("").is_none());
    assert_eq!(v("1.2.3-rc.1+b5").as_str(), "1.2.3-rc.1+b5");
    assert!(SemVerReq::parse("@1").is_none());
}

#[test]
fn constraints_render() {
    assert_eq!(VersionConstraint::parse("[1.0.0,)").unwrap().render(), ">=1.0.0");
    assert_eq!(VersionConstraint::parse("(1.0.0,)").unwrap().render(), ">1.0.0");
    assert_eq!(VersionConstraint::parse("[1.0.0,2.0.0]").unwrap().render(), "[1.0.0, 2.0.0]");
    assert_eq!(VersionConstraint::parse("(1.0.0,2.0.0)").unwrap().render(), "(1.0.0, 2.0.0)");
    assert_eq!(VersionConstraint::parse("(,2.0.0)").unwrap().render(), "any");
    assert_eq!(VersionConstraint::parse("1.2").unwrap().render(), "=1.2");
    assert_eq!(VersionConstraint::parse("^1.2").unwrap().render(), "^1.2");
    assert_eq!(VersionConstraint::parse(">= 1.0").unwrap().render(), ">=1.0");
}

#[test]
fn bound_decisions_by_comparison() {
    let inc = VersionBound::Inclusive(v("1.0.0"));
    let exc = VersionBound::Exclusive(v("1.0.0"));
    let none = VersionBound::Unbounded;
    assert!(inc.admits_as_lower(Ordering::Equal));
    assert!(inc.admits_as_lower(Ordering::Greater));
    assert!(!inc.admits_as_lower(Ordering::Less));
    assert!(!exc.admits_as_lower(Ordering::Equal));
    assert!(exc.admits_as_lower(Ordering::Greater));
    assert!(inc.admits_as_upper(Ordering::Equal));
    assert!(!inc.admits_as_upper(Ordering::Greater));
    assert!(!exc.admits_as_upper(Ordering::Equal));
    assert!(exc.admits_as_upper(Ordering::Less));
    assert!(none.admits_as_lower(Ordering::Less));
    assert!(none.admits_as_upper(Ordering::Greater));
    assert_eq!(inc.version().map(|x| x.as_str()), Some("1.0.0"));
    assert!(none.version().is_none());
}

#[test]
fn build_metadata_orders_after_plain_release() {
    let c = VersionConstraint::parse("(1.0.0,]").unwrap();
    assert!(c.matches(&v("1.0.0+build")));
    assert!(!c.matches(&v("1.0.0")));
}
