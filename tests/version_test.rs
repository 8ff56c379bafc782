use corolla::version::Version;
use std::cmp::Ordering;

#[test]
fn version2str() {
    let v = Version::from([1, 2, 3]);
    assert_eq!(v.to_string(), "1.2.3".to_owned());
    assert_eq!(format!("{}", v.to_string()), "1.2.3".to_owned());
    let v = Version::from([29, 000]);
    assert_eq!(v.to_string(), "29.0".to_owned());
}

#[test]
fn str2version() {
    let v = Version::from("1.2.3");
    let w = Version::from([1, 2, 3]);
    assert_eq!(v, w);
    let v = Version::from("10.20");
    let w = Version::from([10, 20]);
    assert_eq!(v, w);
}

#[test]
fn version_type_has_cmp_traits() {
    let v = Version::from([1, 2, 3]);
    let w = Version::from([1, 2, 3]);
    assert_eq!(v, w);
    let w = Version::from([1, 2, 38]);
    assert_ne!(v, w);
    assert!(v <= w);
    assert!(w > v);
}

#[test]
fn trailing_components_never_break_a_tie() {
    let a = Version::from([1, 2]);
    let b = Version::from([1, 2, 3]);
    assert_eq!(a.compare(&b), Ordering::Equal);
    assert_eq!(b.compare(&a), Ordering::Equal);
    assert_eq!(a, b);
    assert!(a <= b && b <= a);
    assert_eq!(Version::from([0u64; 0]).compare(&b), Ordering::Equal);
}

#[test]
fn first_differing_component_decides() {
    assert_eq!(Version::from([1, 0, 2]).compare(&Version::from([1, 0, 1])), Ordering::Greater);
    assert_eq!(Version::from([1, 0, 1]).compare(&Version::from([1, 0, 2])), Ordering::Less);
    assert_eq!(Version::from([2]).compare(&Version::from([1, 9, 9])), Ordering::Greater);
}

#[test]
fn text_round_trips() {
    for s in ["1.2.3", "0", "29.0", "18446744073709551615.7", "10.20.30.40"] {
        assert_eq!(Version::parse(s).to_string(), s);
    }
}

#[test]
fn unparsable_components_read_as_zero() {
    assert_eq!(Version::parse("1.x.3").components(), &vec![1, 0, 3]);
    assert_eq!(Version::parse("").components(), &vec![0]);
    assert_eq!(Version::parse("1..2").components(), &vec![1, 0, 2]);
    assert_eq!(Version::parse("18446744073709551616").components(), &vec![0]);
    assert_eq!(Version::parse("18446744073709551615").components(), &vec![u64::MAX]);
    assert_eq!(Version::parse("+5.-5.+").components(), &vec![5, 0, 0]);
    assert_eq!(Version::parse("007").components(), &vec![7]);
    assert_eq!(Version::parse(" 1").components(), &vec![0]);
}

#[test]
fn empty_version_renders_empty() {
    assert_eq!(Version::from([0u64; 0]).to_string(), "");
    assert_eq!(Version::parse("007.1").to_string(), "7.1");
}
