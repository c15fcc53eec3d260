use ipmb::{version, version_pre, Version};

#[test]
fn version_is_the_crate_version() {
    let v = version();
    assert_eq!((v.major(), v.minor(), v.patch()), (0, 8, 0));
    assert_eq!(version_pre(), "");
}

#[test]
fn getters_give_the_parts() {
    let v = Version::new(1, 2, 3);
    assert_eq!(v.major(), 1);
    assert_eq!(v.minor(), 2);
    assert_eq!(v.patch(), 3);
}

#[test]
fn zero_majors_agree_on_minors() {
    assert!(Version::new(0, 8, 0).compatible(Version::new(0, 8, 9)));
    assert!(!Version::new(0, 8, 0).compatible(Version::new(0, 7, 0)));
    assert!(!Version::new(0, 8, 0).compatible(Version::new(0, 9, 0)));
}

#[test]
fn other_majors_agree_on_majors() {
    assert!(Version::new(1, 0, 0).compatible(Version::new(1, 9, 9)));
    assert!(!Version::new(1, 0, 0).compatible(Version::new(2, 0, 0)));
    assert!(!Version::new(0, 1, 0).compatible(Version::new(1, 1, 0)));
    assert!(!Version::new(1, 1, 0).compatible(Version::new(0, 1, 0)));
}

#[test]
fn compatibility_is_symmetric() {
    let all = [
        Version::new(0, 0, 0),
        Version::new(0, 1, 0),
        Version::new(0, 1, 5),
        Version::new(1, 0, 0),
        Version::new(1, 1, 0),
        Version::new(2, 1, 0),
    ];
    for a in all {
        assert!(a.compatible(a));
        for b in all {
            assert_eq!(a.compatible(b), b.compatible(a));
        }
    }
}

#[test]
fn versions_are_written_with_dots() {
    assert_eq!(Version::new(0, 8, 0).to_string(), "0.8.0");
    assert_eq!(Version::new(1, 20, 255).to_string(), "1.20.255");
    assert_eq!(Version::new(100, 109, 9).to_string(), "100.109.9");
    assert_eq!(Version::new(10, 0, 99).to_string(), "10.0.99");
    assert_eq!(version().to_string(), "0.8.0");
}
