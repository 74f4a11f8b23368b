use ginger_releaser::version::{Channel, Version};
use std::cmp::Ordering;

fn v(channel: Channel, major: u32, minor: u32, patch: u32, revision: u32) -> Version {
    Version { channel, major, minor, patch, revision }
}

#[test]
fn formats_final_without_channel() {
    assert_eq!(v(Channel::Final, 1, 2, 3, 0).formatted(), "1.2.3");
}

#[test]
fn formats_prerelease_with_channel_and_revision() {
    assert_eq!(v(Channel::Beta, 1, 2, 3, 4).formatted(), "1.2.3-beta.4");
    assert_eq!(v(Channel::Nightly, 0, 0, 0, 0).formatted(), "0.0.0-nightly.0");
    assert_eq!(v(Channel::Alpha, 10, 200, 3000, 45).formatted(), "10.200.3000-alpha.45");
}

#[test]
fn formats_tuple_literal() {
    assert_eq!(v(Channel::Alpha, 1, 2, 3, 4).tuple(), "(1, 2, 3, \"alpha\", 4)");
    assert_eq!(v(Channel::Final, 2, 0, 0, 0).tuple(), "(2, 0, 0, \"final\", 0)");
}

#[test]
fn initial_version_is_nightly_zero() {
    assert_eq!(Version::initial(), v(Channel::Nightly, 0, 0, 0, 0));
}

#[test]
fn parses_prerelease_text() {
    assert_eq!(Version::from_str("1.2.3-nightly.7"), v(Channel::Nightly, 1, 2, 3, 7));
    assert_eq!(Version::from_str("4.5.6-alpha.0"), v(Channel::Alpha, 4, 5, 6, 0));
    assert_eq!(Version::from_str("0.0.1-beta.12"), v(Channel::Beta, 0, 0, 1, 12));
}

#[test]
fn parses_missing_and_unreadable_fields_as_defaults() {
    assert_eq!(Version::from_str("1.2.3"), v(Channel::Final, 1, 2, 3, 0));
    assert_eq!(Version::from_str(""), v(Channel::Final, 0, 0, 0, 0));
    assert_eq!(Version::from_str("1.x"), v(Channel::Final, 1, 0, 0, 0));
    assert_eq!(Version::from_str("v0.1.0"), v(Channel::Final, 0, 1, 0, 0));
    assert_eq!(Version::from_str("1.2.3-rc.4"), v(Channel::Final, 1, 2, 3, 4));
    assert_eq!(Version::from_str("+5.0.0"), v(Channel::Final, 5, 0, 0, 0));
    assert_eq!(Version::from_str("4294967296.4294967295.1"), v(Channel::Final, 0, u32::MAX, 1, 0));
}

#[test]
fn parse_of_format_round_trips() {
    let samples = [
        v(Channel::Final, 1, 2, 3, 0),
        v(Channel::Nightly, 0, 0, 0, 0),
        v(Channel::Alpha, 7, 0, 9, 3),
        v(Channel::Beta, u32::MAX, u32::MAX, u32::MAX, u32::MAX),
    ];
    for s in samples {
        assert_eq!(Version::from_str(&s.formatted()), s);
    }
}

#[test]
fn final_revision_is_lost_in_text() {
    let s = v(Channel::Final, 1, 0, 0, 5);
    assert_eq!(Version::from_str(&s.formatted()), v(Channel::Final, 1, 0, 0, 0));
}

#[test]
fn compares_field_by_field() {
    let a = v(Channel::Beta, 1, 9, 9, 9);
    let b = v(Channel::Final, 2, 0, 0, 0);
    assert_eq!(a.compare(&b), Ordering::Less);
    assert_eq!(b.compare(&a), Ordering::Greater);
    assert_eq!(a.compare(&a), Ordering::Equal);
    assert_eq!(v(Channel::Final, 1, 2, 3, 0).compare(&v(Channel::Final, 1, 2, 4, 0)), Ordering::Less);
    assert_eq!(v(Channel::Beta, 1, 2, 3, 1).compare(&v(Channel::Beta, 1, 2, 3, 0)), Ordering::Greater);
}

#[test]
fn channel_rank_breaks_ties() {
    let f = v(Channel::Final, 1, 0, 0, 0);
    let n = v(Channel::Nightly, 1, 0, 0, 0);
    let a = v(Channel::Alpha, 1, 0, 0, 0);
    let b = v(Channel::Beta, 1, 0, 0, 0);
    assert_eq!(f.compare(&n), Ordering::Less);
    assert_eq!(n.compare(&a), Ordering::Less);
    assert_eq!(a.compare(&b), Ordering::Less);
    assert_eq!(f.compare(&b), Ordering::Less);
    assert_eq!(Channel::Final.rank(), 0);
    assert_eq!(Channel::Beta.rank(), 3);
    assert_eq!(Channel::Nightly.name(), "nightly");
}
