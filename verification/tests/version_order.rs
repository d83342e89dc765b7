use dshd::version::{compare, compare_prerelease, split_version};
use std::cmp::Ordering;

#[test]
fn orders_numeric_parts_numerically() {
    assert_eq!(compare("0.1.10", "0.1.2"), Ordering::Greater);
    assert_eq!(compare("0.2.0", "0.10.0"), Ordering::Less);
    assert_eq!(compare("1.0.0", "1.0.0"), Ordering::Equal);
}

#[test]
fn a_release_outranks_its_prereleases() {
    assert_eq!(compare("0.1.1", "0.1.1-rc.2"), Ordering::Greater);
    assert_eq!(compare("0.1.1-rc.2", "0.1.1"), Ordering::Less);
}

#[test]
fn orders_upstreams_rc_numbers_correctly() {
    assert_eq!(compare("0.1.0-rc.10", "0.1.0-rc.8"), Ordering::Greater);
    assert_eq!(compare("0.1.1-rc.1", "0.1.1-rc.2"), Ordering::Less);
    assert_eq!(compare("0.1.2-alpha.1", "0.1.1-rc.2"), Ordering::Greater);
}

#[test]
fn a_longer_prerelease_outranks_its_prefix() {
    assert_eq!(compare("1.0.0-rc.1", "1.0.0-rc"), Ordering::Greater);
}

#[test]
fn splits_core_and_prerelease() {
    assert_eq!(split_version("1.2.3-rc.4"), ([1, 2, 3], "rc.4".to_string()));
    assert_eq!(split_version("1.2"), ([1, 2, 0], String::new()));
    assert_eq!(split_version("x.7.3-a-b"), ([0, 7, 3], "a-b".to_string()));
    assert_eq!(split_version("18446744073709551616.1.1"), ([0, 1, 1], String::new()));
}

#[test]
fn missing_and_unreadable_fields_count_as_zero() {
    assert_eq!(compare("1", "1.0.0"), Ordering::Equal);
    assert_eq!(compare("1.x.0", "1.0.0"), Ordering::Equal);
    assert_eq!(compare("1.0.0.9", "1.0.0"), Ordering::Equal);
}

#[test]
fn compares_words_as_text_and_numbers_numerically() {
    assert_eq!(compare_prerelease("alpha", "beta"), Ordering::Less);
    assert_eq!(compare_prerelease("rc.1a", "rc.10"), Ordering::Greater);
    assert_eq!(compare_prerelease("rc.01", "rc.1"), Ordering::Equal);
    assert_eq!(compare_prerelease("", ""), Ordering::Equal);
}

#[test]
fn comparing_the_other_way_reverses_the_answer() {
    let versions = ["0.1.0", "0.1.0-rc.1", "0.1.0-rc.10", "0.2", "1.0.0-beta", "1.0.0"];
    for a in versions {
        assert_eq!(compare(a, a), Ordering::Equal);
        for b in versions {
            assert_eq!(compare(a, b), compare(b, a).reverse());
        }
    }
}

#[test]
fn the_order_is_transitive() {
    let versions = [
        "0.1.0-alpha", "0.1.0-alpha.1", "0.1.0-beta", "0.1.0-rc.2", "0.1.0-rc.10", "0.1.0",
        "0.1.1-rc.1", "0.1.2", "0.1.10", "0.2.0-rc", "1.0.0", "1.0.0-9", "1.0.0-10", "1.0.0-1a",
        "1.0.0-rc.1a", "1.0.0-rc.2", "1.0.0-01", "1.0.0-rc.", "1.0.0-rc..1", "1.0.0-.",
    ];
    for a in versions {
        for b in versions {
            for c in versions {
                if compare(a, b) != Ordering::Greater && compare(b, c) != Ordering::Greater {
                    assert_ne!(compare(a, c), Ordering::Greater, "{a} {b} {c}");
                }
            }
        }
    }
}

#[test]
fn a_number_ranks_below_a_word() {
    assert_eq!(compare("1.0.0-9", "1.0.0-10"), Ordering::Less);
    assert_eq!(compare("1.0.0-10", "1.0.0-1a"), Ordering::Less);
    assert_eq!(compare("1.0.0-9", "1.0.0-1a"), Ordering::Less);
    assert_eq!(compare("1.0.0-rc.1a", "1.0.0-rc.999"), Ordering::Greater);
    assert_eq!(compare_prerelease("1", "a"), Ordering::Less);
    assert_eq!(compare_prerelease("a", "1"), Ordering::Greater);
}

#[test]
fn an_empty_identifier_ranks_below_every_other() {
    assert_eq!(compare_prerelease("", "1"), Ordering::Less);
    assert_eq!(compare_prerelease("1", ""), Ordering::Greater);
    assert_eq!(compare_prerelease("", "a"), Ordering::Less);
    assert_eq!(compare_prerelease("rc..1", "rc.0"), Ordering::Less);
    assert_eq!(compare("1.0.0-rc.", "1.0.0-rc.1"), Ordering::Less);
}
