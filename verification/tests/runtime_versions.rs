use dshd::paths::FsPath;
use dshd::runtime::{
    available, bundled_runtime, installed_versions, newest, prune_error_message,
    published_version, stale_versions, Channel, RegistryError, Runtime, PACKAGE,
};

fn path(s: &str) -> FsPath {
    FsPath::new(s.to_string())
}

fn tags(pairs: &[(&str, &str)]) -> Vec<(String, String)> {
    pairs.iter().map(|(t, v)| (t.to_string(), v.to_string())).collect()
}

fn strings(items: &[&str]) -> Vec<String> {
    items.iter().map(|s| s.to_string()).collect()
}

fn bin_parts(runtimes: &str, version: &str) -> Vec<String> {
    strings(&[runtimes, version, "node_modules", "@deepseek-ai", "dsh", "lib", "bin.js"])
}

fn versions(rs: &[Runtime]) -> Vec<String> {
    rs.iter().map(|r| r.version.clone()).collect()
}

#[test]
fn names_the_channels_tags() {
    assert_eq!(Channel::Latest.tag(), "latest");
    assert_eq!(Channel::Next.tag(), "next");
    assert_eq!(PACKAGE, "@deepseek-ai/dsh");
}

#[test]
fn reads_the_channels_version_from_the_dist_tags() {
    let t = tags(&[("latest", "0.1.1"), ("next", "0.2.0-rc.3")]);
    assert_eq!(published_version(&t, Channel::Latest).ok(), Some("0.1.1".to_string()));
    assert_eq!(published_version(&t, Channel::Next).ok(), Some("0.2.0-rc.3".to_string()));
}

#[test]
fn a_repeated_tag_takes_its_last_value() {
    let t = tags(&[("latest", "0.1.0"), ("latest", "0.1.1")]);
    assert_eq!(published_version(&t, Channel::Latest).ok(), Some("0.1.1".to_string()));
}

#[test]
fn a_missing_tag_is_an_error() {
    let t = tags(&[("latest", "0.1.1")]);
    match published_version(&t, Channel::Next) {
        Err(RegistryError::NoTag(c)) => {
            assert_eq!(c, Channel::Next);
            assert_eq!(RegistryError::NoTag(c).message(), "registry has no `next` tag");
        }
        _ => panic!("expected a missing tag"),
    }
}

#[test]
fn explains_registry_failures() {
    assert_eq!(
        RegistryError::Unreachable("timed out".to_string()).message(),
        "npm registry is unreachable: timed out"
    );
    assert_eq!(RegistryError::Unreadable("bad utf-8".to_string()).message(), "bad utf-8");
    assert_eq!(
        RegistryError::UnexpectedPayload("expected value".to_string()).message(),
        "unexpected registry payload: expected value"
    );
}

#[test]
fn lists_only_complete_installs_newest_last() {
    let entries = vec![
        ("0.1.2".to_string(), true),
        (".staging-0.1.3".to_string(), false),
        (".staging-0.1.4".to_string(), true),
        ("0.1.10".to_string(), true),
        ("0.1.0".to_string(), true),
        ("0.1.9".to_string(), true),
        ("0.1.5".to_string(), false),
        (".store".to_string(), false),
    ];
    assert_eq!(installed_versions(&entries), strings(&["0.1.0", "0.1.2", "0.1.9", "0.1.10"]));
    assert!(installed_versions(&Vec::new()).is_empty());
    // Names of one version come in text order.
    let same = vec![("1.0.0".to_string(), true), ("1.0".to_string(), true)];
    assert_eq!(installed_versions(&same), strings(&["1.0", "1.0.0"]));
}

#[test]
fn reads_the_bundled_version_stamp() {
    let rt = bundled_runtime("  0.1.1-rc.2\n", path("/opt/harness/bin.js")).unwrap();
    assert_eq!(rt.version, "0.1.1-rc.2");
    assert_eq!(rt.bin.parts, strings(&["/opt/harness/bin.js"]));
    assert!(rt.bundled);
    assert!(bundled_runtime(" \n\t", path("/opt/harness/bin.js")).is_none());
    assert!(bundled_runtime("", path("/opt/harness/bin.js")).is_none());
}

#[test]
fn lists_available_runtimes_oldest_first() {
    let installed = strings(&["0.1.10", "0.1.2", "0.1.1-rc.2"]);
    let all = available(&installed, &path("/data/runtimes"), None);
    assert_eq!(versions(&all), strings(&["0.1.1-rc.2", "0.1.2", "0.1.10"]));
    assert_eq!(all[2].bin.parts, bin_parts("/data/runtimes", "0.1.10"));
    assert!(all.iter().all(|r| !r.bundled));
}

#[test]
fn a_downloaded_copy_wins_over_the_bundled_one() {
    let installed = strings(&["0.1.1"]);
    let bundled = bundled_runtime("0.1.1", path("/opt/harness/bin.js"));
    let all = available(&installed, &path("/data/runtimes"), bundled);
    assert_eq!(all.len(), 1);
    assert!(!all[0].bundled);
    assert_eq!(all[0].bin.parts, bin_parts("/data/runtimes", "0.1.1"));
}

#[test]
fn the_bundled_runtime_joins_in_version_order() {
    let installed = strings(&["0.1.2"]);
    let bundled = bundled_runtime("0.1.1", path("/opt/harness/bin.js"));
    let all = available(&installed, &path("/data/runtimes"), bundled);
    assert_eq!(versions(&all), strings(&["0.1.1", "0.1.2"]));
    assert!(all[0].bundled);
    let newer = bundled_runtime("0.2.0", path("/opt/harness/bin.js"));
    let chosen = newest(&installed, &path("/data/runtimes"), newer).unwrap();
    assert_eq!(chosen.version, "0.2.0");
    assert!(chosen.bundled);
}

#[test]
fn runs_the_newest_runtime() {
    let installed = strings(&["0.1.0-rc.8", "0.1.0-rc.10", "0.1.0"]);
    let chosen = newest(&installed, &path("/data/runtimes"), None).unwrap();
    assert_eq!(chosen.version, "0.1.0");
    assert_eq!(chosen.bin.parts, bin_parts("/data/runtimes", "0.1.0"));
    assert!(newest(&Vec::new(), &path("/data/runtimes"), None).is_none());
}

#[test]
fn of_equal_versions_the_later_one_is_chosen() {
    // "1.0" and "1.0.0" rank level; sorting keeps their order, and the last wins.
    let installed = strings(&["1.0", "1.0.0"]);
    let chosen = newest(&installed, &path("/r"), None).unwrap();
    assert_eq!(chosen.version, "1.0.0");
    let installed = strings(&["1.0.0", "1.0"]);
    let chosen = newest(&installed, &path("/r"), None).unwrap();
    assert_eq!(chosen.version, "1.0");
}

#[test]
fn prunes_all_but_the_newest_kept() {
    let v = strings(&["0.1.0", "0.1.1", "0.1.2", "0.1.3"]);
    assert_eq!(stale_versions(&v, 2), strings(&["0.1.0", "0.1.1"]));
    assert!(stale_versions(&v, 4).is_empty());
    assert!(stale_versions(&v, 9).is_empty());
    assert_eq!(stale_versions(&v, 0), v);
    // The newest are kept, whatever order the versions come in.
    let v = strings(&["0.1.10", "0.1.9", "0.1.1-rc.2"]);
    assert_eq!(stale_versions(&v, 1), strings(&["0.1.1-rc.2", "0.1.9"]));
    assert_eq!(stale_versions(&strings(&["0.1.9", "0.1.10"]), 1), strings(&["0.1.9"]));
    assert_eq!(
        prune_error_message("0.1.0", "permission denied"),
        "cannot remove old runtime 0.1.0: permission denied"
    );
}
