use dshd::node::{bundled_choice, is_supported, system_choice, NodeError, Origin};
use dshd::paths::FsPath;

fn path(s: &str) -> FsPath {
    FsPath::new(s.to_string())
}

#[test]
fn accepts_the_declared_engine_range() {
    assert!(is_supported("v24.20.0"));
    assert!(is_supported("v22.19.0"));
    assert!(is_supported("v26.0.0"));
}

#[test]
fn rejects_below_the_range() {
    assert!(!is_supported("v22.18.0"));
    assert!(!is_supported("v20.11.0"));
    // 23 is an odd-numbered line the harness does not list.
    assert!(!is_supported("v23.5.0"));
}

#[test]
fn treats_garbage_as_unsupported() {
    assert!(!is_supported(""));
    assert!(!is_supported("not-a-version"));
}

#[test]
fn reads_versions_without_the_v_and_without_a_minor() {
    assert!(is_supported("24"));
    assert!(is_supported("vv22.19"));
    assert!(!is_supported("v22"));
    assert!(is_supported("+24.0.0"));
    assert!(!is_supported("v99999999999.0.0"));
}

#[test]
fn uses_a_supported_bundled_node() {
    let chosen = bundled_choice(path("/app/node/node"), Ok("v24.1.0".to_string()));
    let (p, origin) = chosen.expect("bundled node is usable");
    assert_eq!(p.parts, vec!["/app/node/node".to_string()]);
    assert_eq!(origin, Origin::Bundled);
}

#[test]
fn falls_back_from_an_unusable_bundled_node() {
    assert!(bundled_choice(path("/app/node/node"), Ok("v20.0.0".to_string())).is_none());
    assert!(bundled_choice(path("/app/node/node"), Err("exec format error".to_string())).is_none());
}

#[test]
fn refuses_an_old_system_node() {
    match system_choice(path("/usr/bin/node"), "v18.2.0".to_string()) {
        Err(e) => {
            assert!(matches!(e, NodeError::TooOld(_)));
            assert_eq!(
                e.message(),
                "Node.js v18.2.0 is too old: DeepSeek Harness needs 22.19+ or 24+."
            );
        }
        Ok(_) => panic!("v18 must be refused"),
    }
    let (p, origin) = system_choice(path("/usr/bin/node"), "v22.20.1".to_string()).ok().unwrap();
    assert_eq!(p.parts, vec!["/usr/bin/node".to_string()]);
    assert_eq!(origin, Origin::System);
}

#[test]
fn explains_a_missing_node() {
    let e = NodeError::NotFound("cannot execute node".to_string());
    assert_eq!(
        e.message(),
        "Node.js was not found. Install Node.js 22.19+ or 24+ (https://nodejs.org) and start the app again.: cannot execute node"
    );
}
