use dshd::paths::{bin_in, bin_path, ensure_executable, record_path, strip_verbatim, FsPath};

#[test]
fn removes_the_extended_length_prefix() {
    let verbatim = r"\\?\C:\apps\pnpm\bin\pnpm.cjs";
    assert_eq!(
        strip_verbatim(String::from(verbatim)),
        String::from(r"C:\apps\pnpm\bin\pnpm.cjs")
    );
}

#[test]
fn leaves_ordinary_paths_alone() {
    for path in [r"C:\apps\pnpm.cjs", "/usr/local/lib/node"] {
        assert_eq!(strip_verbatim(String::from(path)), String::from(path));
    }
}

#[test]
fn strips_only_a_leading_prefix() {
    assert_eq!(strip_verbatim(String::from(r"\\?\")), String::new());
    assert_eq!(strip_verbatim(String::from(r"x\\?\y")), String::from(r"x\\?\y"));
    assert_eq!(strip_verbatim(String::from(r"\\?")), String::from(r"\\?"));
}

#[test]
fn sets_the_execute_bits_only_when_none_is_set() {
    assert_eq!(ensure_executable(0o644), Some(0o755));
    assert_eq!(ensure_executable(0o600), Some(0o755));
    assert_eq!(ensure_executable(0o744), None);
    assert_eq!(ensure_executable(0o601), None);
}

#[test]
fn lays_out_the_runtime_directory() {
    let runtimes = FsPath::new("/data/runtimes".to_string());
    let bin = bin_path(&runtimes, "0.1.1");
    assert_eq!(
        bin.parts,
        vec!["/data/runtimes", "0.1.1", "node_modules", "@deepseek-ai", "dsh", "lib", "bin.js"]
    );
    let inner = bin_in(&FsPath::new("/x".to_string()));
    assert_eq!(inner.parts, vec!["/x", "node_modules", "@deepseek-ai", "dsh", "lib", "bin.js"]);
    assert_eq!(record_path(&FsPath::new("/data".to_string())).parts, vec!["/data", "host.json"]);
}
