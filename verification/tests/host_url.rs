use dshd::supervisor::{extract_url, host_arguments, is_loopback, startup_step, StartupError, StartupEvent, StartupStep};
use dshd::install::Arg;
use dshd::paths::FsPath;

#[test]
fn finds_the_tokenized_url() {
    let line = "dsh web: http://127.0.0.1:64410/?token=abc-DEF_123";
    assert_eq!(
        extract_url(line).as_deref(),
        Some("http://127.0.0.1:64410/?token=abc-DEF_123")
    );
}

/// The version published on npm prints no token at all.
#[test]
fn finds_a_bare_loopback_url() {
    assert_eq!(
        extract_url("dsh web: http://127.0.0.1:52686").as_deref(),
        Some("http://127.0.0.1:52686")
    );
}

#[test]
fn accepts_localhost_and_ipv6_loopback() {
    assert!(extract_url("dsh web: http://localhost:3080/").is_some());
    assert!(extract_url("dsh web: http://[::1]:3080/").is_some());
}

#[test]
fn ignores_urls_that_are_not_the_local_ui() {
    assert!(extract_url("see https://deepseek.com/docs for help").is_none());
    // A remote host whose name merely mentions localhost must not pass.
    assert!(extract_url("proxy at http://localhost.example.com/x").is_none());
}

#[test]
fn ignores_lines_without_a_url() {
    assert!(extract_url("dsh web: starting").is_none());
}

#[test]
fn the_url_ends_at_whitespace() {
    assert_eq!(
        extract_url("open http://localhost:8080/ui\tnow").as_deref(),
        Some("http://localhost:8080/ui")
    );
    assert_eq!(
        extract_url("at https://127.0.0.1#frag x").as_deref(),
        Some("https://127.0.0.1#frag")
    );
}

#[test]
fn looks_at_the_first_http_url_only() {
    // The first plain-http URL is the candidate, even when an https one came first.
    assert!(extract_url("https://localhost:1 then http://example.com").is_none());
}

#[test]
fn keeps_the_port_off_the_host() {
    assert!(is_loopback("http://localhost:/"));
    assert!(is_loopback("http://[::1]"));
    assert!(!is_loopback("http://[::1]:80x/"));
    assert!(!is_loopback("localhost:80"));
    assert!(!is_loopback("http://user@localhost:80/"));
}

#[test]
fn startup_succeeds_on_a_url_line() {
    match startup_step(StartupEvent::Line("dsh web: http://127.0.0.1:5/?token=t".to_string())) {
        StartupStep::Ready(url) => assert_eq!(url, "http://127.0.0.1:5/?token=t"),
        _ => panic!("expected the URL"),
    }
    assert!(matches!(startup_step(StartupEvent::Line("booting".to_string())), StartupStep::Wait));
    assert!(matches!(startup_step(StartupEvent::Quiet(None)), StartupStep::Wait));
}

#[test]
fn startup_fails_and_says_why() {
    match startup_step(StartupEvent::Quiet(Some("exit status: 1".to_string()))) {
        StartupStep::Abort { kill, error } => {
            assert!(!kill);
            assert_eq!(error.message(), "the dsh host exited with exit status: 1 before reporting a URL");
        }
        _ => panic!("expected an abort"),
    }
    match startup_step(StartupEvent::OutOfTime) {
        StartupStep::Abort { kill, error } => {
            assert!(kill);
            assert_eq!(error.message(), "the dsh host did not report a URL within 90s");
        }
        _ => panic!("expected an abort"),
    }
    match startup_step(StartupEvent::Closed) {
        StartupStep::Abort { kill, error } => {
            assert!(kill);
            assert!(matches!(error, StartupError::Closed));
        }
        _ => panic!("expected an abort"),
    }
}

#[test]
fn starts_the_host_on_a_free_port() {
    let args = host_arguments(&FsPath::new("/rt/bin.js".to_string()));
    let texts: Vec<String> = args
        .iter()
        .map(|a| match a {
            Arg::Text(t) => t.clone(),
            Arg::Path(p) => p.parts.join("/"),
        })
        .collect();
    assert_eq!(texts, vec!["/rt/bin.js", "web", "--no-open", "--port", "0"]);
}
