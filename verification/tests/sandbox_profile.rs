use porta::preset::Closures;
use porta::sandbox_profile::{
    build_sandbox_profile, message_tag, profile_lists, readable_roots, sandbox_literal, tagged, wt_sandbox_profile,
    ProfileRequest,
};

fn strings(items: &[&str]) -> Vec<String> {
    items.iter().map(|s| s.to_string()).collect()
}

fn request(dirs: &[&str]) -> ProfileRequest {
    ProfileRequest {
        allowed_dirs: strings(dirs),
        repositories: dirs.iter().map(|_| None).collect(),
        allowed_net: vec![],
        read_policy: "open".to_string(),
        proxy: false,
        no_network: false,
        bind_ports: vec![],
        allowed_unix: vec![],
        resolved_unix: vec![],
        closures: Closures::default(),
        tag: String::new(),
    }
}

const WRITES: &str = "(deny file-write*)\n(allow file-write* (subpath \"/w\"))\n(allow file-write* (subpath \"/tmp\"))\n(allow file-write* (subpath \"/private/tmp\"))\n(allow file-write* (subpath \"/dev\"))\n";
const KEYCHAINS: &str = "(deny file-read* (subpath \"/Library/Keychains\"))\n(allow file-read* (literal \"/Library/Keychains/System.keychain\"))\n";

#[test]
fn profile_strings_escape_quotes_backslashes_and_controls() {
    assert_eq!(sandbox_literal("a\"b\\c\nd\x7f"), "a\\\"b\\\\c\\x0ad\\x7f");
    assert_eq!(sandbox_literal("/plain/path"), "/plain/path");
}

#[test]
fn every_deny_rule_carries_the_runs_tag() {
    assert_eq!(message_tag("abc"), "porta:abc");
    assert_eq!(
        tagged("(deny file-write*)\n(allow x)\n", "t"),
        "(deny file-write* (with message \"porta:t\"))\n(allow x)\n"
    );
    assert_eq!(tagged("(deny a)\n", ""), "(deny a)\n");
    assert_eq!(tagged("a\r\nb", "t"), "a\r\nb\n");
}

#[test]
fn a_plain_mount_is_writable_and_pinned() {
    let profile = build_sandbox_profile(&request(&["/w", "/r:ro"]));
    let expected_head = format!(
        "(version 1)\n(allow default)\n{WRITES}(deny file-write-unlink (literal \"/w\"))\n{KEYCHAINS}(deny sysctl-read"
    );
    assert!(profile.starts_with(&expected_head), "{profile}");
    assert!(!profile.contains("\"/r\""));
    assert!(profile.ends_with("(deny mach-lookup (global-name \"com.apple.appleeventsd\"))\n"));
}

#[test]
fn protected_names_and_the_repository_stay_closed() {
    let mut q = request(&["/w"]);
    q.repositories = vec![Some("/w/.git".to_string())];
    q.closures.protect = strings(&["a/b"]);
    let profile = build_sandbox_profile(&q);
    let block = "(deny file-write* (subpath \"/w/a/b\"))\n(deny file-write* (subpath \"/w/.git/hooks\"))\n(deny file-write* (literal \"/w/.git/config\"))\n(deny file-write-unlink (literal \"/w\"))\n(deny file-write-unlink (literal \"/w/a\"))\n(deny file-write-unlink (literal \"/w/.git\"))\n(deny file-write-unlink (literal \"/w/.git\"))\n";
    assert!(profile.contains(&format!("{WRITES}{block}{KEYCHAINS}")), "{profile}");
}

#[test]
fn a_port_grant_closes_the_rest_of_the_network() {
    let mut q = request(&[]);
    q.allowed_net = strings(&["*:443", "127.0.0.1:8080", "bad", "x:0"]);
    q.bind_ports = vec![3000];
    let profile = build_sandbox_profile(&q);
    let net = "(deny network-outbound)\n(deny network-bind)\n(deny network-inbound)\n(allow network-outbound (literal \"/private/var/run/mDNSResponder\"))\n(allow network-outbound (remote tcp \"*:443\"))\n(allow network-outbound (remote tcp \"localhost:8080\"))\n(allow network-bind (local tcp \"*:3000\"))\n(allow network-inbound (local tcp \"*:3000\"))\n";
    assert!(profile.contains(&format!("{KEYCHAINS}{net}(deny sysctl-read")), "{profile}");
    q.proxy = true;
    assert!(!build_sandbox_profile(&q).contains("mDNSResponder"));
    q.no_network = true;
    assert!(build_sandbox_profile(&q).contains(&format!("{KEYCHAINS}(deny network-outbound)\n(deny network-bind)\n(deny network-inbound)\n(deny sysctl-read")));
}

#[test]
fn a_strict_read_policy_confines_reads() {
    let mut q = request(&["/a/b:ro"]);
    q.read_policy = "strict".to_string();
    let profile = build_sandbox_profile(&q);
    let reads = "(deny file-read*)\n(allow file-read* (subpath \"/a/b\"))\n(allow file-read* (subpath \"/tmp\"))\n(allow file-read* (subpath \"/private/tmp\"))\n(allow file-read* (subpath \"/dev\"))\n(allow file-read* (subpath \"/usr\"))\n(allow file-read* (subpath \"/System\"))\n(allow file-read* (subpath \"/bin\"))\n(allow file-read* (subpath \"/sbin\"))\n(allow file-read* (subpath \"/private/etc\"))\n(allow file-read* (subpath \"/private/var/select\"))\n(allow file-read* (literal \"/\"))\n(allow file-read* (literal \"/tmp\"))\n(allow file-read* (literal \"/etc\"))\n(allow file-read* (literal \"/var\"))\n(allow file-read-metadata (literal \"/a\"))\n";
    assert!(profile.contains(&format!("{reads}{KEYCHAINS}")), "{profile}");
}

#[test]
fn sockets_are_denied_by_pattern_and_reopened_by_path() {
    let mut q = request(&[]);
    q.closures.deny_unix = strings(&["a\"b\\.sock"]);
    q.allowed_unix = strings(&["/var/run/x", "/y"]);
    q.resolved_unix = vec![Some("/private/var/run/x".to_string()), Some("/y".to_string())];
    let profile = build_sandbox_profile(&q);
    let sockets = "(deny network-outbound (regex #\"a\\\"b\\.sock\"))\n(allow network-outbound (literal \"/var/run/x\"))\n(allow network-outbound (literal \"/private/var/run/x\"))\n(allow network-outbound (literal \"/y\"))\n(deny sysctl-read";
    assert!(profile.contains(sockets), "{profile}");
}

#[test]
fn the_strict_read_roots_are_the_mounts_and_the_platform() {
    assert_eq!(
        readable_roots(&strings(&["/w:ro", "/x"])),
        strings(&["/w", "/x", "/tmp", "/private/tmp", "/dev", "/usr", "/System", "/bin", "/sbin", "/private/etc", "/private/var/select"])
    );
}

#[test]
fn a_shown_profile_needs_both_lists() {
    assert_eq!(wt_sandbox_profile(None, vec![], "open", Closures::default()), "(version 1)\n(deny default)\n");
    let lists = profile_lists(r#"["/w"]"#, "[]");
    assert_eq!(lists.as_ref().map(|l| l.0.clone()), Some(strings(&["/w"])));
    assert!(profile_lists("nope", "[]").is_none());
    let shown = wt_sandbox_profile(lists, vec![None], "open", Closures::default());
    assert!(shown.starts_with(&format!("(version 1)\n(allow default)\n{WRITES}")));
}
