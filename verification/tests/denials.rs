use porta::denials::{advice, advice_given, footer, footer_given, parse, Denial};
use porta::preset::Closures;

#[test]
fn picks_only_this_runs_denials() {
    let log = "\
2026-09-21 13:40:47 E  kernel[0:1] (Sandbox) Sandbox: spotlightknowledged(1485) deny(1) mach-lookup com.apple.PowerManagement.control
2026-09-21 13:40:48 E  kernel[0:1] (Sandbox) Sandbox: bash(13486) deny(1) file-write-create /Users/x/out.txt
porta:abc
2026-09-21 13:40:48 E  kernel[0:1] (Sandbox) Sandbox: curl(13590) deny(1) network-outbound remote:*:443
porta:abc
2026-09-21 13:40:48 E  kernel[0:1] (Sandbox) Sandbox: curl(13591) deny(1) network-outbound remote:*:443
porta:other
";
    let denials = parse(log, "porta:abc");
    assert_eq!(denials.len(), 2);
    assert_eq!(denials[0].operation, "file-write-create");
    let closures = Closures::default();
    assert_eq!(advice(&denials[0], &closures), "-v /Users/x");
    assert_eq!(advice(&denials[1], &closures), "--allow-net '*:443'");
}

fn denial(operation: &str, target: &str) -> Denial {
    Denial { operation: operation.to_string(), target: target.to_string() }
}

#[test]
fn a_bare_refused_connection_is_dropped_beside_an_addressed_one() {
    let log = "x deny(1) network-outbound\nt\nx deny(1) network-outbound remote:*:80\nt\n";
    let denials = parse(log, "t");
    assert_eq!(denials, vec![denial("network-outbound", "remote:*:80")]);
    let alone = parse("x deny(1) network-outbound\nt\n", "t");
    assert_eq!(alone, vec![denial("network-outbound", "")]);
}

#[test]
fn parsed_refusals_are_sorted_and_each_kept_once() {
    let log = "a deny(1) b-op /z\nt\na deny(1) a-op /y\n  t  \na deny(1) b-op /z\nt\na deny(1) a-op /x\nt";
    let denials = parse(log, "t");
    assert_eq!(denials, vec![denial("a-op", "/x"), denial("a-op", "/y"), denial("b-op", "/z")]);
}

#[test]
fn a_refusal_without_its_tag_is_not_this_runs() {
    assert!(parse("a deny(1) file-read-data /x\n", "t").is_empty());
    assert!(parse("a deny(1) file-read-data /x", "t").is_empty());
    assert!(parse("", "t").is_empty());
}

#[test]
fn never_granted_things_say_so() {
    let closures = Closures {
        deny_read: vec!["/Users/x/.ssh".to_string()],
        protect: vec![".envrc".to_string()],
        deny_unix: vec![],
        repository: vec!["hooks".to_string()],
    };
    let keys = denial("file-read-data", "/Users/x/.ssh/id_ed25519");
    assert!(advice_given(&keys, &closures, false).contains("closed by the preset"));
    let hook = denial("file-write-create", "/w/repo/.git/hooks/pre-commit");
    assert!(advice_given(&hook, &closures, false).contains("protected inside the mount"));
    let envrc = denial("file-write-data", "/w/repo/.envrc");
    assert!(advice_given(&envrc, &closures, false).contains("protected inside the mount"));
    let agent = denial("network-outbound", "/private/tmp/com.apple.launchd.x/Listeners");
    assert_eq!(advice_given(&agent, &closures, false), "--allow-unix /private/tmp/com.apple.launchd.x/Listeners");
    let bind = denial("network-bind", "local:*:8080");
    assert_eq!(advice_given(&bind, &closures, false), "--allow-bind 8080");
}

#[test]
fn each_operation_class_has_its_advice() {
    let none = Closures::default();
    assert_eq!(advice_given(&denial("file-read-data", "/a/b"), &none, false), "-v /a:ro");
    assert_eq!(advice_given(&denial("file-read-data", "/a/b"), &none, true), "-v /a/b:ro");
    assert_eq!(advice_given(&denial("file-write-data", "/top"), &none, false), "-v /");
    assert_eq!(advice_given(&denial("network-bind", "nothing"), &none, false), "--allow-bind <port>");
    assert_eq!(advice_given(&denial("network-outbound", "remote:host"), &none, false), "--allow-net 'host'");
    assert_eq!(
        advice_given(&denial("network-outbound", ""), &none, false),
        "the network is closed by --allow-net; name the port to reach"
    );
    assert_eq!(
        advice_given(&denial("network-socket", "AF_INET SOCK_DGRAM"), &none, false),
        "only a TCP socket leaves under --allow-net or a proxy; no flag opens another kind"
    );
    assert_eq!(
        advice_given(&denial("mach-lookup", "com.apple.x"), &none, false),
        "a host service porta closes (Keychain, Launch Services, disks); no flag opens it"
    );
    assert_eq!(
        advice_given(&denial("lsopen", ""), &none, false),
        "open(1) would start a program outside the sandbox; porta never grants it"
    );
    assert_eq!(
        advice_given(&denial("sysctl-read", "kern.x"), &none, false),
        "another process's details; porta never grants them"
    );
    assert_eq!(advice_given(&denial("signal", ""), &none, false), "not something a flag grants");
}

#[test]
fn the_footer_lists_each_refusal_and_the_command_to_run_again() {
    let none = Closures::default();
    let denials = vec![denial("file-write-create", "/w/out.txt"), denial("network-outbound", "remote:*:443")];
    let text = footer_given(&denials, "porta run curl -- https://x", &none, &[false, false]);
    assert_eq!(
        text,
        "[porta] the sandbox refused this run 2 times; what each would have needed:\n  \
file-write-create /w/out.txt\n    → -v /w\n  network-outbound remote:*:443\n    → --allow-net '*:443'\n  \
to run again with those granted:\n    porta run curl -v /w --allow-net '*:443' -- https://x\n"
    );
    assert_eq!(footer(&[], "porta run x", &none), "");
    let once = footer_given(&[denial("lsopen", "")], "", &none, &[false]);
    assert_eq!(
        once,
        "[porta] the sandbox refused this run 1 time; what each would have needed:\n  lsopen\n    → \
open(1) would start a program outside the sandbox; porta never grants it\n"
    );
}

#[test]
fn a_grant_needed_twice_is_added_once() {
    let none = Closures::default();
    let denials = vec![denial("file-write-create", "/w/a"), denial("file-write-data", "/w/b")];
    let text = footer_given(&denials, "porta run sh", &none, &[false, false]);
    assert!(text.ends_with("    porta run sh -v /w\n"), "{text}");
}

#[test]
fn the_log_is_asked_from_a_zero_padded_local_time() {
    assert_eq!(porta::denials::log_time(126, 0, 5, 9, 3, 7), "2026-01-05 09:03:07");
    assert_eq!(porta::denials::log_time(99, 11, 31, 23, 59, 59), "1999-12-31 23:59:59");
    assert_eq!(porta::denials::log_time(-1900, 0, 1, 0, 0, 0), "0000-01-01 00:00:00");
    assert_eq!(format!("{:04}", -5), porta::denials::log_time(-1905, 0, 1, 0, 0, 0)[..4].to_string());
}
