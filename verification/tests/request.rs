use porta::preset::Closures;
use porta::request::{
    bind_ports, denials_wanted, enforcement_backend, expand_home_in, finish_sandboxed, json_error, shell_word,
    wt_exec_inner, wt_exec_replace, wt_exec_sandboxed, wt_exec_supervised, wt_sandbox_explain,
    wt_sandbox_explain_json, Captured, Enforcement, Platform, Probes, SandboxRequest,
};
use porta::seccomp::Egress;

fn strings(items: &[&str]) -> Vec<String> {
    items.iter().map(|s| s.to_string()).collect()
}

fn closures() -> Closures {
    Closures { deny_read: strings(&["/home/u/.ssh"]), protect: strings(&[".envrc"]), deny_unix: vec![], repository: vec![] }
}

fn request() -> SandboxRequest {
    SandboxRequest {
        cmd: "make".into(),
        args: strings(&["test", "it's"]),
        allowed_dirs: strings(&["/w"]),
        allowed_net: vec![],
        env_vars: vec![],
        cwd: "~/w".into(),
        read_policy: "open".into(),
        proxy: false,
        allow_root: false,
        allowed_bind: vec![],
        no_network: false,
        preset: String::new(),
        deny_read: vec![],
        protect: vec![],
        deny_unix: vec![],
        closures: closures(),
        allowed_unix: vec![],
        timeout: 0,
        max_cpu: 0,
        max_procs: 0,
        max_file_size: 0,
        max_memory_mb: 0,
        tag: "t".into(),
        why: false,
        snapshot: false,
        raw: String::new(),
    }
}

fn probes() -> Probes {
    Probes {
        closures: Ok(closures()),
        running_as_root: false,
        home: Some("/home/u".into()),
        mounts: Ok(strings(&["/real/w"])),
        missing_command: None,
        unreadable_command: None,
        unsettable_ceiling: None,
        memory_unavailable: None,
    }
}

#[test]
fn contradictory_network_flags_are_refused() {
    let mut r = request();
    assert_eq!(r.contradictory_network(), None);
    r.no_network = true;
    r.proxy = true;
    assert_eq!(
        r.contradictory_network().unwrap(),
        "--no-net closes the network; it cannot also grant --allow-net, --allow-bind or a proxy"
    );
    let mut b = request();
    b.allowed_bind = strings(&["8080"]);
    assert_eq!(
        b.contradictory_network().unwrap(),
        "--allow-bind only means something once --allow-net closes the network; with the network open every port can already be bound"
    );
    b.allowed_net = strings(&["*:443"]);
    assert_eq!(b.contradictory_network(), None);
}

#[test]
fn bind_entries_are_ports_above_zero() {
    assert_eq!(bind_ports(&strings(&["8080", "9"])).unwrap(), vec![8080, 9]);
    assert_eq!(bind_ports(&strings(&["8080", "0"])).unwrap_err(), "--allow-bind takes a TCP port, not 0");
    assert_eq!(bind_ports(&strings(&["http"])).unwrap_err(), "--allow-bind takes a TCP port, not http");
    assert_eq!(bind_ports(&strings(&["70000"])).unwrap_err(), "--allow-bind takes a TCP port, not 70000");
}

#[test]
fn a_leading_tilde_is_the_home() {
    assert_eq!(expand_home_in("~/w", Some("/home/u")), "/home/u/w");
    assert_eq!(expand_home_in("~/w", None), "~/w");
    assert_eq!(expand_home_in("/abs", Some("/home/u")), "/abs");
    assert_eq!(expand_home_in("~user/w", Some("/home/u")), "~user/w");
}

#[test]
fn a_request_is_settled_or_refused_in_order() {
    let settled = request().settle(probes(), Platform::Linux).unwrap();
    assert_eq!(settled.cwd, "/home/u/w");
    assert_eq!(settled.allowed_dirs, strings(&["/real/w"]));
    assert_eq!(settled.closures, closures());

    let mut p = probes();
    p.closures = Err("bad preset".into());
    assert_eq!(request().settle(p, Platform::Linux).unwrap_err(), "bad preset");
    let mut r = request();
    r.read_policy = "closed".into();
    assert_eq!(r.settle(probes(), Platform::Linux).unwrap_err(), "unknown read policy: closed; use open or strict");
    let mut p = probes();
    p.running_as_root = true;
    assert!(request().settle(p, Platform::Linux).unwrap_err().starts_with("refusing to run as root: "));
    let mut p = probes();
    p.running_as_root = true;
    let mut r = request();
    r.allow_root = true;
    assert!(r.settle(p, Platform::Linux).is_ok());
    let mut p = probes();
    p.unreadable_command = Some("cannot read make".into());
    assert!(request().settle(p, Platform::Other).is_ok());
    let mut p = probes();
    p.unreadable_command = Some("cannot read make".into());
    assert_eq!(request().settle(p, Platform::MacOs).unwrap_err(), "cannot read make");
    let mut r = request();
    r.max_memory_mb = 10;
    assert_eq!(
        r.settle(probes(), Platform::Other).unwrap_err(),
        "--max-memory-mb has no enforcement on this platform"
    );
    let mut r = request();
    r.max_memory_mb = 10;
    let mut p = probes();
    p.memory_unavailable = Some("no bus".into());
    assert_eq!(r.settle(p, Platform::Linux).unwrap_err(), "--max-memory-mb: no bus");
}

#[test]
fn ceilings_are_said_in_words() {
    let mut r = request();
    assert_eq!(r.explain_ceilings(Platform::Linux), "none");
    r.max_cpu = 5;
    r.max_file_size = 2;
    r.max_memory_mb = 64;
    assert_eq!(
        r.explain_ceilings(Platform::Linux),
        "5s CPU per process, files up to 2 MiB, 64 MiB resident memory for the whole run (cgroup, swap closed)"
    );
    r.max_procs = 3;
    assert_eq!(
        r.explain_ceilings(Platform::MacOs),
        "5s CPU per process, 3 processes for this user, files up to 2 MiB, 64 MiB resident memory for the whole run (the group is ended when its footprint reaches it)"
    );
}

#[test]
fn the_seccomp_program_follows_the_network_flags() {
    let mut r = request();
    assert!(r.egress(true) == Egress::Open);
    r.allowed_net = strings(&["*:443"]);
    assert!(r.egress(true) == Egress::TcpPorts);
    assert_eq!(r.connect_ports(true), strings(&["*:443", "*:53"]));
    r.proxy = true;
    assert!(r.egress(true) == Egress::ProxyOnly);
    assert_eq!(r.connect_ports(true), strings(&["*:443"]));
    let mut n = request();
    n.no_network = true;
    assert!(n.egress(false) == Egress::ProxyOnly);
    assert!(n.egress(true) == Egress::Open);
    assert!(n.network_isolated(true) && !n.network_isolated(false));
}

#[test]
fn the_linux_ruleset_follows_the_request() {
    let mut n = request();
    n.no_network = true;
    assert_eq!(
        n.ruleset(3, &Err("EPERM".into()), true).err().unwrap(),
        "--no-net needs a network namespace or Landlock ABI 4, and this host gives neither (EPERM; Landlock ABI 3); porta will not run the command with the network open"
    );
    assert!(n.ruleset(4, &Err("EPERM".into()), true).unwrap().restrict_network);
    assert!(!n.ruleset(3, &Ok(()), true).unwrap().restrict_network);
    assert!(request().ruleset(5, &Ok(()), false).err().unwrap().starts_with("this kernel will not accept a seccomp filter"));
    let open = request().ruleset(5, &Err("no userns".into()), true).unwrap();
    assert_eq!(open.open_reads_except, strings(&["/home/u/.ssh"]));
    let isolated = request().ruleset(5, &Ok(()), true).unwrap();
    assert!(isolated.open_reads_except.is_empty());
    let mut net = request();
    net.allowed_net = strings(&["h:443"]);
    net.allowed_bind = strings(&["8080"]);
    let p = net.ruleset(5, &Ok(()), true).unwrap();
    assert_eq!(p.tcp_ports, vec![443, 53]);
    assert_eq!(p.bind_ports, vec![8080]);
}

#[test]
fn denials_are_explained_when_a_run_failed_on_its_own() {
    assert!(denials_wanted(false, "", 1));
    assert!(!denials_wanted(false, "", 0));
    assert!(!denials_wanted(false, "", 124));
    assert!(!denials_wanted(false, "", 152));
    assert!(!denials_wanted(false, "", 137));
    assert!(denials_wanted(false, "always", 0));
    assert!(!denials_wanted(false, "never", 1));
    assert!(denials_wanted(true, "never", 0));
}

#[test]
fn the_enforcement_is_described_per_platform() {
    let r = request();
    assert_eq!(
        r.explain_enforcement(&Enforcement::Linux { ruleset_refusal: None, namespaces: true }),
        "\nLandlock      this kernel can express every rule above\nseccomp       baseline: ptrace, process_vm_*, mounts, namespaces, io_uring, raw/packet/vsock, MPTCP refused\n"
    );
    let mut p = request();
    p.proxy = true;
    assert_eq!(
        p.explain_enforcement(&Enforcement::Linux { ruleset_refusal: Some("ABI 3".into()), namespaces: true }),
        "\nLandlock      this kernel cannot: ABI 3\nseccomp       baseline plus: socket() only for AF_INET SOCK_STREAM\n"
    );
    assert_eq!(
        r.explain_enforcement(&Enforcement::MacOs { profile: "(version 1)\n".into() }),
        "\nsandbox-exec profile:\n(version 1)\n"
    );
    assert_eq!(
        r.explain_enforcement(&Enforcement::Other),
        "\nno enforcement backend on this platform; every native run is refused\n"
    );
    assert_eq!(enforcement_backend(Platform::Linux), "landlock+seccomp");
    assert_eq!(enforcement_backend(Platform::MacOs), "sandbox-exec");
    assert_eq!(enforcement_backend(Platform::Other), "none");
}

#[test]
fn the_rerun_line_quotes_what_a_shell_would_split() {
    assert_eq!(shell_word("a-b/c.d"), "a-b/c.d");
    assert_eq!(shell_word(""), "''");
    assert_eq!(shell_word("a b"), "'a b'");
    assert_eq!(shell_word("it's"), "'it'\\''s'");
    let mut r = request();
    r.allowed_net = strings(&["*:443"]);
    r.allowed_bind = strings(&["8080"]);
    r.allowed_unix = strings(&["/run/x.sock"]);
    r.read_policy = "strict".into();
    assert_eq!(
        r.rerun_line(),
        "porta run make -v /w --allow-net '*:443' --allow-bind 8080 --allow-unix /run/x.sock --read-policy strict -- test 'it'\\''s'"
    );
    r.proxy = true;
    assert!(r.rerun_line().starts_with("porta run make -v /w --proxy-allow <hosts> --allow-bind 8080"));
}

#[test]
fn the_policy_as_json() {
    let mut r = request();
    r.cwd = String::new();
    r.allowed_net = strings(&["*:443"]);
    r.timeout = 9;
    assert_eq!(
        r.explain_json("none"),
        r#"{"command":"make","args":["test","it's"],"working_dir":".","mounts":["/w"],"reads":"open","network":{"mode":"allowlist","allow":["*:443"]},"listen":[],"unix_sockets":[],"timeout_seconds":9,"limits":{"cpu_seconds":0,"processes":0,"file_size_mib":0,"memory_mib":0},"preset":"default","closed":{"read":["/home/u/.ssh"],"protect":[".envrc"],"unix":[]},"enforcement":"none"}"#
    );
    assert!(wt_sandbox_explain_json(&Ok((request(), Platform::MacOs))).ends_with(r#""enforcement":"sandbox-exec"}"#));
    assert_eq!(wt_sandbox_explain_json(&Err("no \"x\"".into())), r#"{"refused":"no \"x\""}"#);
    assert_eq!(wt_sandbox_explain(&Err("no".into())), "porta would refuse this run: no\n");
}

#[test]
fn every_entry_point_answers_with_json() {
    assert_eq!(json_error("a\"b\n"), r#"{"error":"a\"b\n"}"#);
    let done = Captured::Finished { code: Some(1), stdout: "o\n".into(), stderr: "\u{1}".into() };
    assert_eq!(finish_sandboxed(&done), r#"{"exit_code":1,"stdout":"o\n","stderr":"\u0001"}"#);
    let killed = Captured::Finished { code: None, stdout: String::new(), stderr: String::new() };
    assert_eq!(wt_exec_sandboxed(&Ok(killed)), r#"{"exit_code":-1,"stdout":"","stderr":""}"#);
    assert_eq!(
        wt_exec_sandboxed(&Ok(Captured::Failed { error: "ENOENT".into() })),
        r#"{"error":"sandbox exec failed: ENOENT"}"#
    );
    assert_eq!(wt_exec_sandboxed(&Err("refused".into())), r#"{"error":"refused"}"#);
    assert_eq!(wt_exec_replace("exec failed"), r#"{"error":"exec failed"}"#);
    assert_eq!(wt_exec_supervised(&Ok(-3)), r#"{"exit_code":-3}"#);
    assert_eq!(wt_exec_supervised(&Err("no".into())), r#"{"error":"no"}"#);
    assert_eq!(wt_exec_inner(&Ok(Some("boom".into()))), "boom");
    assert_eq!(wt_exec_inner(&Ok(None)), "running a request in place is only how --why works on Linux");
    assert_eq!(wt_exec_inner(&Err("refused".into())), "refused");
}

#[test]
fn a_toml_document_reads_as_json_or_as_its_error() {
    assert_eq!(
        porta::request::wt_parse_toml("name = \"x\"\nn = 3\n[table]\nok = true\nlist = [1, 2]\n"),
        r#"{"value":{"n":3,"name":"x","table":{"list":[1,2],"ok":true}}}"#
    );
    let broken = porta::request::wt_parse_toml("name = ");
    assert!(broken.starts_with(r#"{"error":""#), "{broken}");
    let parsed: serde_json::Value = serde_json::from_str(&broken).unwrap();
    assert!(parsed["error"].as_str().unwrap().len() > 0);
}
