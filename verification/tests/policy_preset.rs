use porta::preset::{expand_deny_read, merge, protected_name};

#[test]
fn a_protected_name_cannot_leave_the_mount() {
    for name in ["../x", "a/../b", "", "/"] {
        assert!(protected_name(name).is_err(), "{name}");
    }
}

#[test]
fn a_protected_name_loses_its_outer_slashes() {
    assert_eq!(protected_name("/.github/workflows/").unwrap(), ".github/workflows");
    assert_eq!(protected_name(".envrc").unwrap(), ".envrc");
    assert_eq!(
        protected_name("a//b").unwrap_err(),
        "--protect takes a name inside a mount, like .envrc or .github/workflows, not a//b"
    );
    assert!(protected_name("./x").is_err());
}

#[test]
fn none_leaves_only_what_the_caller_adds() {
    let read = vec![expand_deny_read("~/secret", Some("/home/u")).unwrap()];
    let closures = merge(&read, &[], &[]).unwrap();
    assert_eq!(closures.deny_read, vec!["/home/u/secret".to_string()]);
    assert!(closures.protect.is_empty());
}

#[test]
fn a_read_closure_needs_an_absolute_path_or_a_home() {
    assert_eq!(expand_deny_read("/etc/x", None).unwrap(), "/etc/x");
    assert_eq!(
        expand_deny_read("~/x", None).unwrap_err(),
        "~/x names the home directory, and HOME is not set"
    );
    assert_eq!(
        expand_deny_read("rel/x", Some("/h")).unwrap_err(),
        "--deny-read takes an absolute path or ~/…, not rel/x"
    );
}

#[test]
fn a_socket_pattern_must_be_a_regular_expression() {
    assert!(merge(&[], &[], &["(".to_string()]).is_err());
    assert_eq!(
        merge(&[], &[], &["a\nb".to_string()]).unwrap_err(),
        "--deny-unix takes a regular expression over a socket path, not \"a\\nb\""
    );
    assert!(merge(&[], &[], &["".to_string()]).is_err());
    let ok = merge(&[], &[], &["ssh-agent".to_string(), ".*docker\\.sock".to_string(), "ssh-agent".to_string()]).unwrap();
    assert_eq!(ok.deny_unix, vec!["ssh-agent".to_string(), ".*docker\\.sock".to_string()]);
}

#[test]
fn merged_lists_keep_each_entry_once_in_order() {
    let read = vec!["/a".to_string(), "/b".to_string(), "/a".to_string()];
    let protect = vec![".envrc".to_string(), "/.envrc/".to_string(), "x/y".to_string()];
    let closures = merge(&read, &protect, &[]).unwrap();
    assert_eq!(closures.deny_read, vec!["/a".to_string(), "/b".to_string()]);
    assert_eq!(closures.protect, vec![".envrc".to_string(), "x/y".to_string()]);
    let refused = merge(&read, &["ok".to_string(), "..".to_string()], &["(".to_string()]).unwrap_err();
    assert!(refused.starts_with("--protect"), "{refused}");
}
