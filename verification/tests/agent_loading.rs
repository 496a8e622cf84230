use porta::agent_loading::{
    check_count, check_descent, check_mounts, clipped, delegate_name, name_check, tool_mounts, Descent,
};

#[test]
fn a_delegate_inherits_the_chain_budget_and_pinning() {
    let root: Descent<u32> = Descent::root(true);
    assert_eq!(root.actor, "root");
    assert!(root.chain.is_empty() && root.shared.is_none() && !root.inherited_hashes);
    let below = root.below("/team/root.toml", 7, true);
    assert_eq!(below.chain, vec!["/team/root.toml".to_string()]);
    assert_eq!(below.shared, Some(7));
    assert!(below.inherited_hashes && below.defer_credential);
    let child = below.child("helper", Some("/team/helper.toml"), Some(8));
    assert_eq!(child.actor, "root/helper");
    assert_eq!(child.chain, below.chain);
    assert_eq!(child.expected_config.as_deref(), Some("/team/helper.toml"));
    assert_eq!(child.shared, Some(8));
}

#[test]
fn a_configuration_may_not_load_itself_or_go_deeper_than_four() {
    let chain: Vec<String> = ["a", "b", "c"].iter().map(|s| s.to_string()).collect();
    assert!(check_descent(&chain, "d").is_ok());
    assert_eq!(check_descent(&chain, "b").unwrap_err(), "cyclic agent delegation configuration");
    let deep: Vec<String> = ["a", "b", "c", "d"].iter().map(|s| s.to_string()).collect();
    assert_eq!(check_descent(&deep, "e").unwrap_err(), "agent delegation depth exceeds 4");
    assert_eq!(check_descent(&deep, "a").unwrap_err(), "cyclic agent delegation configuration");
}

#[test]
fn a_delegate_is_a_tool_named_after_it() {
    let mut names = vec!["grep".to_string()];
    assert_eq!(delegate_name(&mut names, "helper").unwrap(), "delegate_helper");
    assert_eq!(names, vec!["grep".to_string(), "delegate_helper".to_string()]);
    assert_eq!(
        delegate_name(&mut names, "helper").unwrap_err(),
        "duplicate tool or agent name: delegate_helper"
    );
    assert_eq!(delegate_name(&mut names, "bad name").unwrap_err(), "invalid delegated agent name");
    assert_eq!(names.len(), 2);
}

#[test]
fn checks_are_named_once_and_take_an_object() {
    let mut taken = vec![];
    assert!(name_check(&mut taken, "lint", true, "completion").is_ok());
    assert_eq!(
        name_check(&mut taken, "lint", true, "completion").unwrap_err(),
        "completion check names must be unique nonempty ASCII identifiers"
    );
    assert_eq!(
        name_check(&mut taken, "test", false, "completion").unwrap_err(),
        "completion check parameters must be an object"
    );
    assert_eq!(taken, vec!["lint".to_string(), "test".to_string()]);
    assert!(check_count(16, "completion").is_ok());
    assert_eq!(check_count(17, "completion").unwrap_err(), "at most 16 completion checks are supported");
}

#[test]
fn mounts_are_read_only_unique_and_named() {
    let guests = vec!["/src".to_string(), "/docs".to_string()];
    assert!(check_mounts(&guests, &vec![true, true], "completion").is_ok());
    assert_eq!(
        check_mounts(&guests, &vec![true, false], "completion").unwrap_err(),
        "completion check mounts must be read-only"
    );
    let twice = vec!["/src".to_string(), "/src".to_string()];
    assert_eq!(
        check_mounts(&twice, &vec![true, true], "completion").unwrap_err(),
        "completion check mount paths must be nonempty and unique"
    );
    assert!(tool_mounts(&guests).is_ok());
    assert_eq!(tool_mounts(&twice).unwrap_err(), "tool mount guest paths must be nonempty and unique");
    assert_eq!(tool_mounts(&vec![String::new()]).unwrap_err(), "tool mount guest paths must be nonempty and unique");
}

#[test]
fn clipping_keeps_within_the_limit_on_a_character_boundary() {
    assert_eq!(clipped("short", 10), "short");
    assert_eq!(clipped("abcdef", 3), "abc…");
    assert_eq!(clipped("aé", 2), "a…");
    assert_eq!(clipped("éé", 3), "é…");
    assert_eq!(clipped("", 0), "");
}

#[test]
fn strict_pinning_only_widens_down_the_team() {
    let root: porta::agent_loading::Descent<u8> = porta::agent_loading::Descent::root(false);
    assert!(!root.requires_pins(false));
    assert!(root.requires_pins(true));
    let strict = root.below("/team/a.toml", 1, true);
    assert!(strict.requires_pins(false));
    let still = strict.below("/team/b.toml", 1, false);
    assert!(still.inherited_hashes);
}
