use porta::why::paths;

#[test]
fn a_relative_path_is_joined_to_its_directory() {
    assert_eq!(paths("AT_FDCWD</work>, \"a/b\", O_RDONLY"), vec!["/work/a/b".to_string()]);
    assert_eq!(paths("3</old>, \"x\", 4</new>, \"y\", 0"), vec!["/old/x".to_string(), "/new/y".to_string()]);
    assert_eq!(paths("\"/abs \\\"q\\\"\""), vec!["/abs \"q\"".to_string()]);
}

#[test]
fn a_path_without_a_directory_stays_as_printed() {
    assert_eq!(paths("\"rel\", 0"), vec!["rel".to_string()]);
    assert_eq!(paths("AT_FDCWD</w>, \"/abs\""), vec!["/abs".to_string()]);
    assert_eq!(paths("\"a\\nb\""), vec!["a\\nb".to_string()]);
    assert_eq!(paths("\"unterminated"), vec!["unterminated".to_string()]);
    assert!(paths("0, 1").is_empty());
}
