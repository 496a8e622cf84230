use porta::covers::{hidden_covers, protections, Cover};
use porta::unix_sockets::{bound_sockets, closed_sockets, insert_path, matching_sockets};

fn strings(items: &[&str]) -> Vec<String> {
    items.iter().map(|s| s.to_string()).collect()
}

const TABLE: &str = "Num       RefCount Protocol Flags    Type St Inode Path
0000000000000000: 00000002 00000000 00010000 0001 01 20001 /run/user/1000/bus
0000000000000000: 00000002 00000000 00010000 0001 01 20002 @/tmp/.X11-unix/X0
0000000000000000: 00000003 00000000 00000000 0001 03 20003
0000000000000000: 00000002 00000000 00010000 0001 01 20004 /home/u/.ssh/agent.sock
0000000000000000: 00000002 00000000 00010000 0001 01 20005 /run/user/1000/bus
";

#[test]
fn the_socket_table_gives_each_bound_path_once_in_order() {
    assert_eq!(bound_sockets(TABLE), strings(&["/home/u/.ssh/agent.sock", "/run/user/1000/bus"]));
    assert!(bound_sockets("Num RefCount\n").is_empty());
    assert!(bound_sockets("").is_empty());
}

#[test]
fn a_path_is_inserted_in_its_place_once() {
    let mut set = vec![];
    insert_path(&mut set, "/b".to_string());
    insert_path(&mut set, "/a".to_string());
    insert_path(&mut set, "/c".to_string());
    insert_path(&mut set, "/b".to_string());
    assert_eq!(set, strings(&["/a", "/b", "/c"]));
}

#[test]
fn deny_patterns_pick_the_bound_sockets_they_match() {
    let bound = strings(&["/home/u/.ssh/agent.sock", "/run/user/1000/bus", "/tmp/gpg-agent"]);
    assert_eq!(
        matching_sockets(&bound, &strings(&["/agent\\.sock$", "gpg"])),
        strings(&["/home/u/.ssh/agent.sock", "/tmp/gpg-agent"])
    );
    assert!(matching_sockets(&bound, &vec![]).is_empty());
    assert!(matching_sockets(&bound, &strings(&["("])).is_empty());
}

#[test]
fn a_socket_closes_once_unless_allowed_or_hidden_already() {
    let candidates = vec![
        ("/home/u/.ssh/agent.sock".to_string(), true),
        ("/run/user/1000/bus".to_string(), true),
        ("/tmp/gone".to_string(), false),
        ("/home/u/.ssh/agent.sock".to_string(), true),
        ("/secret/x.sock".to_string(), true),
        ("/run/ok.sock".to_string(), true),
    ];
    assert_eq!(
        closed_sockets(&candidates, &strings(&["/run/ok.sock"]), &strings(&["/secret"])),
        strings(&["/home/u/.ssh/agent.sock", "/run/user/1000/bus"])
    );
}

#[test]
fn the_mount_namespace_covers_outermost_paths_then_sockets_then_protections() {
    let existing = vec![
        ("/home/u/.ssh".to_string(), true),
        ("/home/u/.ssh/id_rsa".to_string(), false),
        ("/home/u/.netrc".to_string(), false),
    ];
    let guard = protections("/w", true, &vec![("/w/.git/hooks".to_string(), true), ("/w/.git/config".to_string(), false)], &vec![
        ("/w/.envrc".to_string(), true),
    ]);
    assert_eq!(
        guard,
        vec![
            ("/w".to_string(), Cover::Pin),
            ("/w/.git".to_string(), Cover::Pin),
            ("/w/.git/hooks".to_string(), Cover::Freeze),
            ("/w/.envrc".to_string(), Cover::Freeze),
        ]
    );
    assert_eq!(
        hidden_covers(&existing, &strings(&["/run/s.sock"]), &guard),
        vec![
            ("/home/u/.ssh".to_string(), Cover::HideDirectory),
            ("/home/u/.netrc".to_string(), Cover::HideFile),
            ("/run/s.sock".to_string(), Cover::HideFile),
            ("/w".to_string(), Cover::Pin),
            ("/w/.git".to_string(), Cover::Pin),
            ("/w/.git/hooks".to_string(), Cover::Freeze),
            ("/w/.envrc".to_string(), Cover::Freeze),
        ]
    );
    assert_eq!(protections("/m", false, &vec![], &vec![]), vec![("/m".to_string(), Cover::Pin)]);
}
