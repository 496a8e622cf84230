use porta::landlock::{
    no_landlock, path_rights, plan, plan_on_kernel, walk_step, write_rights, Reads, Walk, FILE_RIGHTS, READ_RIGHTS_ABI1,
    WRITE_RIGHTS_ABI1,
};
use porta::landlock_policy::{policy, readable_roots, requested_tcp_ports, system_dirs, system_files, writable_dirs};

fn strings(items: &[&str]) -> Vec<String> {
    items.iter().map(|s| s.to_string()).collect()
}

#[test]
fn write_rights_grow_with_the_abi() {
    assert_eq!(write_rights(1), WRITE_RIGHTS_ABI1);
    assert_eq!(write_rights(2), WRITE_RIGHTS_ABI1 | 8192);
    assert_eq!(write_rights(3), WRITE_RIGHTS_ABI1 | 8192 | 16384);
    assert_eq!(path_rights(0xffff_ffff, true), 0xffff_ffff);
    assert_eq!(path_rights(0xffff_ffff, false), FILE_RIGHTS);
    assert_eq!(
        no_landlock("ENOSYS"),
        "this kernel has no usable Landlock support (ENOSYS); porta will not run a native command it cannot restrict"
    );
}

#[test]
fn ports_must_be_numeric() {
    assert_eq!(requested_tcp_ports(&strings(&["api.example.com:443", "*:80"])).unwrap(), vec![443, 80]);
    assert_eq!(requested_tcp_ports(&strings(&["host"])).unwrap_err(), "--allow-net entry has no port: host");
    assert_eq!(
        requested_tcp_ports(&strings(&["host:*"])).unwrap_err(),
        "Landlock cannot express the port in --allow-net host:*; name a numeric TCP port"
    );
    assert_eq!(
        requested_tcp_ports(&strings(&["host:0"])).unwrap_err(),
        "Landlock cannot express the port in --allow-net host:0; name a numeric TCP port"
    );
}

#[test]
fn mounts_are_writable_unless_read_only() {
    assert_eq!(writable_dirs(&strings(&["/w", "/r:ro"])), strings(&["/w", "/tmp", "/dev"]));
    assert_eq!(
        readable_roots(&strings(&["/w", "/r:ro"])),
        strings(&["/w", "/r", "/usr", "/lib", "/lib64", "/bin", "/sbin", "/tmp", "/dev"])
    );
    assert_eq!(system_dirs().len(), 14);
    assert_eq!(system_files().len(), 28);
    assert!(system_files().contains(&"/etc/resolv.conf".to_string()));
}

#[test]
fn a_strict_policy_confines_reads_and_an_open_one_closes_paths() {
    let strict = policy(&strings(&["/w", "/r:ro"]), &strings(&["h:443"]), &[8080], "strict", &strings(&["/x"])).unwrap();
    assert!(strict.restrict_reads && strict.restrict_network);
    assert_eq!(strict.readable_dirs, strings(&["/w", "/r"]));
    assert!(strict.open_reads_except.is_empty());
    assert_eq!(strict.tcp_ports, vec![443]);
    assert_eq!(strict.bind_ports, vec![8080]);
    let open = policy(&strings(&["/w"]), &[], &[], "open", &strings(&["/home/u/.ssh"])).unwrap();
    assert!(!open.restrict_reads && !open.restrict_network);
    assert!(open.readable_dirs.is_empty());
    assert_eq!(open.open_reads_except, strings(&["/home/u/.ssh"]));
    assert_eq!(policy(&[], &strings(&["h"]), &[], "open", &[]).err().unwrap(), "--allow-net entry has no port: h");
}

#[test]
fn a_plan_handles_what_the_kernel_understands() {
    let strict = policy(&strings(&["/w"]), &strings(&["h:443"]), &[], "strict", &[]).unwrap();
    assert_eq!(
        plan(&strict, 3).err().unwrap(),
        "--allow-net needs Landlock ABI 4 for network rules, this kernel reports 3; porta will not run the command with the network open instead"
    );
    let p = plan(&strict, 6).unwrap();
    assert_eq!(p.handled_fs, write_rights(6) | READ_RIGHTS_ABI1);
    assert_eq!(p.handled_net, 3);
    assert_eq!((p.scoped, p.attr_size), (3, 24));
    assert!(p.reads == Reads::Confined);
    assert_eq!(p.writes[0], ("/w".to_string(), write_rights(6) | READ_RIGHTS_ABI1));
    assert_eq!(p.read_roots.len(), 1 + 14 + 28);
    assert_eq!(p.connect_ports, vec![443]);

    let open = policy(&strings(&["/w"]), &[], &[], "open", &[]).unwrap();
    let q = plan(&open, 1).unwrap();
    assert_eq!((q.handled_fs, q.handled_net, q.scoped, q.attr_size), (WRITE_RIGHTS_ABI1, 0, 0, 16));
    assert!(q.reads == Reads::Open);
    assert!(q.read_roots.is_empty());
    let carved = policy(&strings(&["/w"]), &[], &[], "open", &strings(&["/s"])).unwrap();
    assert!(plan(&carved, 5).unwrap().reads == Reads::AllBut);
}

#[test]
fn the_walk_descends_only_along_closed_paths() {
    let closed = strings(&["/home/u/.ssh", "/etc/shadow"]);
    assert!(walk_step("/", &closed) == Walk::Descend);
    assert!(walk_step("/home", &closed) == Walk::Descend);
    assert!(walk_step("/home/u/.ssh", &closed) == Walk::Skip);
    assert!(walk_step("/usr", &closed) == Walk::Whole);
    assert!(walk_step("/home/u/.sshd", &closed) == Walk::Whole);
}

#[test]
fn a_kernel_without_landlock_is_refused_before_anything_else() {
    let strict = policy(&strings(&["/w"]), &strings(&["h:443"]), &[], "strict", &[]).unwrap();
    assert_eq!(
        plan_on_kernel(&strict, 0, "Function not implemented (os error 38)").err().unwrap(),
        "this kernel has no usable Landlock support (Function not implemented (os error 38)); porta will not run a native command it cannot restrict"
    );
    assert_eq!(plan_on_kernel(&strict, 3, "").err().unwrap(), plan(&strict, 3).err().unwrap());
    assert!(plan_on_kernel(&strict, 4, "").is_ok());
}
