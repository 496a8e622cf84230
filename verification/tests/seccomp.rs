use porta::seccomp::assembler::{
    Errnos, Instruction, ACTION_ALLOW, ACTION_ERRNO, ACTION_KILL_PROCESS, ALU_AND_K, JMP_JA, JMP_JEQ_K, JMP_JSET_K,
    LD_W_ABS, RET_K,
};
use porta::seccomp::{
    assemble, Egress, SyscallAbi, AT_EMPTY_PATH, IPPROTO_MPTCP, NETLINK_ROUTE, SYS_CLONE3, SYS_FSCONFIG, SYS_FSMOUNT,
    SYS_FSOPEN, SYS_FSPICK, SYS_IO_URING_SETUP, SYS_MOUNT_SETATTR, SYS_MOVE_MOUNT, SYS_OPEN_TREE, SYS_PIDFD_GETFD,
    TIOCSTI,
};

const AUDIT_ARCH: u32 = 0xc000_003e;

fn host_abi() -> SyscallAbi {
    let denied: Vec<u32> = vec![
        libc::SYS_ptrace as u32,
        libc::SYS_process_vm_readv as u32,
        libc::SYS_process_vm_writev as u32,
        SYS_PIDFD_GETFD,
        libc::SYS_userfaultfd as u32,
        libc::SYS_keyctl as u32,
        libc::SYS_add_key as u32,
        libc::SYS_request_key as u32,
        libc::SYS_bpf as u32,
        libc::SYS_perf_event_open as u32,
        libc::SYS_mount as u32,
        libc::SYS_umount2 as u32,
        libc::SYS_pivot_root as u32,
        SYS_OPEN_TREE,
        SYS_MOVE_MOUNT,
        SYS_FSOPEN,
        SYS_FSCONFIG,
        SYS_FSMOUNT,
        SYS_FSPICK,
        SYS_MOUNT_SETATTR,
        libc::SYS_unshare as u32,
        libc::SYS_setns as u32,
        libc::SYS_open_by_handle_at as u32,
        libc::SYS_personality as u32,
        libc::SYS_kexec_load as u32,
        libc::SYS_kexec_file_load as u32,
        libc::SYS_init_module as u32,
        libc::SYS_finit_module as u32,
        libc::SYS_delete_module as u32,
        libc::SYS_reboot as u32,
        libc::SYS_swapon as u32,
        libc::SYS_swapoff as u32,
        libc::SYS_acct as u32,
        libc::SYS_quotactl as u32,
        libc::SYS_sethostname as u32,
        libc::SYS_setdomainname as u32,
        libc::SYS_lookup_dcookie as u32,
        libc::SYS_nfsservctl as u32,
    ];
    SyscallAbi {
        audit_arch: AUDIT_ARCH,
        denied,
        denied_arch: vec![libc::SYS_ioperm as u32, libc::SYS_iopl as u32],
        sys_clone: libc::SYS_clone as u32,
        sys_ioctl: libc::SYS_ioctl as u32,
        sys_execveat: libc::SYS_execveat as u32,
        sys_socket: libc::SYS_socket as u32,
        af_inet: libc::AF_INET as u32,
        af_inet6: libc::AF_INET6 as u32,
        af_netlink: libc::AF_NETLINK as u32,
        af_packet: libc::AF_PACKET as u32,
        af_bluetooth: libc::AF_BLUETOOTH as u32,
        af_vsock: libc::AF_VSOCK as u32,
        ipproto_tcp: libc::IPPROTO_TCP as u32,
        sock_raw: libc::SOCK_RAW as u32,
        sock_stream: libc::SOCK_STREAM as u32,
        errnos: Errnos {
            eperm: libc::EPERM as u32,
            enosys: libc::ENOSYS as u32,
            eafnosupport: libc::EAFNOSUPPORT as u32,
            eprotonosupport: libc::EPROTONOSUPPORT as u32,
        },
    }
}

fn program(egress: Egress) -> Vec<Instruction> {
    assemble(egress, &host_abi())
}

/// Runs a program the way the kernel would for one `seccomp_data`, and
/// reports the action it returns.
fn evaluate(code: &[Instruction], nr: u32, args: [u64; 6]) -> u32 {
    evaluate_on(code, AUDIT_ARCH, nr, args)
}

fn evaluate_on(code: &[Instruction], arch: u32, nr: u32, args: [u64; 6]) -> u32 {
    let mut data = [0u32; 16];
    data[0] = nr;
    data[1] = arch;
    for (index, arg) in args.iter().enumerate() {
        data[4 + index * 2] = (*arg & 0xffff_ffff) as u32;
        data[5 + index * 2] = (*arg >> 32) as u32;
    }
    let mut acc = 0u32;
    let mut pc = 0usize;
    loop {
        let ins = code[pc];
        pc += 1;
        match ins.code {
            LD_W_ABS => acc = data[(ins.k / 4) as usize],
            ALU_AND_K => acc &= ins.k,
            JMP_JA => pc += ins.k as usize,
            JMP_JEQ_K => pc += if acc == ins.k { ins.jt } else { ins.jf } as usize,
            JMP_JSET_K => pc += if acc & ins.k != 0 { ins.jt } else { ins.jf } as usize,
            RET_K => return ins.k,
            other => panic!("unknown opcode {other:#x}"),
        }
    }
}

const EPERM: u32 = ACTION_ERRNO | libc::EPERM as u32;
const ENOSYS: u32 = ACTION_ERRNO | libc::ENOSYS as u32;
const EAFNOSUPPORT: u32 = ACTION_ERRNO | libc::EAFNOSUPPORT as u32;
const AF_INET: u64 = libc::AF_INET as u64;
const AF_INET6: u64 = libc::AF_INET6 as u64;
const AF_NETLINK: u64 = libc::AF_NETLINK as u64;
const AF_PACKET: u64 = libc::AF_PACKET as u64;
const AF_VSOCK: u64 = libc::AF_VSOCK as u64;
const SOCK_STREAM: u64 = libc::SOCK_STREAM as u64;
const SOCK_RAW: u64 = libc::SOCK_RAW as u64;
const IPPROTO_TCP: u64 = libc::IPPROTO_TCP as u64;

#[test]
fn baseline_lets_ordinary_syscalls_through() {
    let code = program(Egress::Open);
    assert_eq!(evaluate(&code, libc::SYS_openat as u32, [0; 6]), ACTION_ALLOW);
    assert_eq!(evaluate(&code, libc::SYS_write as u32, [0; 6]), ACTION_ALLOW);
    assert_eq!(evaluate(&code, libc::SYS_clone as u32, [0x1200011, 0, 0, 0, 0, 0]), ACTION_ALLOW);
    assert_eq!(evaluate(&code, libc::SYS_ioctl as u32, [0, 0x5401 /* TCGETS */, 0, 0, 0, 0]), ACTION_ALLOW);
    assert_eq!(evaluate(&code, libc::SYS_execveat as u32, [3, 0, 0, 0, 0, 0]), ACTION_ALLOW);
}

#[test]
fn baseline_refuses_the_bypass_primitives() {
    let code = program(Egress::Open);
    assert_eq!(evaluate(&code, libc::SYS_ptrace as u32, [0; 6]), EPERM);
    assert_eq!(evaluate(&code, libc::SYS_mount as u32, [0; 6]), EPERM);
    assert_eq!(evaluate(&code, SYS_IO_URING_SETUP, [0; 6]), ENOSYS);
    assert_eq!(evaluate(&code, SYS_CLONE3, [0; 6]), ENOSYS);
    assert_eq!(evaluate(&code, libc::SYS_clone as u32, [0x1000_0000, 0, 0, 0, 0, 0]), EPERM);
    assert_eq!(evaluate(&code, libc::SYS_ioctl as u32, [0, TIOCSTI as u64, 0, 0, 0, 0]), EPERM);
    assert_eq!(evaluate(&code, libc::SYS_execveat as u32, [3, 0, 0, 0, AT_EMPTY_PATH as u64, 0]), EPERM);
}

#[test]
fn baseline_closes_the_families_a_tcp_rule_cannot_see() {
    let code = program(Egress::Open);
    let socket = |domain: u64, kind: u64, proto: u64| evaluate(&code, libc::SYS_socket as u32, [domain, kind, proto, 0, 0, 0]);
    assert_eq!(socket(AF_INET, SOCK_STREAM, 0), ACTION_ALLOW);
    assert_eq!(socket(AF_INET6, libc::SOCK_DGRAM as u64, 0), ACTION_ALLOW);
    assert_eq!(socket(libc::AF_UNIX as u64, SOCK_STREAM | 0x80000, 0), ACTION_ALLOW);
    assert_eq!(socket(AF_NETLINK, SOCK_RAW, NETLINK_ROUTE as u64), EAFNOSUPPORT, "raw wins over netlink route");
    assert_eq!(socket(AF_NETLINK, libc::SOCK_DGRAM as u64, NETLINK_ROUTE as u64), ACTION_ALLOW);
    assert_eq!(socket(AF_NETLINK, libc::SOCK_DGRAM as u64, 15), EAFNOSUPPORT);
    assert_eq!(socket(AF_PACKET, libc::SOCK_DGRAM as u64, 0), EAFNOSUPPORT);
    assert_eq!(socket(AF_VSOCK, SOCK_STREAM, 0), EAFNOSUPPORT);
    assert_eq!(socket(AF_INET, SOCK_RAW, 1), EAFNOSUPPORT);
    assert_eq!(socket(AF_INET, SOCK_STREAM, IPPROTO_MPTCP as u64), ACTION_ERRNO | libc::EPROTONOSUPPORT as u32);
    assert_eq!(socket(AF_INET | (1 << 32), SOCK_STREAM, 0), EAFNOSUPPORT, "domain smuggled in the high word");
}

#[test]
fn proxy_only_permits_one_socket_shape() {
    let code = program(Egress::ProxyOnly);
    let socket = |domain: u64, kind: u64, proto: u64| evaluate(&code, libc::SYS_socket as u32, [domain, kind, proto, 0, 0, 0]);
    assert_eq!(socket(AF_INET, SOCK_STREAM, 0), ACTION_ALLOW);
    assert_eq!(socket(AF_INET, SOCK_STREAM | 0x80800, 6), ACTION_ALLOW);
    assert_eq!(socket(AF_INET, libc::SOCK_DGRAM as u64, 0), EAFNOSUPPORT);
    assert_eq!(socket(libc::AF_UNIX as u64, SOCK_STREAM, 0), EAFNOSUPPORT);
    assert_eq!(socket(AF_INET6, SOCK_STREAM, 0), EAFNOSUPPORT);
    assert_eq!(socket(AF_INET, SOCK_STREAM, IPPROTO_MPTCP as u64), ACTION_ERRNO | libc::EPROTONOSUPPORT as u32);
    assert_eq!(evaluate(&code, libc::SYS_ptrace as u32, [0; 6]), EPERM);
}

#[test]
fn tcp_ports_leave_an_internet_socket_only_tcp() {
    let code = program(Egress::TcpPorts);
    let socket = |domain: u64, kind: u64, proto: u64| evaluate(&code, libc::SYS_socket as u32, [domain, kind, proto, 0, 0, 0]);
    assert_eq!(socket(AF_INET, SOCK_STREAM, 0), ACTION_ALLOW);
    assert_eq!(socket(AF_INET6, SOCK_STREAM | 0x80800, IPPROTO_TCP), ACTION_ALLOW);
    assert_eq!(socket(AF_INET, libc::SOCK_DGRAM as u64, 0), EAFNOSUPPORT);
    assert_eq!(socket(AF_INET6, libc::SOCK_DGRAM as u64, 0), EAFNOSUPPORT);
    assert_eq!(socket(AF_INET, SOCK_STREAM, 132 /* SCTP */), EAFNOSUPPORT);
    assert_eq!(socket(AF_INET, libc::SOCK_SEQPACKET as u64, 0), EAFNOSUPPORT);
    assert_eq!(socket(libc::AF_UNIX as u64, libc::SOCK_DGRAM as u64, 0), ACTION_ALLOW);
    assert_eq!(socket(AF_NETLINK, libc::SOCK_DGRAM as u64, NETLINK_ROUTE as u64), ACTION_ALLOW);
    assert_eq!(socket(AF_PACKET, libc::SOCK_DGRAM as u64, 0), EAFNOSUPPORT);
    assert_eq!(socket(AF_INET | (1 << 32), SOCK_STREAM, 0), EAFNOSUPPORT);
}

#[test]
fn a_foreign_architecture_is_killed() {
    let code = program(Egress::Open);
    assert_eq!(evaluate_on(&code, AUDIT_ARCH ^ 1, libc::SYS_write as u32, [0; 6]), ACTION_KILL_PROCESS);
}

#[test]
fn every_jump_lands_inside_the_program() {
    for egress in [Egress::Open, Egress::TcpPorts, Egress::ProxyOnly] {
        let code = program(egress);
        for (index, ins) in code.iter().enumerate() {
            let reach = |offset: usize| assert!(index + 1 + offset < code.len(), "jump past the end at {index}");
            match ins.code {
                JMP_JA => reach(ins.k as usize),
                JMP_JEQ_K | JMP_JSET_K => {
                    reach(ins.jt as usize);
                    reach(ins.jf as usize);
                },
                _ => {},
            }
        }
        assert!(code.len() < 4096);
    }
}
