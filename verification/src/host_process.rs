//! Host functions for processes the guest side has already checked: which
//! arguments a command is run with, and how its outcome is reported. They
//! run a command directly, with no sandbox of their own; running it is the
//! host's.

use vstd::prelude::*;
use crate::json_text::{parse_string_list, parsed_strings};
use crate::json_text::{json_escaped, push_json_escaped};
use crate::text::{owned, push_signed_decimal, push_str, same_text, signed_decimal};
use crate::words::texts;

verus! {

/// The arguments a command is given: none for an empty text or `[]`, else
/// the JSON array of strings, or the parse's error.
pub open spec fn arguments(args_json: Seq<char>) -> Result<Seq<Seq<char>>, Seq<char>> {
    if args_json.len() == 0 || args_json == "[]"@ {
        Ok(Seq::empty())
    } else {
        parsed_strings(args_json)
    }
}

/// The arguments a command is given, or why they could not be read.
pub fn command_args(args_json: &str) -> (r: Result<Vec<String>, String>)
    ensures
        match arguments(args_json@) {
            Ok(a) => r is Ok && texts(r->Ok_0@) == a,
            Err(e) => r is Err && r->Err_0@ == e,
        },
{
    if args_json.unicode_len() == 0 || same_text(args_json, "[]") {
        let v: Vec<String> = Vec::new();
        assert(texts(v@) =~= Seq::<Seq<char>>::empty());
        return Ok(v);
    }
    parse_string_list(args_json)
}

/// What running a command came to: its exit code (none when a signal ended
/// it), its output and error output as text; or why it could not be run.
pub enum Ran {
    Finished { code: Option<i32>, stdout: String, stderr: String },
    Failed(String),
}

/// The reply of one command run.
pub open spec fn ran_text(r: Ran) -> Seq<char> {
    match r {
        Ran::Failed(e) => "{\"error\":\"exec failed: "@ + json_escaped(e@) + "\"}"@,
        Ran::Finished { code, stdout, stderr } => "{\"exit_code\":"@ + signed_decimal(match code {
            Some(c) => c as int,
            None => -1,
        }) + ",\"stdout\":\""@ + json_escaped(stdout@) + "\",\"stderr\":\""@ + json_escaped(stderr@) + "\"}"@,
    }
}

/// The reply of `exec_command`: `{"exit_code":N,"stdout":"…","stderr":"…"}`
/// (-1 for a run a signal ended), the arguments' error, or why the command
/// could not be run; every text it embeds is escaped for JSON.
pub fn wt_exec_command(args: &Result<Vec<String>, String>, ran: &Ran) -> (r: String)
    ensures
        match args {
            Err(e) => r@ == "{\"error\":\"invalid args: "@ + json_escaped(e@) + "\"}"@,
            Ok(_) => r@ == ran_text(*ran),
        },
{
    match args {
        Err(e) => {
            let mut t = owned("{\"error\":\"invalid args: ");
            push_json_escaped(&mut t, e.as_str());
            push_str(&mut t, "\"}");
            t
        },
        Ok(_) => match ran {
            Ran::Failed(e) => {
                let mut t = owned("{\"error\":\"exec failed: ");
                push_json_escaped(&mut t, e.as_str());
                push_str(&mut t, "\"}");
                t
            },
            Ran::Finished { code, stdout, stderr } => {
                let mut t = owned("{\"exit_code\":");
                let n: i64 = match code {
                    Some(c) => *c as i64,
                    None => -1,
                };
                push_signed_decimal(&mut t, n);
                push_str(&mut t, ",\"stdout\":\"");
                push_json_escaped(&mut t, stdout.as_str());
                push_str(&mut t, "\",\"stderr\":\"");
                push_json_escaped(&mut t, stderr.as_str());
                push_str(&mut t, "\"}");
                t
            },
        },
    }
}

/// The answer of `spawn`: the process id, or -1 where the arguments could
/// not be read or the process not started.
pub fn wt_spawn(args: &Result<Vec<String>, String>, spawned: Option<u32>) -> (r: i64)
    ensures
        args is Err ==> r == -1,
        args is Ok ==> r == match spawned {
            Some(pid) => pid as int,
            None => -1,
        },
{
    match args {
        Err(_) => -1,
        Ok(_) => match spawned {
            Some(pid) => pid as i64,
            None => -1,
        },
    }
}

/// The answer of `kill`: 0 where the signal was sent, -1 where not.
pub fn wt_kill(status: i32) -> (r: i64)
    ensures
        r == (if status == 0 { 0 } else { -1 }),
{
    if status == 0 { 0 } else { -1 }
}

/// The caller's home directory, `/tmp` where it is not set.
pub fn wt_home_dir(home: Option<String>) -> (r: String)
    ensures
        r@ == match home {
            Some(h) => h@,
            None => "/tmp"@,
        },
{
    match home {
        Some(h) => h,
        None => owned("/tmp"),
    }
}

} // verus!
