//! The registry of WASM instances behind the host functions: each created
//! instance is kept under a handle with the settings its run will use (its
//! stdin, arguments, environment, preopened directories, fuel, memory
//! ceiling and entry point) and, after the run, what it produced. A
//! destroyed instance leaves an empty slot, so handles are never reused.
//! Compiling and running the code are the host's; `C` is its compiled code.

use vstd::prelude::*;
use crate::json_text::{parse_string_list, string_list};
use crate::text::{owned, push_str};
use crate::words::texts;

verus! {

/// One instance: its code, the settings of its next run, and what its last
/// run produced.
pub struct Instance<C> {
    pub code: C,
    pub stdin_data: Vec<u8>,
    pub wasi_args: Vec<String>,
    pub env_vars: Vec<(String, String)>,
    pub preopen_dirs: Vec<(String, String)>,
    /// The fuel budget; 0 for none.
    pub fuel: u64,
    /// The memory ceiling in bytes; 0 for none.
    pub max_memory_bytes: usize,
    pub entry_point: String,
    pub stdout_result: String,
    pub stderr_result: String,
    pub exit_code: i64,
    pub fuel_consumed: u64,
}

/// Which setting a call changes.
#[derive(PartialEq, Eq, Structural)]
pub enum Setting {
    Stdin,
    Args,
    Env,
    Preopens,
    MaxMemory,
    Entry,
}

/// Two instances agree on everything but `which`.
pub open spec fn same_but<C>(a: Instance<C>, b: Instance<C>, which: Setting) -> bool {
    &&& a.code == b.code
    &&& (which != Setting::Stdin ==> a.stdin_data@ == b.stdin_data@)
    &&& (which != Setting::Args ==> a.wasi_args@ == b.wasi_args@)
    &&& (which != Setting::Env ==> a.env_vars@ == b.env_vars@)
    &&& (which != Setting::Preopens ==> a.preopen_dirs@ == b.preopen_dirs@)
    &&& (which != Setting::MaxMemory ==> a.max_memory_bytes == b.max_memory_bytes)
    &&& (which != Setting::Entry ==> a.entry_point@ == b.entry_point@)
    &&& a.fuel == b.fuel
    &&& a.stdout_result@ == b.stdout_result@
    &&& a.stderr_result@ == b.stderr_result@
    &&& a.exit_code == b.exit_code
    &&& a.fuel_consumed == b.fuel_consumed
}

/// The instances, each under its handle.
pub struct Instances<C> {
    slots: Vec<Option<Instance<C>>>,
}

impl<C> View for Instances<C> {
    type V = Seq<Option<Instance<C>>>;

    closed spec fn view(&self) -> Seq<Option<Instance<C>>> {
        self.slots@
    }
}

/// The slot a handle names: the handle read as an index (a negative one
/// wraps to one past any slot), or none past the end.
pub open spec fn slot_index(handle: i64) -> int {
    handle as usize as int
}

/// The instance a handle names, if it names a live one.
pub open spec fn named<C>(s: Seq<Option<Instance<C>>>, handle: i64) -> Option<Instance<C>> {
    if 0 <= slot_index(handle) < s.len() { s[slot_index(handle)] } else { None }
}

/// What a setter did: nothing (-1) where the handle names no live instance;
/// else 0, that instance changed in `which` alone and every other slot as
/// it was.
pub open spec fn set_outcome<C>(old: Seq<Option<Instance<C>>>, new: Seq<Option<Instance<C>>>, handle: i64, r: i64, which: Setting) -> bool {
    match named(old, handle) {
        None => r == -1 && new == old,
        Some(a) => r == 0 && new.len() == old.len() && (forall|j: int| 0 <= j < old.len() && j != slot_index(handle) ==> new[j]
            == old[j]) && named(new, handle) is Some && same_but(a, named(new, handle)->Some_0, which),
    }
}

impl<C> Instances<C> {
    /// No instance yet.
    pub fn new() -> (r: Self)
        ensures
            r@ == Seq::<Option<Instance<C>>>::empty(),
    {
        Instances { slots: Vec::new() }
    }

    /// Takes the instance a handle names out of its slot, leaving the slot
    /// empty, with the slot's index.
    fn take(&mut self, handle: i64) -> (r: Option<(usize, Instance<C>)>)
        ensures
            named(old(self)@, handle) is None ==> r is None && final(self)@ == old(self)@,
            named(old(self)@, handle) is Some ==> r is Some && r->Some_0.0 == slot_index(handle) && r->Some_0.1 == named(
                old(self)@,
                handle,
            )->Some_0 && final(self)@ == old(self)@.update(slot_index(handle), None),
    {
        let index = handle as usize;
        if index >= self.slots.len() {
            return None;
        }
        let mut slot = None;
        std::mem::swap(&mut slot, &mut self.slots[index]);
        match slot {
            Some(inst) => Some((index, inst)),
            None => {
                assert(self.slots@ =~= old(self).slots@);
                None
            },
        }
    }

    /// Puts an instance back into the slot it was taken from.
    fn put(&mut self, index: usize, inst: Instance<C>)
        requires
            index < old(self)@.len(),
        ensures
            final(self)@ == old(self)@.update(index as int, Some(inst)),
    {
        self.slots.set(index, Some(inst));
    }

    /// Registers a compiled instance under the next handle, with no stdin,
    /// arguments, environment or preopens, the fuel asked for (none unless
    /// positive), no memory ceiling, entry point `_start`, and nothing
    /// produced yet.
    pub fn create(&mut self, code: C, fuel: i64) -> (handle: usize)
        ensures
            handle == old(self)@.len(),
            final(self)@.len() == old(self)@.len() + 1,
            forall|j: int| 0 <= j < old(self)@.len() ==> final(self)@[j] == old(self)@[j],
            final(self)@[handle as int] is Some,
            fresh(final(self)@[handle as int]->Some_0, code, fuel),
    {
        let inst = Instance {
            code,
            stdin_data: Vec::new(),
            wasi_args: Vec::new(),
            env_vars: Vec::new(),
            preopen_dirs: Vec::new(),
            fuel: if fuel > 0 { fuel as u64 } else { 0 },
            max_memory_bytes: 0,
            entry_point: owned("_start"),
            stdout_result: String::new(),
            stderr_result: String::new(),
            exit_code: 0,
            fuel_consumed: 0,
        };
        self.slots.push(Some(inst));
        self.slots.len() - 1
    }
}

/// A newly created instance.
pub open spec fn fresh<C>(i: Instance<C>, code: C, fuel: i64) -> bool {
    &&& i.code == code
    &&& i.stdin_data@.len() == 0
    &&& i.wasi_args@.len() == 0
    &&& i.env_vars@.len() == 0
    &&& i.preopen_dirs@.len() == 0
    &&& i.fuel == (if fuel > 0 { fuel as u64 } else { 0 })
    &&& i.max_memory_bytes == 0
    &&& i.entry_point@ == "_start"@
    &&& i.stdout_result@.len() == 0
    &&& i.stderr_result@.len() == 0
    &&& i.exit_code == 0
    &&& i.fuel_consumed == 0
}

/// Create an instance from its compiled code (`None` where the file could
/// not be read or compiled): its handle, or -1.
pub fn wt_create<C>(instances: &mut Instances<C>, code: Option<C>, fuel: i64) -> (r: i64)
    requires
        old(instances)@.len() < i64::MAX,
    ensures
        code is None ==> r == -1 && final(instances)@ == old(instances)@,
        code is Some ==> r == old(instances)@.len() && final(instances)@.len() == old(instances)@.len() + 1
            && (forall|j: int| 0 <= j < old(instances)@.len() ==> final(instances)@[j] == old(instances)@[j])
            && final(instances)@[r as int] is Some && fresh(final(instances)@[r as int]->Some_0, code->Some_0, fuel),
{
    match code {
        None => -1,
        Some(c) => instances.create(c, fuel) as i64,
    }
}

/// Set stdin data for an instance, before its run: 0, or -1 for no such
/// instance.
pub fn wt_set_stdin_bytes<C>(instances: &mut Instances<C>, handle: i64, data: Vec<u8>) -> (r: i64)
    ensures
        set_outcome(old(instances)@, final(instances)@, handle, r, Setting::Stdin),
        named(old(instances)@, handle) is Some ==> named(final(instances)@, handle)->Some_0.stdin_data@ == data@,
{
    match instances.take(handle) {
        None => -1,
        Some((index, mut inst)) => {
            inst.stdin_data = data;
            instances.put(index, inst);
            0
        },
    }
}

/// Set stdin text for an instance, as its UTF-8 bytes.
pub fn wt_set_stdin<C>(instances: &mut Instances<C>, handle: i64, data: &str) -> (r: i64)
    ensures
        set_outcome(old(instances)@, final(instances)@, handle, r, Setting::Stdin),
        named(old(instances)@, handle) is Some ==> named(final(instances)@, handle)->Some_0.stdin_data@
            == vstd::utf8::encode_utf8(data@),
{
    let bytes = crate::text::bytes_of(data);
    wt_set_stdin_bytes(instances, handle, bytes)
}

/// The command a tool is sent: its name (escaped) and arguments as one JSON
/// object, framed by the object's length as four little-endian bytes.
pub open spec fn tool_frame(name: Seq<char>, args_json: Seq<char>) -> Seq<u8> {
    let body = vstd::utf8::encode_utf8("{\"tool\":\""@ + crate::json_text::json_escaped(name) + "\",\"arguments\":"@ + args_json + "}"@);
    let n = body.len() as u32;
    seq![(n % 256) as u8, ((n / 256) % 256) as u8, ((n / 65536) % 256) as u8, ((n / 16777216) % 256) as u8] + body
}

/// The framed command for a tool.
pub fn tool_command(name: &str, args_json: &str) -> (r: Vec<u8>)
    ensures
        r@ == tool_frame(name@, args_json@),
{
    let mut cmd = owned("{\"tool\":\"");
    crate::json_text::push_json_escaped(&mut cmd, name);
    push_str(&mut cmd, "\",\"arguments\":");
    push_str(&mut cmd, args_json);
    push_str(&mut cmd, "}");
    let body = crate::text::bytes_of(cmd.as_str());
    let n = body.len() as u32;
    let mut data: Vec<u8> = Vec::new();
    data.push((n % 256) as u8);
    data.push(((n / 256) % 256) as u8);
    data.push(((n / 65536) % 256) as u8);
    data.push(((n / 16777216) % 256) as u8);
    let ghost head = data@;
    let mut i: usize = 0;
    while i < body.len()
        invariant
            i <= body@.len(),
            data@ == head + body@.take(i as int),
        decreases body.len() - i,
    {
        data.push(body[i]);
        assert(data@ =~= head + body@.take(i + 1));
        i = i + 1;
    }
    assert(body@.take(body@.len() as int) =~= body@);
    assert(data@ =~= tool_frame(name@, args_json@));
    data
}

/// Set stdin as a length-prefixed JSON tool command.
pub fn wt_set_tool_stdin<C>(instances: &mut Instances<C>, handle: i64, tool_name: &str, args_json: &str) -> (r: i64)
    ensures
        set_outcome(old(instances)@, final(instances)@, handle, r, Setting::Stdin),
        named(old(instances)@, handle) is Some ==> named(final(instances)@, handle)->Some_0.stdin_data@ == tool_frame(
            tool_name@,
            args_json@,
        ),
{
    let data = tool_command(tool_name, args_json);
    wt_set_stdin_bytes(instances, handle, data)
}

/// Set WASI command-line arguments from a JSON array of strings: -1 where
/// the text is not one or the handle names no instance.
pub fn wt_set_args<C>(instances: &mut Instances<C>, handle: i64, args_json: &str) -> (r: i64)
    ensures
        string_list(args_json@) is None ==> r == -1 && final(instances)@ == old(instances)@,
        string_list(args_json@) is Some ==> set_outcome(old(instances)@, final(instances)@, handle, r, Setting::Args),
        string_list(args_json@) is Some && named(old(instances)@, handle) is Some ==> texts(
            named(final(instances)@, handle)->Some_0.wasi_args@,
        ) == string_list(args_json@)->Some_0,
{
    let args = match parse_string_list(args_json) {
        Err(_) => return -1,
        Ok(a) => a,
    };
    match instances.take(handle) {
        None => -1,
        Some((index, mut inst)) => {
            inst.wasi_args = args;
            instances.put(index, inst);
            0
        },
    }
}

/// Add an environment variable for the run.
pub fn wt_set_env<C>(instances: &mut Instances<C>, handle: i64, key: &str, value: &str) -> (r: i64)
    ensures
        set_outcome(old(instances)@, final(instances)@, handle, r, Setting::Env),
        named(old(instances)@, handle) is Some ==> {
            let before = named(old(instances)@, handle)->Some_0.env_vars@;
            let after = named(final(instances)@, handle)->Some_0.env_vars@;
            after.len() == before.len() + 1 && after.take(before.len() as int) == before && after.last().0@ == key@
                && after.last().1@ == value@
        },
{
    match instances.take(handle) {
        None => -1,
        Some((index, mut inst)) => {
            let ghost before = inst.env_vars@;
            inst.env_vars.push((owned(key), owned(value)));
            assert(inst.env_vars@.take(before.len() as int) =~= before);
            instances.put(index, inst);
            0
        },
    }
}

/// Set the memory ceiling in WASM pages of 64 KiB; 0 (or less) for none.
pub fn wt_set_max_memory<C>(instances: &mut Instances<C>, handle: i64, pages: i64) -> (r: i64)
    requires
        pages > 0 ==> pages * 65536 <= usize::MAX,
    ensures
        set_outcome(old(instances)@, final(instances)@, handle, r, Setting::MaxMemory),
        named(old(instances)@, handle) is Some ==> named(final(instances)@, handle)->Some_0.max_memory_bytes == (if pages
            > 0 {
            pages * 65536
        } else {
            0
        }),
{
    match instances.take(handle) {
        None => -1,
        Some((index, mut inst)) => {
            inst.max_memory_bytes = if pages > 0 { (pages as usize) * 65536 } else { 0 };
            instances.put(index, inst);
            0
        },
    }
}

/// Set the entry point (default `_start`).
pub fn wt_set_entry<C>(instances: &mut Instances<C>, handle: i64, name: &str) -> (r: i64)
    ensures
        set_outcome(old(instances)@, final(instances)@, handle, r, Setting::Entry),
        named(old(instances)@, handle) is Some ==> named(final(instances)@, handle)->Some_0.entry_point@ == name@,
{
    match instances.take(handle) {
        None => -1,
        Some((index, mut inst)) => {
            inst.entry_point = owned(name);
            instances.put(index, inst);
            0
        },
    }
}

/// Add a preopened directory: the host's path and the path the guest sees.
pub fn wt_preopen_dir<C>(instances: &mut Instances<C>, handle: i64, host_path: &str, guest_path: &str) -> (r: i64)
    ensures
        set_outcome(old(instances)@, final(instances)@, handle, r, Setting::Preopens),
        named(old(instances)@, handle) is Some ==> {
            let before = named(old(instances)@, handle)->Some_0.preopen_dirs@;
            let after = named(final(instances)@, handle)->Some_0.preopen_dirs@;
            after.len() == before.len() + 1 && after.take(before.len() as int) == before && after.last().0@ == host_path@
                && after.last().1@ == guest_path@
        },
{
    match instances.take(handle) {
        None => -1,
        Some((index, mut inst)) => {
            let ghost before = inst.preopen_dirs@;
            inst.preopen_dirs.push((owned(host_path), owned(guest_path)));
            assert(inst.preopen_dirs@.take(before.len() as int) =~= before);
            instances.put(index, inst);
            0
        },
    }
}

impl<C> Instances<C> {
    /// The instance a handle names, to read.
    pub fn get(&self, handle: i64) -> (r: Option<&Instance<C>>)
        ensures
            match named(self@, handle) {
                None => r is None,
                Some(i) => r is Some && *r->Some_0 == i,
            },
    {
        let index = handle as usize;
        if index >= self.slots.len() {
            return None;
        }
        match &self.slots[index] {
            Some(inst) => Some(inst),
            None => None,
        }
    }

    /// Records what a run of the instance a handle names produced, when it
    /// names one.
    pub fn record(&mut self, handle: i64, stdout: String, stderr: String, exit_code: i64, fuel_consumed: u64) -> (r: bool)
        ensures
            r == (named(old(self)@, handle) is Some),
            !r ==> final(self)@ == old(self)@,
            r ==> final(self)@.len() == old(self)@.len() && (forall|j: int| 0 <= j < old(self)@.len() && j != slot_index(handle) ==> final(self)@[j]
                == old(self)@[j]) && named(final(self)@, handle) is Some && {
                let a = named(old(self)@, handle)->Some_0;
                let b = named(final(self)@, handle)->Some_0;
                b.code == a.code && b.stdin_data@ == a.stdin_data@ && b.wasi_args@ == a.wasi_args@ && b.env_vars@
                    == a.env_vars@ && b.preopen_dirs@ == a.preopen_dirs@ && b.fuel == a.fuel && b.max_memory_bytes
                    == a.max_memory_bytes && b.entry_point@ == a.entry_point@ && b.stdout_result@ == stdout@
                    && b.stderr_result@ == stderr@ && b.exit_code == exit_code && b.fuel_consumed == fuel_consumed
            },
    {
        match self.take(handle) {
            None => false,
            Some((index, mut inst)) => {
                inst.stdout_result = stdout;
                inst.stderr_result = stderr;
                inst.exit_code = exit_code;
                inst.fuel_consumed = fuel_consumed;
                self.put(index, inst);
                true
            },
        }
    }
}

/// Captured stdout after a run; empty for no such instance.
pub fn wt_get_stdout<C>(instances: &Instances<C>, handle: i64) -> (r: String)
    ensures
        match named(instances@, handle) {
            None => r@.len() == 0,
            Some(i) => r@ == i.stdout_result@,
        },
{
    match instances.get(handle) {
        None => String::new(),
        Some(inst) => owned(inst.stdout_result.as_str()),
    }
}

/// Captured stderr after a run; empty for no such instance.
pub fn wt_get_stderr<C>(instances: &Instances<C>, handle: i64) -> (r: String)
    ensures
        match named(instances@, handle) {
            None => r@.len() == 0,
            Some(i) => r@ == i.stderr_result@,
        },
{
    match instances.get(handle) {
        None => String::new(),
        Some(inst) => owned(inst.stderr_result.as_str()),
    }
}

/// Fuel consumed by the last run (its bits as a signed number); 0 for no
/// such instance.
pub fn wt_get_fuel_consumed<C>(instances: &Instances<C>, handle: i64) -> (r: i64)
    ensures
        match named(instances@, handle) {
            None => r == 0,
            Some(i) => r == i.fuel_consumed as i64,
        },
{
    match instances.get(handle) {
        None => 0,
        Some(inst) => inst.fuel_consumed as i64,
    }
}

/// The exit code of the last run; -1 for no such instance.
pub fn wt_get_exit_code<C>(instances: &Instances<C>, handle: i64) -> (r: i64)
    ensures
        match named(instances@, handle) {
            None => r == -1,
            Some(i) => r == i.exit_code,
        },
{
    match instances.get(handle) {
        None => -1,
        Some(inst) => inst.exit_code,
    }
}

/// Destroy an instance: 0 and its slot emptied where the handle names a
/// slot, -1 where it names none. The instance is handed back to be dropped.
pub fn wt_destroy<C>(instances: &mut Instances<C>, handle: i64) -> (r: (i64, Option<Instance<C>>))
    ensures
        0 <= slot_index(handle) < old(instances)@.len() ==> r.0 == 0 && r.1 == old(instances)@[slot_index(handle)]
            && final(instances)@ == old(instances)@.update(slot_index(handle), None),
        !(0 <= slot_index(handle) < old(instances)@.len()) ==> r.0 == -1 && r.1 is None && final(instances)@ == old(instances)@,
{
    let index = handle as usize;
    if index >= instances.slots.len() {
        return (-1, None);
    }
    let mut slot = None;
    std::mem::swap(&mut slot, &mut instances.slots[index]);
    (0, slot)
}

/// A component is a core module with one more layer: after the magic come a
/// 16-bit version (0x000d for components) and a 16-bit layer (1).
pub open spec fn component_header(bytes: Seq<u8>) -> bool {
    bytes.len() >= 8 && bytes[0] == 0 && bytes[1] == 0x61 && bytes[2] == 0x73 && bytes[3] == 0x6d && bytes[4] == 0x0d
        && bytes[5] == 0 && bytes[6] == 1 && bytes[7] == 0
}

/// Whether a `.wasm` file is a component rather than a core module, by its
/// header, before either parser is asked.
pub fn is_component(bytes: &[u8]) -> (r: bool)
    ensures
        r == component_header(bytes@),
{
    bytes.len() >= 8 && bytes[0] == 0 && bytes[1] == 0x61 && bytes[2] == 0x73 && bytes[3] == 0x6d && bytes[4] == 0x0d
        && bytes[5] == 0 && bytes[6] == 1 && bytes[7] == 0
}

/// The fuel a run consumed: what it was given less what is left, at least
/// 0; none counted without a budget.
pub fn consumed(fuel: u64, left: u64, previous: u64) -> (r: u64)
    ensures
        fuel > 0 ==> r == (if left > fuel { 0 } else { fuel - left }),
        fuel == 0 ==> r == previous,
{
    if fuel > 0 {
        if left > fuel { 0 } else { fuel - left }
    } else {
        previous
    }
}

} // verus!
