//! What `porta inspect` and the capability check read of a module without
//! running it: its imports and exports, and for a component the WASI version
//! it speaks, as one JSON report. Parsing the module is the host's.

use vstd::prelude::*;
use crate::json_text::{json_escaped, push_json_escaped};
use crate::text::{contains_text, decimal, owned, push_decimal, push_str, starts};
use crate::words::{join, join_texts, texts};

verus! {

/// The kind of a core module's import or export.
#[derive(Clone, Copy, PartialEq, Eq, Debug, Structural)]
pub enum ExternKind {
    Func,
    Table,
    Memory,
    Global,
    Other,
}

/// How a core item's kind is written.
pub open spec fn extern_word(k: ExternKind) -> Seq<char> {
    match k {
        ExternKind::Func => "func"@,
        ExternKind::Table => "table"@,
        ExternKind::Memory => "memory"@,
        ExternKind::Global => "global"@,
        ExternKind::Other => "unknown"@,
    }
}

/// How a core item's kind is written.
pub fn extern_kind(k: ExternKind) -> (r: &'static str)
    ensures
        r@ == extern_word(k),
{
    match k {
        ExternKind::Func => "func",
        ExternKind::Table => "table",
        ExternKind::Memory => "memory",
        ExternKind::Global => "global",
        ExternKind::Other => "unknown",
    }
}

/// The kind of a component's import or export.
#[derive(Clone, Copy, PartialEq, Eq, Debug, Structural)]
pub enum ItemKind {
    ComponentFunc,
    CoreFunc,
    Module,
    Component,
    ComponentInstance,
    Type,
    Resource,
}

/// How a component item's kind is written.
pub open spec fn item_word(k: ItemKind) -> Seq<char> {
    match k {
        ItemKind::ComponentFunc => "func"@,
        ItemKind::CoreFunc => "core func"@,
        ItemKind::Module => "module"@,
        ItemKind::Component => "component"@,
        ItemKind::ComponentInstance => "instance"@,
        ItemKind::Type => "type"@,
        ItemKind::Resource => "resource"@,
    }
}

/// How a component item's kind is written.
pub fn item_kind(k: ItemKind) -> (r: &'static str)
    ensures
        r@ == item_word(k),
{
    match k {
        ItemKind::ComponentFunc => "func",
        ItemKind::CoreFunc => "core func",
        ItemKind::Module => "module",
        ItemKind::Component => "component",
        ItemKind::ComponentInstance => "instance",
        ItemKind::Type => "type",
        ItemKind::Resource => "resource",
    }
}

/// One import of a core module, its names escaped.
pub open spec fn module_import(i: (String, String, ExternKind)) -> Seq<char> {
    "{\"module\":\""@ + json_escaped(i.0@) + "\",\"name\":\""@ + json_escaped(i.1@) + "\",\"kind\":\""@ + extern_word(i.2) + "\"}"@
}

/// One export of a core module, its name escaped.
pub open spec fn module_export(e: (String, ExternKind)) -> Seq<char> {
    "{\"name\":\""@ + json_escaped(e.0@) + "\",\"kind\":\""@ + extern_word(e.1) + "\"}"@
}

/// One exported memory, by its minimum size.
pub open spec fn memory_entry(min: u64) -> Seq<char> {
    "{\"min\":"@ + decimal(min as nat) + "}"@
}

/// The report of a core module: its imports and exports with their kinds,
/// and the minimum size of each memory it exports.
pub open spec fn module_report_text(imports: Seq<(String, String, ExternKind)>, exports: Seq<(String, ExternKind)>, memories: Seq<u64>) -> Seq<char> {
    "{\"component\":false,\"imports\":["@ + join(imports.map_values(|i: (String, String, ExternKind)| module_import(i)), ","@)
        + "],\"exports\":["@ + join(exports.map_values(|e: (String, ExternKind)| module_export(e)), ","@)
        + "],\"memories\":["@ + join(memories.map_values(|m: u64| memory_entry(m)), ","@) + "]}"@
}

/// A component speaks WASI 0.3 when any `wasi:` import is at that version.
pub open spec fn speaks_0_3(imports: Seq<(String, ItemKind)>) -> bool {
    exists|k: int|
        0 <= k < imports.len() && starts(#[trigger] imports[k].0@, "wasi:"@) && contains_text(imports[k].0@, "@0.3"@)
}

/// One import of a component: the interface's name, escaped, under `module`.
pub open spec fn component_import(i: (String, ItemKind)) -> Seq<char> {
    "{\"module\":\""@ + json_escaped(i.0@) + "\",\"name\":\"\",\"kind\":\""@ + item_word(i.1) + "\"}"@
}

/// One export of a component.
pub open spec fn component_export(e: (String, ItemKind)) -> Seq<char> {
    "{\"name\":\""@ + json_escaped(e.0@) + "\",\"kind\":\""@ + item_word(e.1) + "\"}"@
}

/// The report of a component: the WASI version its imports name (0.2 when
/// none names 0.3), its imports and exports with their kinds.
pub open spec fn component_report_text(imports: Seq<(String, ItemKind)>, exports: Seq<(String, ItemKind)>) -> Seq<char> {
    "{\"component\":true,\"wasi\":\""@ + (if speaks_0_3(imports) { "0.3"@ } else { "0.2"@ }) + "\",\"imports\":["@ + join(
        imports.map_values(|i: (String, ItemKind)| component_import(i)),
        ","@,
    ) + "],\"exports\":["@ + join(exports.map_values(|e: (String, ItemKind)| component_export(e)), ","@)
        + "],\"memories\":[]}"@
}

fn module_import_text(i: &(String, String, ExternKind)) -> (r: String)
    ensures
        r@ == module_import(*i),
{
    let mut t = owned("{\"module\":\"");
    push_json_escaped(&mut t, i.0.as_str());
    push_str(&mut t, "\",\"name\":\"");
    push_json_escaped(&mut t, i.1.as_str());
    push_str(&mut t, "\",\"kind\":\"");
    push_str(&mut t, extern_kind(i.2));
    push_str(&mut t, "\"}");
    t
}

fn module_export_text(e: &(String, ExternKind)) -> (r: String)
    ensures
        r@ == module_export(*e),
{
    let mut t = owned("{\"name\":\"");
    push_json_escaped(&mut t, e.0.as_str());
    push_str(&mut t, "\",\"kind\":\"");
    push_str(&mut t, extern_kind(e.1));
    push_str(&mut t, "\"}");
    t
}

fn component_import_text(i: &(String, ItemKind)) -> (r: String)
    ensures
        r@ == component_import(*i),
{
    let mut t = owned("{\"module\":\"");
    push_json_escaped(&mut t, i.0.as_str());
    push_str(&mut t, "\",\"name\":\"\",\"kind\":\"");
    push_str(&mut t, item_kind(i.1));
    push_str(&mut t, "\"}");
    t
}

fn component_export_text(e: &(String, ItemKind)) -> (r: String)
    ensures
        r@ == component_export(*e),
{
    let mut t = owned("{\"name\":\"");
    push_json_escaped(&mut t, e.0.as_str());
    push_str(&mut t, "\",\"kind\":\"");
    push_str(&mut t, item_kind(e.1));
    push_str(&mut t, "\"}");
    t
}

/// The report of a core module.
pub fn module_report(imports: &Vec<(String, String, ExternKind)>, exports: &Vec<(String, ExternKind)>, memories: &Vec<u64>) -> (r: String)
    ensures
        r@ == module_report_text(imports@, exports@, memories@),
{
    let mut a: Vec<String> = Vec::new();
    let mut i: usize = 0;
    while i < imports.len()
        invariant
            i <= imports@.len(),
            texts(a@) == imports@.take(i as int).map_values(|x: (String, String, ExternKind)| module_import(x)),
        decreases imports.len() - i,
    {
        let ghost before = texts(a@);
        a.push(module_import_text(&imports[i]));
        assert(texts(a@) =~= before.push(module_import(imports@[i as int])));
        assert(imports@.take(i + 1).map_values(|x: (String, String, ExternKind)| module_import(x)) =~= imports@.take(
            i as int,
        ).map_values(|x: (String, String, ExternKind)| module_import(x)).push(module_import(imports@[i as int])));
        i = i + 1;
    }
    assert(imports@.take(imports@.len() as int) =~= imports@);
    let mut b: Vec<String> = Vec::new();
    let mut j: usize = 0;
    while j < exports.len()
        invariant
            j <= exports@.len(),
            texts(b@) == exports@.take(j as int).map_values(|x: (String, ExternKind)| module_export(x)),
        decreases exports.len() - j,
    {
        let ghost before = texts(b@);
        b.push(module_export_text(&exports[j]));
        assert(texts(b@) =~= before.push(module_export(exports@[j as int])));
        assert(exports@.take(j + 1).map_values(|x: (String, ExternKind)| module_export(x)) =~= exports@.take(
            j as int,
        ).map_values(|x: (String, ExternKind)| module_export(x)).push(module_export(exports@[j as int])));
        j = j + 1;
    }
    assert(exports@.take(exports@.len() as int) =~= exports@);
    let mut c: Vec<String> = Vec::new();
    let mut k: usize = 0;
    while k < memories.len()
        invariant
            k <= memories@.len(),
            texts(c@) == memories@.take(k as int).map_values(|m: u64| memory_entry(m)),
        decreases memories.len() - k,
    {
        let ghost before = texts(c@);
        let mut t = owned("{\"min\":");
        push_decimal(&mut t, memories[k]);
        push_str(&mut t, "}");
        c.push(t);
        assert(texts(c@) =~= before.push(memory_entry(memories@[k as int])));
        assert(memories@.take(k + 1).map_values(|m: u64| memory_entry(m)) =~= memories@.take(k as int).map_values(
            |m: u64| memory_entry(m),
        ).push(memory_entry(memories@[k as int])));
        k = k + 1;
    }
    assert(memories@.take(memories@.len() as int) =~= memories@);
    let mut r = owned("{\"component\":false,\"imports\":[");
    push_str(&mut r, join_texts(a.as_slice(), ",").as_str());
    push_str(&mut r, "],\"exports\":[");
    push_str(&mut r, join_texts(b.as_slice(), ",").as_str());
    push_str(&mut r, "],\"memories\":[");
    push_str(&mut r, join_texts(c.as_slice(), ",").as_str());
    push_str(&mut r, "]}");
    r
}

fn wasi_0_3(imports: &Vec<(String, ItemKind)>) -> (r: bool)
    ensures
        r == speaks_0_3(imports@),
{
    let wasi = crate::text::chars_of("wasi:");
    let at = crate::text::chars_of("@0.3");
    let mut i: usize = 0;
    while i < imports.len()
        invariant
            i <= imports@.len(),
            wasi@ == "wasi:"@,
            at@ == "@0.3"@,
            forall|k: int| 0 <= k < i ==> !(starts(#[trigger] imports@[k].0@, "wasi:"@) && contains_text(imports@[k].0@, "@0.3"@)),
        decreases imports.len() - i,
    {
        let name = crate::text::chars_of(imports[i].0.as_str());
        if crate::text::starts_with(name.as_slice(), wasi.as_slice()) && crate::text::contains(name.as_slice(), at.as_slice()) {
            return true;
        }
        i = i + 1;
    }
    false
}

/// The report of a component.
pub fn component_report(imports: &Vec<(String, ItemKind)>, exports: &Vec<(String, ItemKind)>) -> (r: String)
    ensures
        r@ == component_report_text(imports@, exports@),
{
    let mut a: Vec<String> = Vec::new();
    let mut i: usize = 0;
    while i < imports.len()
        invariant
            i <= imports@.len(),
            texts(a@) == imports@.take(i as int).map_values(|x: (String, ItemKind)| component_import(x)),
        decreases imports.len() - i,
    {
        let ghost before = texts(a@);
        a.push(component_import_text(&imports[i]));
        assert(texts(a@) =~= before.push(component_import(imports@[i as int])));
        assert(imports@.take(i + 1).map_values(|x: (String, ItemKind)| component_import(x)) =~= imports@.take(
            i as int,
        ).map_values(|x: (String, ItemKind)| component_import(x)).push(component_import(imports@[i as int])));
        i = i + 1;
    }
    assert(imports@.take(imports@.len() as int) =~= imports@);
    let mut b: Vec<String> = Vec::new();
    let mut j: usize = 0;
    while j < exports.len()
        invariant
            j <= exports@.len(),
            texts(b@) == exports@.take(j as int).map_values(|x: (String, ItemKind)| component_export(x)),
        decreases exports.len() - j,
    {
        let ghost before = texts(b@);
        b.push(component_export_text(&exports[j]));
        assert(texts(b@) =~= before.push(component_export(exports@[j as int])));
        assert(exports@.take(j + 1).map_values(|x: (String, ItemKind)| component_export(x)) =~= exports@.take(
            j as int,
        ).map_values(|x: (String, ItemKind)| component_export(x)).push(component_export(exports@[j as int])));
        j = j + 1;
    }
    assert(exports@.take(exports@.len() as int) =~= exports@);
    let mut r = owned("{\"component\":true,\"wasi\":\"");
    if wasi_0_3(imports) {
        push_str(&mut r, "0.3");
    } else {
        push_str(&mut r, "0.2");
    }
    push_str(&mut r, "\",\"imports\":[");
    push_str(&mut r, join_texts(a.as_slice(), ",").as_str());
    push_str(&mut r, "],\"exports\":[");
    push_str(&mut r, join_texts(b.as_slice(), ",").as_str());
    push_str(&mut r, "],\"memories\":[]}");
    r
}

/// What reading a `.wasm` file for inspection came to.
pub enum Inspected {
    Module(Vec<(String, String, ExternKind)>, Vec<(String, ExternKind)>, Vec<u64>),
    Component(Vec<(String, ItemKind)>, Vec<(String, ItemKind)>),
    /// The file could not be read or parsed, for this reason.
    Failed(String),
}

/// The answer of `inspect`: the report, or `{"error":"…"}` with the
/// reason escaped.
pub fn wt_inspect(inspected: &Inspected) -> (r: String)
    ensures
        r@ == match inspected {
            Inspected::Module(i, e, m) => module_report_text(i@, e@, m@),
            Inspected::Component(i, e) => component_report_text(i@, e@),
            Inspected::Failed(reason) => "{\"error\":\""@ + json_escaped(reason@) + "\"}"@,
        },
{
    match inspected {
        Inspected::Module(i, e, m) => module_report(i, e, m),
        Inspected::Component(i, e) => component_report(i, e),
        Inspected::Failed(reason) => {
            let mut t = owned("{\"error\":\"");
            push_json_escaped(&mut t, reason.as_str());
            push_str(&mut t, "\"}");
            t
        },
    }
}

} // verus!
