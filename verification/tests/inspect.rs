use porta::inspect::{component_report, extern_kind, item_kind, module_report, wt_inspect, ExternKind, Inspected, ItemKind};
use porta::json_text::{escape_json_text, push_json_array, push_json_quoted};

#[test]
fn kinds_are_written_as_words() {
    assert_eq!(extern_kind(ExternKind::Func), "func");
    assert_eq!(extern_kind(ExternKind::Other), "unknown");
    assert_eq!(item_kind(ItemKind::CoreFunc), "core func");
    assert_eq!(item_kind(ItemKind::ComponentInstance), "instance");
}

#[test]
fn a_module_report_lists_imports_exports_and_memories() {
    let imports = vec![("env".to_string(), "log".to_string(), ExternKind::Func)];
    let exports = vec![("memory".to_string(), ExternKind::Memory), ("_start".to_string(), ExternKind::Func)];
    assert_eq!(
        module_report(&imports, &exports, &vec![17]),
        r#"{"component":false,"imports":[{"module":"env","name":"log","kind":"func"}],"exports":[{"name":"memory","kind":"memory"},{"name":"_start","kind":"func"}],"memories":[{"min":17}]}"#
    );
    assert_eq!(
        module_report(&vec![], &vec![], &vec![]),
        r#"{"component":false,"imports":[],"exports":[],"memories":[]}"#
    );
}

#[test]
fn a_component_report_names_its_wasi_version() {
    let old = vec![("wasi:cli/run@0.2.0".to_string(), ItemKind::ComponentInstance)];
    let exports = vec![("run".to_string(), ItemKind::ComponentFunc)];
    assert_eq!(
        component_report(&old, &exports),
        r#"{"component":true,"wasi":"0.2","imports":[{"module":"wasi:cli/run@0.2.0","name":"","kind":"instance"}],"exports":[{"name":"run","kind":"func"}],"memories":[]}"#
    );
    let new = vec![("other@0.3".to_string(), ItemKind::Type), ("wasi:io/x@0.3.0".to_string(), ItemKind::Type)];
    assert!(component_report(&new, &vec![]).starts_with(r#"{"component":true,"wasi":"0.3","#));
    let not_wasi = vec![("other@0.3".to_string(), ItemKind::Type)];
    assert!(component_report(&not_wasi, &vec![]).starts_with(r#"{"component":true,"wasi":"0.2","#));
}

#[test]
fn an_unreadable_file_is_an_error() {
    assert_eq!(wt_inspect(&Inspected::Failed("bad magic".into())), r#"{"error":"bad magic"}"#);
    assert_eq!(
        wt_inspect(&Inspected::Module(vec![], vec![], vec![1])),
        r#"{"component":false,"imports":[],"exports":[],"memories":[{"min":1}]}"#
    );
}

#[test]
fn json_text_escapes_controls() {
    assert_eq!(escape_json_text("a\"b\\c\n\r\t\u{1}é"), "a\\\"b\\\\c\\n\\r\\t\\u0001é");
    let mut out = String::from("x=");
    push_json_quoted(&mut out, "q\"");
    assert_eq!(out, "x=\"q\\\"\"");
    let mut list = String::new();
    push_json_array(&mut list, &["a".to_string(), "b\n".to_string()]);
    assert_eq!(list, "[\"a\",\"b\\n\"]");
    let mut empty = String::new();
    push_json_array(&mut empty, &[]);
    assert_eq!(empty, "[]");
}

#[test]
fn a_failed_inspection_escapes_its_reason_and_names() {
    assert_eq!(wt_inspect(&Inspected::Failed("bad \"magic\"".to_string())), r#"{"error":"bad \"magic\""}"#);
    let imports = vec![("e\"nv".to_string(), "f".to_string(), ExternKind::Func)];
    let report = module_report(&imports, &Vec::new(), &Vec::new());
    assert_eq!(report, r#"{"component":false,"imports":[{"module":"e\"nv","name":"f","kind":"func"}],"exports":[],"memories":[]}"#);
}

#[test]
fn an_escaped_text_holds_no_control_character() {
    let escaped = escape_json_text("a\u{1}\u{1f}\"\\\n");
    assert_eq!(escaped, "a\\u0001\\u001f\\\"\\\\\\n");
    assert!(escaped.chars().all(|c| c >= ' '));
}

#[test]
fn an_escaped_text_parses_back_as_itself() {
    for text in ["", "plain", "q\"b\\s/\n\r\t\u{1}\u{1f}\u{7f}é☃😀"] {
        let quoted = format!("\"{}\"", escape_json_text(text));
        let parsed: String = serde_json::from_str(&quoted).unwrap();
        assert_eq!(parsed, text);
    }
}
