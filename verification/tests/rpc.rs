use rcpp::cli::{event_text, is_rcx_file_name, output_dir, BuildEvent};
use rcpp::error::RcppError;
use rcpp::rpc::{
    action_for_request, build_settings, progress_notification, progress_step, rpc_action,
    rpc_response, BuildParams, JsonRequest, RpcAction,
};
use serde_json::Value;

fn build_id(a: RpcAction) -> Option<String> {
    match a {
        RpcAction::Build { id_json, .. } => Some(id_json),
        _ => None,
    }
}

fn request(method: Option<&str>, id: &str) -> JsonRequest {
    JsonRequest {
        method: method.map(String::from),
        id: id.to_string(),
        project_dir: None,
        root_module: None,
        cc_path: None,
        cc_args: None,
    }
}

#[test]
fn blank_lines_are_skipped() {
    assert!(matches!(rpc_action(""), RpcAction::Skip));
    assert!(matches!(rpc_action("   \t "), RpcAction::Skip));
}

#[test]
fn build_requests_are_recognised() {
    let line = r#"{"jsonrpc": "2.0", "method": "build", "id": 1, "params": {}}"#;
    assert_eq!(build_id(rpc_action(line)), Some("1".to_string()));
    assert_eq!(build_id(rpc_action(r#"{"method":"build","id":"abc"}"#)), Some("\"abc\"".to_string()));
    assert_eq!(build_id(rpc_action(r#"{"method":"build"}"#)), Some("null".to_string()));
}

#[test]
fn other_lines_are_ignored() {
    assert!(matches!(rpc_action("not json"), RpcAction::Ignore));
    assert!(matches!(rpc_action(r#"{"method":"clean","id":2}"#), RpcAction::Ignore));
    assert!(matches!(rpc_action(r#"{"method":7,"id":2}"#), RpcAction::Ignore));
    assert!(matches!(rpc_action(r#"[1, 2]"#), RpcAction::Ignore));
    assert!(matches!(action_for_request(None), RpcAction::Ignore));
    assert!(matches!(action_for_request(Some(request(None, "1"))), RpcAction::Ignore));
    assert_eq!(build_id(action_for_request(Some(request(Some("build"), "5")))), Some("5".to_string()));
}

#[test]
fn progress_is_sent_only_on_change() {
    assert_eq!(progress_step(0, 5), (5, true));
    assert_eq!(progress_step(5, 5), (5, false));
    assert_eq!(progress_step(5, 25), (25, true));
}

#[test]
fn notification_text() {
    assert_eq!(
        progress_notification(25, "All modules registered"),
        r#"{"jsonrpc":"2.0","method":"$/progress","params":{"message":"All modules registered","percent":25}}"#
    );
    assert_eq!(
        progress_notification(5, "say \"hi\"\n"),
        r#"{"jsonrpc":"2.0","method":"$/progress","params":{"message":"say \"hi\"\n","percent":5}}"#
    );
}

#[test]
fn response_texts() {
    assert_eq!(rpc_response("1", None), r#"{"id":1,"jsonrpc":"2.0","result":{"success":true}}"#);
    assert_eq!(
        rpc_response("\"a\"", Some("No .rcx files found")),
        r#"{"error":{"code":-32000,"message":"No .rcx files found"},"id":"a","jsonrpc":"2.0"}"#
    );
}

#[test]
fn texts_agree_with_serde_json_objects() {
    let mut result = serde_json::Map::new();
    result.insert("success".to_string(), Value::Bool(true));
    let mut ok = serde_json::Map::new();
    ok.insert("jsonrpc".to_string(), Value::from("2.0"));
    ok.insert("id".to_string(), Value::from(7));
    ok.insert("result".to_string(), Value::Object(result));
    assert_eq!(rpc_response("7", None), Value::Object(ok).to_string());

    let mut err = serde_json::Map::new();
    err.insert("code".to_string(), Value::from(-32000));
    err.insert("message".to_string(), Value::from("bad \\ path"));
    let mut resp = serde_json::Map::new();
    resp.insert("jsonrpc".to_string(), Value::from("2.0"));
    resp.insert("id".to_string(), Value::Null);
    resp.insert("error".to_string(), Value::Object(err));
    assert_eq!(rpc_response("null", Some("bad \\ path")), Value::Object(resp).to_string());

    let mut params = serde_json::Map::new();
    params.insert("percent".to_string(), Value::from(60usize));
    params.insert("message".to_string(), Value::from("Compiling 3 files to .o"));
    let mut note = serde_json::Map::new();
    note.insert("jsonrpc".to_string(), Value::from("2.0"));
    note.insert("method".to_string(), Value::from("$/progress"));
    note.insert("params".to_string(), Value::Object(params));
    assert_eq!(progress_notification(60, "Compiling 3 files to .o"), Value::Object(note).to_string());
}

#[test]
fn error_messages() {
    assert_eq!(RcppError::RewriteRejected.message(), "a syntax rewrite pattern was rejected");
    assert_eq!(
        RcppError::ExternWithoutPath { name: "lib".to_string() }.message(),
        "Extern module 'lib' has no path. Provide via inline \"path\" or CLI -e lib,<path>"
    );
}

#[test]
fn output_directory_and_source_names() {
    assert_eq!(output_dir("proj", None), "proj/build");
    assert_eq!(output_dir("proj", Some("out")), "out");
    assert!(is_rcx_file_name("person.rcx"));
    assert!(!is_rcx_file_name("person.rcx.bak"));
    assert!(!is_rcx_file_name("rcx"));
}

#[test]
fn build_event_messages() {
    assert_eq!(event_text(&BuildEvent::Found { count: 3 }), "Found 3 RC++ modules");
    assert_eq!(event_text(&BuildEvent::Registering { file: "a.rcx".to_string() }), "Registering a.rcx");
    assert_eq!(event_text(&BuildEvent::Registered), "All modules registered");
    assert_eq!(event_text(&BuildEvent::Generating { file: "a.rcx".to_string() }), "Generating a.rcx");
    assert_eq!(event_text(&BuildEvent::Preprocessed), "Preprocessing complete");
    assert_eq!(event_text(&BuildEvent::Compiling { count: 12 }), "Compiling 12 files to .o");
    assert_eq!(event_text(&BuildEvent::CompilingFile { file: "h.cpp".to_string() }), "Compiling h.cpp");
    assert_eq!(event_text(&BuildEvent::Compiled), "Compilation successful (object files generated)");
    assert_eq!(event_text(&BuildEvent::NoCompiler), "Preprocessing successful (no compiler invoked)");
}

#[test]
fn build_request_params_set_the_build() {
    let line = r#"{"jsonrpc":"2.0","method":"build","id":1,"params":{"project_dir":"example/","root_module":"my_kernel","cc_path":"clang++","cc_args":["-O3","-Wall"]}}"#;
    let (id, params) = match rpc_action(line) {
        RpcAction::Build { id_json, params } => (id_json, params),
        other => panic!("unexpected {:?}", other),
    };
    assert_eq!(id, "1");
    assert_eq!(params.project_dir.as_deref(), Some("example/"));
    assert_eq!(params.root_module.as_deref(), Some("my_kernel"));
    assert_eq!(params.cc_path.as_deref(), Some("clang++"));
    assert_eq!(params.cc_args, Some(vec!["-O3".to_string(), "-Wall".to_string()]));
    let s = build_settings(params, "cli_proj", None, Some("cli_root"), None, &vec!["-g".to_string()]);
    assert_eq!(s.project_dir, "example/");
    assert_eq!(s.output_dir, "example//build");
    assert_eq!(s.root_module.as_deref(), Some("my_kernel"));
    assert_eq!(s.cc_path.as_deref(), Some("clang++"));
    assert_eq!(s.cc_args, vec!["-O3".to_string(), "-Wall".to_string()]);
}

#[test]
fn missing_params_fall_back_to_the_command_line() {
    let params = match rpc_action(r#"{"method":"build","id":2,"params":{"cc_args":["-O2",7,"-c"]}}"#) {
        RpcAction::Build { params, .. } => params,
        other => panic!("unexpected {:?}", other),
    };
    assert_eq!(params.project_dir, None);
    assert_eq!(params.cc_args, Some(vec!["-O2".to_string(), "-c".to_string()]));
    let none = BuildParams { project_dir: None, root_module: None, cc_path: None, cc_args: None };
    let s = build_settings(none, "proj", Some("out"), Some("root"), Some("g++"), &vec!["-g".to_string()]);
    assert_eq!(s.project_dir, "proj");
    assert_eq!(s.output_dir, "out");
    assert_eq!(s.root_module.as_deref(), Some("root"));
    assert_eq!(s.cc_path.as_deref(), Some("g++"));
    assert_eq!(s.cc_args, vec!["-g".to_string()]);
    let s = build_settings(params, "proj", None, None, None, &vec![]);
    assert_eq!(s.output_dir, "proj/build");
    assert_eq!(s.cc_args, vec!["-O2".to_string(), "-c".to_string()]);
}
