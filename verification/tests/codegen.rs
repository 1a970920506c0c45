use rcpp::codegen::{
    extern_check_target, generate_cpp, generate_hpp, generate_module_text, hash_module_path,
    module_names, register_module, resolve_extern_path, resolve_include_hash,
    resolve_namespace_path, translate_attrs, try_register_module, ModuleRegistry, SourceMap,
};
use rcpp::error::RcppError;
use rcpp::parser::{parse_attribute, parse_file, Attribute, ExternMod, Line};
use rcpp::rewrite::{
    apply_rcpp_syntax, finish_rcpp_syntax, map_params, map_type, mask_literals, replace_panic,
    resolve_signature_marks, restore_literals,
};
use rcpp::strmap::StrMap;

fn attr(name: &str, args: &[(&str, &str)]) -> Attribute {
    Attribute {
        name: name.to_string(),
        args: args.iter().map(|(k, v)| (k.to_string(), v.to_string())).collect(),
    }
}

fn cfg(pairs: &[(&str, &str)]) -> StrMap<String> {
    let mut m = StrMap::new();
    for (k, v) in pairs {
        m.insert(k.to_string(), v.to_string());
    }
    m
}

#[test]
fn module_hashes_are_fnv1a_in_hex() {
    assert_eq!(hash_module_path(""), "cbf29ce484222325");
    assert_eq!(hash_module_path("a"), "af63dc4c8601ec8c");
    assert_eq!(hash_module_path("example::person"), "70bd802974e0e374");
    let h = hash_module_path("модуль::ü");
    assert_eq!(h.len(), 16);
    assert!(h.chars().all(|c| c.is_ascii_hexdigit() && !c.is_ascii_uppercase()));
}

#[test]
fn registry_returns_what_was_registered_last() {
    let mut r = ModuleRegistry::new();
    assert!(r.get("person").is_none());
    r.register("person".to_string(), "example::person".to_string(), "h1".to_string());
    r.register("net".to_string(), "example::net".to_string(), "h2".to_string());
    r.register("person".to_string(), "example::person2".to_string(), "h3".to_string());
    assert_eq!(r.get("person").unwrap().hash, "h3");
    assert_eq!(r.get("person").unwrap()._namespace, "example::person2");
    assert_eq!(r.get("net").unwrap().hash, "h2");
    assert_eq!(r.modules.len(), 2);
}

#[test]
fn source_map_as_csv() {
    let mut sm = SourceMap::new();
    sm.add("a.rcx", 3, "h.hpp", 6);
    sm.add("a.rcx", 10, "h.cpp", 7);
    assert_eq!(sm.entries.len(), 2);
    assert_eq!(sm.to_csv(), "src_file,src_line,dst_file,dst_line\na.rcx,3,h.hpp,6\na.rcx,10,h.cpp,7\n");
    assert_eq!(SourceMap::new().to_csv(), "src_file,src_line,dst_file,dst_line\n");
}

#[test]
fn documented_attribute_lines_translate() {
    let attrs = [
        parse_attribute(&rcpp::text::chars_of("#[no_mangle]")),
        parse_attribute(&rcpp::text::chars_of("#[export_name = \"kernel_entry\"]")),
    ];
    assert_eq!(
        translate_attrs(&attrs, &StrMap::new()),
        ("extern \"C\" [[gnu::alias(\"kernel_entry\")]] ".to_string(), true)
    );
}

#[test]
fn attributes_translate_to_cpp() {
    let c = cfg(&[("arch", "x86_64")]);
    assert_eq!(translate_attrs(&[attr("no_mangle", &[])], &c), ("extern \"C\" ".to_string(), true));
    assert_eq!(
        translate_attrs(&[attr("inline", &[]), attr("section", &[("name", "text")])], &c),
        ("inline [[gnu::section(\"text\")]] ".to_string(), true)
    );
    assert_eq!(
        translate_attrs(&[attr("export_name", &[("name", "kernel_entry")])], &c),
        ("[[gnu::alias(\"kernel_entry\")]] ".to_string(), true)
    );
    assert_eq!(translate_attrs(&[attr("export_name", &[])], &c), (String::new(), true));
    assert_eq!(translate_attrs(&[attr("doc", &[])], &c), (String::new(), true));
    assert_eq!(translate_attrs(&[], &c), (String::new(), true));
}

#[test]
fn cfg_attributes_select_items() {
    let c = cfg(&[("arch", "x86_64")]);
    assert_eq!(
        translate_attrs(&[attr("cfg", &[("arch", "x86_64")]), attr("inline", &[])], &c),
        ("inline ".to_string(), true)
    );
    assert_eq!(
        translate_attrs(&[attr("inline", &[]), attr("cfg", &[("arch", "arm")])], &c),
        (String::new(), false)
    );
    assert_eq!(translate_attrs(&[attr("cfg", &[("os", "none")])], &c), (String::new(), false));
}

#[test]
fn namespaces_resolve_against_the_root() {
    assert_eq!(resolve_namespace_path("person", Some("example")), "example::person");
    assert_eq!(resolve_namespace_path("::std", Some("example")), "::std");
    assert_eq!(resolve_namespace_path("example::x", Some("example")), "example::x");
    assert_eq!(resolve_namespace_path("example", Some("example")), "example");
    assert_eq!(resolve_namespace_path("person", None), "person");
    let once = resolve_namespace_path("a::b", Some("r"));
    assert_eq!(resolve_namespace_path(&once, Some("r")), once);
}

#[test]
fn include_paths_use_registered_hashes() {
    let mut r = ModuleRegistry::new();
    r.register("person".to_string(), "example::person".to_string(), "abc".to_string());
    assert_eq!(resolve_include_hash("person", Some("example"), &r, "/out"), "/out/abc.hpp");
    assert_eq!(resolve_include_hash("x::y::person", None, &r, "/out/"), "/out/abc.hpp");
    assert_eq!(
        resolve_include_hash("other", Some("example"), &r, "out"),
        format!("out/{}.hpp", hash_module_path("example::other"))
    );
    assert_eq!(resolve_include_hash("other", None, &r, ""), format!("{}.hpp", hash_module_path("other")));
}

#[test]
fn module_names_from_paths() {
    let n = module_names("proj/src/person.rcx", Some("example")).unwrap();
    assert_eq!(n.relative_path, "person");
    assert_eq!(n.namespace_path, "example::person");
    assert_eq!(n.hashed_name, "70bd802974e0e374");
    assert_eq!(n.registry_name, "person");
    let n = module_names("proj\\src\\_.rcx", Some("example")).unwrap();
    assert_eq!(n.namespace_path, "example");
    assert_eq!(n.registry_name, "example");
    let n = module_names("proj/src/net/tcp.rcx", None).unwrap();
    assert_eq!(n.relative_path, "net/tcp");
    assert_eq!(n.namespace_path, "net::tcp");
    assert_eq!(n.registry_name, "tcp");
    let n = module_names("lib.rcx", Some("example")).unwrap();
    assert_eq!(n.namespace_path, "example::lib");
    assert!(module_names("", None).is_none());
    assert!(module_names("..", None).is_none());
}

#[test]
fn registering_modules() {
    let mut r = ModuleRegistry::new();
    assert!(register_module("p/src/person.rcx", Some("example"), &mut r).is_ok());
    assert_eq!(r.get("person").unwrap()._namespace, "example::person");
    assert!(try_register_module("p/src/_.rcx", Some("example"), &mut r));
    assert_eq!(r.get("example").unwrap().hash, "430b1483c8d66041");
    assert!(!try_register_module("/", None, &mut r));
    assert_eq!(r.modules.len(), 2);
}

#[test]
fn literals_are_masked_and_restored() {
    let (m, lits) = mask_literals("let s = \"hi\"; char c = 'a'; R\"(raw)\" + \"b\\\"c\"");
    assert_eq!(m, "let s = \0LIT_0\0; char c = \0LIT_1\0; \0LIT_2\0 + \0LIT_3\0");
    assert_eq!(lits, vec!["\"hi\"", "'a'", "R\"(raw)\"", "\"b\\\"c\""]);
    assert_eq!(restore_literals(&m, &lits), "let s = \"hi\"; char c = 'a'; R\"(raw)\" + \"b\\\"c\"");
    let (m, lits) = mask_literals("\"open");
    assert_eq!(m, "\0LIT_0\0");
    assert_eq!(lits, vec!["\"open"]);
    let (m, lits) = mask_literals("R\"\"x\"");
    assert_eq!(m, "\0LIT_0\0");
    assert_eq!(lits, vec!["R\"\"x\""]);
    let (m, lits) = mask_literals("plain text");
    assert_eq!(m, "plain text");
    assert!(lits.is_empty());
}

#[test]
fn panic_calls_are_rewritten() {
    assert_eq!(replace_panic("panic!(\"x\");", "m"), "__panic_here(__FILE__, __LINE__, \"m\", \"x\");");
    assert_eq!(replace_panic("panic! (a(b)c);", "m"), "__panic_here(__FILE__, __LINE__, \"m\", a(b)c);");
    assert_eq!(replace_panic("xpanic!(a)", "m"), "xpanic!(a)");
    assert_eq!(replace_panic("panic!x", "m"), "px");
    assert_eq!(replace_panic("panic! ;", "m"), "p;");
    assert_eq!(replace_panic("é panic!(1)", "m"), "é __panic_here(__FILE__, __LINE__, \"m\", 1)");
    assert_eq!(replace_panic("a panic!(1)", "m"), "a __panic_here(__FILE__, __LINE__, \"m\", 1)");
    assert_eq!(
        replace_panic("panic!(a); panic!(b);", "m"),
        "__panic_here(__FILE__, __LINE__, \"m\", a); __panic_here(__FILE__, __LINE__, \"m\", b);"
    );
    assert_eq!(replace_panic("no calls here", "m"), "no calls here");
}

#[test]
fn declaration_forms_translate() {
    assert_eq!(apply_rcpp_syntax("let x = 42;", "example").unwrap(), "const auto x = 42;");
    assert_eq!(apply_rcpp_syntax("mut counter = 0;", "example").unwrap(), "auto counter = 0;");
    assert_eq!(
        apply_rcpp_syntax("fn add(a: i32, b: i32) -> i32 {", "example").unwrap(),
        "int32_t add(int32_t a, int32_t b) {"
    );
    assert_eq!(
        apply_rcpp_syntax("fn add(a: i32, b: i32) -> i32 { return a + b; }", "m").unwrap(),
        "int32_t add(int32_t a, int32_t b) { return a + b; }"
    );
    assert_eq!(
        apply_rcpp_syntax("fn divide(a: i32, b: i32) -> i32 {", "m").unwrap(),
        "int32_t divide(int32_t a, int32_t b) {"
    );
    assert_eq!(apply_rcpp_syntax("fn put(c: u8, p: Port) {", "m").unwrap(), "auto put(u8 c, Port p) {");
    assert_eq!(apply_rcpp_syntax("fn f(int a,int b) {", "m").unwrap(), "auto f(int a,int b) {");
    assert_eq!(apply_rcpp_syntax("fn get(self) -> Widget;", "m").unwrap(), "Widget get(self);");
    assert_eq!(apply_rcpp_syntax("fn age() -> u8;", "example").unwrap(), "u8 age();");
    assert_eq!(
        apply_rcpp_syntax("fn age() -> u8;\nfn _start() { }", "m").unwrap(),
        "u8 age();\nauto _start() { }"
    );
    assert_eq!(apply_rcpp_syntax("fn main() {", "example").unwrap(), "auto main() {");
    assert_eq!(apply_rcpp_syntax("fn Person::age() -> u8 {", "example").unwrap(), "u8 Person::age() {");
    assert_eq!(
        apply_rcpp_syntax("    panic!(\"Division by zero\");", "example").unwrap(),
        "    __panic_here(__FILE__, __LINE__, \"example\", \"Division by zero\");"
    );
}

#[test]
fn literals_are_not_rewritten() {
    assert_eq!(apply_rcpp_syntax("let s = \"let y\";", "m").unwrap(), "const auto s = \"let y\";");
    assert_eq!(apply_rcpp_syntax("mutable x", "m").unwrap(), "mutable x");
    assert_eq!(finish_rcpp_syntax("f(\0LIT_0\0)", &vec!["\"s\"".to_string()], "m"), "f(\"s\")");
}

const FILE: &str = "use person::*;
interface {
    fn age() -> u8;
}
fn main() {
    return 0;
}";

#[test]
fn header_and_source_of_a_module() {
    let mut reg = ModuleRegistry::new();
    reg.register("person".to_string(), "example::person".to_string(), "5bd49c0b7a0b61e0".to_string());
    let c = cfg(&[]);
    let (uses, _externs, iface, rest) = parse_file(FILE, "test.rcx").unwrap();
    let iface = iface.unwrap();
    let mut sm = SourceMap::new();
    let hpp = generate_hpp("example::main", "h", &iface, &uses, Some("example"), &reg, "/out", &mut sm, &c)
        .unwrap();
    assert_eq!(
        hpp,
        "// Generated from test.rcx\n#pragma once\n\n#include \"/out/5bd49c0b7a0b61e0.hpp\"\n\nnamespace example::main {\n\n#line 3 \"test.rcx\"\n    u8 age();\n\n} // namespace example::main"
    );
    let cpp = generate_cpp("example::main", "h", &rest, &uses, Some("example"), &reg, "/out", &mut sm, &c)
        .unwrap();
    assert_eq!(
        cpp,
        "// Generated from example::main.rcx\n#include \"/out/h.hpp\"\n\n#include \"/out/5bd49c0b7a0b61e0.hpp\"\nusing namespace example::person;\n\nnamespace example::main {\n\n#line 5 \"test.rcx\"\nauto main() {\n    return 0;\n}\n\n} // namespace example::main"
    );
    assert_eq!(
        sm.to_csv(),
        "src_file,src_line,dst_file,dst_line\ntest.rcx,3,h.hpp,6\ntest.rcx,5,h.cpp,7\n"
    );
}

#[test]
fn cfg_can_leave_out_the_interface_and_lines() {
    let code = "#[cfg(arch = \"arm\")]\ninterface {\n  fn a();\n}\n#[cfg(arch = \"arm\")]\nint x;\n\n#[no_mangle]\nfn start() {";
    let (uses, _e, iface, rest) = parse_file(code, "k.rcx").unwrap();
    let c = cfg(&[("arch", "x86_64")]);
    let reg = ModuleRegistry::new();
    let mut sm = SourceMap::new();
    let hpp = generate_hpp("k", "h", &iface.unwrap(), &uses, None, &reg, "o", &mut sm, &c).unwrap();
    assert_eq!(hpp, "// Generated from k.rcx\n#pragma once\n\n");
    let cpp = generate_cpp("k", "h", &rest, &uses, None, &reg, "o", &mut sm, &c).unwrap();
    assert_eq!(
        cpp,
        "// Generated from k.rcx\n#include \"o/h.hpp\"\n\n\nnamespace k {\n\n\n#line 9 \"k.rcx\"\nextern \"C\" auto start() {\n\n} // namespace k"
    );
    assert_eq!(sm.entries.len(), 1);
}

#[test]
fn whole_module_text() {
    let mut reg = ModuleRegistry::new();
    reg.register("person".to_string(), "example::person".to_string(), "5bd49c0b7a0b61e0".to_string());
    reg.register("my_lib".to_string(), "my_lib".to_string(), "0000000000000001".to_string());
    let code = format!("extern mod my_lib;\nextern mod other \"x\";\n{}", FILE);
    let (uses, externs, iface, rest) = parse_file(&code, "test.rcx").unwrap();
    let names = module_names("p/src/main.rcx", Some("example")).unwrap();
    let files = generate_module_text(&names, &uses, &externs, &iface, &rest, "/out", Some("example"), &cfg(&[]), &reg)
        .unwrap();
    assert!(files.hpp.starts_with("// Generated from test.rcx\n"));
    assert!(files.cpp.contains("auto main() {"));
    assert_eq!(files.lst, "0000000000000001\n5bd49c0b7a0b61e0\n");
    assert_eq!(
        files.csv,
        "src_file,src_line,dst_file,dst_line\ntest.rcx,5,".to_string() + &names.hashed_name
            + ".hpp,6\ntest.rcx,7," + &names.hashed_name + ".cpp,7\n"
    );
    let bare = generate_module_text(&names, &uses, &externs, &None, &rest, "/out", Some("example"), &cfg(&[]), &reg)
        .unwrap();
    assert_eq!(
        bare.hpp,
        "// Generated from example::main.rcx\n#pragma once\n\n#include \"/out/5bd49c0b7a0b61e0.hpp\"\n\nnamespace example::main {\n} // namespace example::main"
    );
}

#[test]
fn extern_paths() {
    let line = Line { content: String::new(), line_num: 1, file: "f".to_string(), attrs: vec![] };
    let e = ExternMod { name: "lib".to_string(), inline_path: Some("/in".to_string()), _line: line };
    assert_eq!(resolve_extern_path(&e, &cfg(&[])).unwrap(), "/in");
    assert_eq!(resolve_extern_path(&e, &cfg(&[("lib", "/cli")])).unwrap(), "/cli");
    let line = Line { content: String::new(), line_num: 1, file: "f".to_string(), attrs: vec![] };
    let none = ExternMod { name: "lib2".to_string(), inline_path: None, _line: line };
    match resolve_extern_path(&none, &cfg(&[])) {
        Err(RcppError::ExternWithoutPath { name }) => assert_eq!(name, "lib2"),
        other => panic!("unexpected {:?}", other),
    }
    assert_eq!(extern_check_target("/lib", true), "/lib/src");
    assert_eq!(extern_check_target("/lib.rcx", false), "/lib.rcx");
}

#[test]
fn literal_marker_text_breaks_restoration() {
    let text = "\"a\" \"b\"LIT_0\"c\"";
    let (m, lits) = mask_literals(text);
    assert_eq!(m, "\0LIT_0\0 \0LIT_1\0LIT_0\0LIT_2\0");
    assert_eq!(restore_literals(&m, &lits), "\"a\" \0LIT_1\"a\"LIT_2\0");
    let text = "'a''b'LIT_0'c'";
    let (m, lits) = mask_literals(text);
    assert_ne!(restore_literals(&m, &lits), text);
}

#[test]
fn literal_marker_text_elsewhere_restores() {
    for text in ["\"a\"LIT_0\"b\"", "'a'LIT_5 x", "LIT_0 \"a\" \"b\"", "\"a\" x LIT_0 \"b\"", "'a' 'b'LIT_1'c'"] {
        let (m, lits) = mask_literals(text);
        assert!(!m.contains('"') && !m.contains('\''));
        assert_eq!(restore_literals(&m, &lits), text);
    }
}

#[test]
fn rewriting_keeps_every_literal() {
    let line = "let msg = 'x'; fn f(a: u8) -> u8 { return \"fn g() {\"; }";
    let (m, lits) = mask_literals(line);
    assert_eq!(restore_literals(&m, &lits), line);
    assert_eq!(
        apply_rcpp_syntax(line, "m").unwrap(),
        "const auto msg = 'x'; u8 f(u8 a) { return \"fn g() {\"; }"
    );
}

#[test]
fn signature_types_map_only_i32() {
    let cases = [
        ("i32", "int32_t"), ("i8", "i8"), ("i64", "i64"), ("u8", "u8"), ("u64", "u64"),
        ("bool", "bool"), ("Person", "Person"), ("", ""),
    ];
    for (t, c) in cases {
        let r: String = map_type(&t.chars().collect()).iter().collect();
        assert_eq!(r, c);
    }
    let p: String = map_params(&"a: i32, b : u64 ,self".chars().collect()).iter().collect();
    assert_eq!(p, "int32_t a, u64 b,self");
    let q: String = map_params(&"int a,int b".chars().collect()).iter().collect();
    assert_eq!(q, "int a,int b");
    let e: String = map_params(&Vec::new()).iter().collect();
    assert_eq!(e, "");
    assert_eq!(resolve_signature_marks("\u{1}i32\u{2} f(\u{3}x: u8\u{4});"), "int32_t f(u8 x);");
    assert_eq!(resolve_signature_marks("\u{3}x: i32"), "int32_t x");
}

#[test]
fn header_keeps_non_i32_types() {
    let mut reg = ModuleRegistry::new();
    reg.register("person".to_string(), "k::person".to_string(), "ph".to_string());
    let (uses, _e, _i, _r) = parse_file("use person::*;", "k.rcx").unwrap();
    let iface = rcpp::parser::InterfaceBlock {
        lines: vec![Line { content: "fn age() -> u8;".to_string(), line_num: 2, file: "k.rcx".to_string(), attrs: vec![] }],
        _start_line: 1,
        file: "k.rcx".to_string(),
        attrs: vec![],
    };
    let mut sm = SourceMap::new();
    let hpp = generate_hpp("k", "h", &iface, &uses, Some("k"), &reg, "/o", &mut sm, &cfg(&[])).unwrap();
    assert_eq!(
        hpp,
        "// Generated from k.rcx\n#pragma once\n\n#include \"/o/ph.hpp\"\n\nnamespace k {\n\n#line 2 \"k.rcx\"\nu8 age();\n\n} // namespace k"
    );
    assert_eq!(sm.entries.len(), 1);
    assert_eq!((sm.entries[0].0.as_str(), sm.entries[0].1, sm.entries[0].2.as_str()), ("k.rcx", 2, "h.hpp"));
}
