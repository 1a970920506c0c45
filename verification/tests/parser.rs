use rcpp::parser::{can_parse_file, match_extern, parse_attribute, parse_file, parse_use_statement};
use rcpp::text::chars_of;

fn s(v: &[char]) -> String {
    v.iter().collect()
}

const EXAMPLE: &str = "use person::*;
extern mod my_lib \"/path/to/lib\";
#[cfg(arch = \"x86_64\")]
interface {
    struct Person {
        u8  _age;
        fn age() -> u8;
    }
}

fn Person::age() -> u8 {
    return _age;
}";

#[test]
fn attribute_with_arguments() {
    let a = parse_attribute(&chars_of("#[cfg(arch = \"x86_64\", debug, mode='fast')]"));
    assert_eq!(a.name, "cfg");
    assert_eq!(
        a.args,
        vec![
            ("arch".to_string(), "x86_64".to_string()),
            ("debug".to_string(), "true".to_string()),
            ("mode".to_string(), "fast".to_string()),
        ]
    );
}

#[test]
fn attribute_without_arguments_keeps_its_text() {
    let a = parse_attribute(&chars_of("#[no_mangle]"));
    assert_eq!(a.name, "no_mangle");
    assert!(a.args.is_empty());
    let c = parse_attribute(&chars_of("#[weird attr]"));
    assert_eq!(c.name, "weird attr");
    assert!(c.args.is_empty());
}

#[test]
fn key_value_attribute_gives_a_name_argument() {
    let b = parse_attribute(&chars_of("#[export_name = \"kernel_entry\"]"));
    assert_eq!(b.name, "export_name");
    assert_eq!(b.args, vec![("name".to_string(), "kernel_entry".to_string())]);
    let s = parse_attribute(&chars_of("#[section='.boot']"));
    assert_eq!(s.name, "section");
    assert_eq!(s.args, vec![("name".to_string(), ".boot".to_string())]);
}

#[test]
fn use_statements() {
    assert_eq!(
        parse_use_statement(&chars_of("use person::*;")),
        Some(("person".to_string(), vec!["*".to_string()]))
    );
    assert_eq!(
        parse_use_statement(&chars_of("use a::b::Person;")),
        Some(("a::b".to_string(), vec!["Person".to_string()]))
    );
    assert_eq!(parse_use_statement(&chars_of("use person;")), Some(("person".to_string(), vec![])));
}

#[test]
fn extern_declarations() {
    let (n, p) = match_extern(&chars_of("extern mod my_lib \"/path/to/lib\";")).unwrap();
    assert_eq!(s(&n), "my_lib");
    assert_eq!(p.map(|p| s(&p)), Some("/path/to/lib".to_string()));
    let (n, p) = match_extern(&chars_of("extern mod foo ;")).unwrap();
    assert_eq!(s(&n), "foo");
    assert!(p.is_none());
    let (n, p) = match_extern(&chars_of("extern mod foo \"x\" y; extern mod bar;")).unwrap();
    assert_eq!(s(&n), "bar");
    assert!(p.is_none());
    assert!(match_extern(&chars_of("extern mod 9lives;")).is_none());
    assert!(match_extern(&chars_of("extern mod foo \"\";")).is_none());
}

#[test]
fn example_file_is_split_into_its_parts() {
    assert!(can_parse_file(EXAMPLE, "person.rcx"));
    let (uses, externs, iface, rest) = parse_file(EXAMPLE, "person.rcx").unwrap();
    assert_eq!(uses.len(), 1);
    assert_eq!(uses[0].path, "person");
    assert_eq!(uses[0].items, vec!["*".to_string()]);
    assert_eq!(uses[0]._line.line_num, 1);
    assert_eq!(externs.len(), 1);
    assert_eq!(externs[0].name, "my_lib");
    assert_eq!(externs[0].inline_path.as_deref(), Some("/path/to/lib"));
    let iface = iface.unwrap();
    assert_eq!(iface._start_line, 4);
    assert_eq!(iface.file, "person.rcx");
    assert_eq!(iface.attrs.len(), 1);
    assert_eq!(iface.attrs[0].name, "cfg");
    let nums: Vec<usize> = iface.lines.iter().map(|l| l.line_num).collect();
    assert_eq!(nums, vec![5, 6, 7, 8]);
    assert_eq!(iface.lines[2].content, "        fn age() -> u8;");
    let nums: Vec<usize> = rest.lines.iter().map(|l| l.line_num).collect();
    assert_eq!(nums, vec![10, 11, 12, 13]);
    assert_eq!(rest.lines[1].content, "fn Person::age() -> u8 {");
}

#[test]
fn one_line_interface_and_attributes_on_code() {
    let code = "interface { fn f() -> u8; }\n#[inline]\n#[section(name = \"boot\")]\nfn f() -> u8 { return 1; } // one\n";
    let (_, _, iface, rest) = parse_file(code, "f.rcx").unwrap();
    let iface = iface.unwrap();
    assert_eq!(iface.lines.len(), 1);
    assert_eq!(iface.lines[0].content, "fn f() -> u8;");
    assert_eq!(rest.lines.len(), 1);
    assert_eq!(rest.lines[0].line_num, 4);
    assert_eq!(rest.lines[0].attrs.len(), 2);
    assert_eq!(rest.lines[0].attrs[1].name, "section");
    assert_eq!(rest.lines[0].attrs[1].args, vec![("name".to_string(), "boot".to_string())]);
}

#[test]
fn closing_line_of_interface_keeps_its_text() {
    let code = "interface {\n  fn a();\n  fn b(); }\nx";
    let (_, _, iface, rest) = parse_file(code, "f.rcx").unwrap();
    let iface = iface.unwrap();
    let contents: Vec<&str> = iface.lines.iter().map(|l| l.content.as_str()).collect();
    assert_eq!(contents, vec!["  fn a();", "fn b();"]);
    assert_eq!(rest.lines.len(), 1);
}

#[test]
fn unreadable_inputs_are_detected() {
    assert!(!can_parse_file("#[cfg(]\n", "f.rcx"));
    assert!(!can_parse_file("#[cfg(x=é]\n", "f.rcx"));
    assert!(!can_parse_file("interface {\n}}\n", "f.rcx"));
    assert!(can_parse_file("#[cfg(a=b)]\n", "f.rcx"));
}

#[test]
fn rest_lines_hold_their_source_text() {
    let code = "#[inline]\nfn a() {\n\n  // note\n}\r\nuse x;\nlast";
    let (uses, _, _, rest) = parse_file(code, "r.rcx").unwrap();
    let src: Vec<&str> = code.lines().collect();
    let mut prev = 0;
    for l in &rest.lines {
        assert_eq!(l.content, src[l.line_num - 1]);
        assert_eq!(l.file, "r.rcx");
        assert!(l.line_num > prev);
        prev = l.line_num;
    }
    assert_eq!(rest.lines.len(), 5);
    assert_eq!(rest.lines[0].attrs.len(), 1);
    assert_eq!(uses.len(), 1);
    assert_eq!(uses[0]._line.line_num, 6);
}

#[test]
fn every_stored_line_is_a_distinct_source_line() {
    let (uses, externs, iface, rest) = parse_file(EXAMPLE, "person.rcx").unwrap();
    let src: Vec<&str> = EXAMPLE.lines().collect();
    let mut nums: Vec<usize> = Vec::new();
    for u in &uses {
        assert_eq!(u._line.content, src[u._line.line_num - 1]);
        assert_eq!(u._line.file, "person.rcx");
        nums.push(u._line.line_num);
    }
    for e in &externs {
        assert_eq!(e._line.content, src[e._line.line_num - 1]);
        assert_eq!(e._line.file, "person.rcx");
        nums.push(e._line.line_num);
    }
    let iface = iface.unwrap();
    assert!(!iface.lines.is_empty());
    for l in &iface.lines {
        assert_eq!(l.file, "person.rcx");
        nums.push(l.line_num);
    }
    for l in &rest.lines {
        assert_eq!(l.content, src[l.line_num - 1]);
        nums.push(l.line_num);
    }
    let count = nums.len();
    nums.sort();
    nums.dedup();
    assert_eq!(nums.len(), count);
}

#[test]
fn use_forms_read_back_as_written() {
    for (p, i) in [("a", "B"), ("a::b::c", "Item_2"), ("x_1::y", "_z")] {
        assert_eq!(
            parse_use_statement(&chars_of(&format!("use {}::{};", p, i))),
            Some((p.to_string(), vec![i.to_string()]))
        );
        assert_eq!(
            parse_use_statement(&chars_of(&format!("use {}::*;", p))),
            Some((p.to_string(), vec!["*".to_string()]))
        );
    }
    assert_eq!(parse_use_statement(&chars_of("use single;")), Some(("single".to_string(), vec![])));
}
