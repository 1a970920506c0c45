use rcpp::cli::{collect_pairs, parse_cfg_items, parse_extern_arg, progress_percent};

#[test]
fn extern_arg_with_comma() {
    assert_eq!(
        parse_extern_arg("my_lib,/path/to/lib"),
        Ok(("my_lib".to_string(), "/path/to/lib".to_string()))
    );
}

#[test]
fn extern_arg_prefers_equals_sign() {
    assert_eq!(parse_extern_arg(" a = b,c "), Ok(("a".to_string(), "b,c".to_string())));
}

#[test]
fn extern_arg_without_separator_is_an_error() {
    assert_eq!(
        parse_extern_arg("lonely"),
        Err("Extern format must be 'name,path' or 'name=path'".to_string())
    );
}

#[test]
fn cfg_items_set_values_and_flags() {
    let m = parse_cfg_items(&vec![
        "arch=\"x86_64\"".to_string(),
        "debug".to_string(),
        "arch=arm".to_string(),
    ]);
    assert_eq!(m.get("arch").map(|s| s.as_str()), Some("arm"));
    assert_eq!(m.get("debug").map(|s| s.as_str()), Some("true"));
    assert_eq!(m.get("other"), None);
    assert_eq!(m.len(), 2);
}

#[test]
fn pairs_later_wins() {
    let m = collect_pairs(&vec![
        ("a".to_string(), "1".to_string()),
        ("b".to_string(), "2".to_string()),
        ("a".to_string(), "3".to_string()),
    ]);
    assert_eq!(m.get("a").map(|s| s.as_str()), Some("3"));
    assert_eq!(m.get("b").map(|s| s.as_str()), Some("2"));
}

#[test]
fn progress_is_linear_in_the_step() {
    assert_eq!(progress_percent(5, 20, 3, 4), 20);
    assert_eq!(progress_percent(25, 25, 0, 7), 25);
    assert_eq!(progress_percent(60, 35, 2, 3), 83);
}
