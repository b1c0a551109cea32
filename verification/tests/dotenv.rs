use fragr::dotenv::{dotenv_value, resolve_key, trimmed_value};

#[test]
fn dotenv_reads_first_matching_name() {
    let text = "# comment\nelevenlabs=nope\nexport TYPESAFE_API_KEY = \"sk_one\"\ntypesafe=sk_two\n";
    let names = ["TYPESAFE_API_KEY", "TYPESAFE"];
    assert_eq!(dotenv_value(text, &names).as_deref(), Some("sk_one"));
    assert_eq!(dotenv_value(text, &["typesafe"]).as_deref(), Some("sk_two"));
    assert_eq!(dotenv_value(text, &["OPENROUTER"]), None);
    let empty = "TYPESAFE=\nTYPESAFE=''\nno equals here\n";
    assert_eq!(dotenv_value(empty, &names), None);
    assert_eq!(dotenv_value("", &names), None);
}

#[test]
fn resolve_key_orders_sources() {
    let names = ["TYPESAFE_API_KEY", "TYPESAFE"];
    let dotenv = "TYPESAFE=from_file\n";
    let key_file = "  from_keyfile \n";
    let blank_key_file = "  \n";
    let env_hit = vec![None, Some(" from_env ".to_string())];
    let env_miss = vec![None, None];
    assert_eq!(
        resolve_key(&names, &env_hit, Some(dotenv), Some(key_file)).as_deref(),
        Some("from_keyfile")
    );
    assert_eq!(
        resolve_key(&names, &env_hit, Some(dotenv), None).as_deref(),
        Some("from_env")
    );
    assert_eq!(
        resolve_key(&names, &env_miss, Some(dotenv), None).as_deref(),
        Some("from_file")
    );
    assert_eq!(resolve_key(&names, &env_miss, None, None), None);
    assert_eq!(resolve_key(&names, &env_miss, None, Some(blank_key_file)), None);
    let env_blank_then_hit = vec![Some("   ".to_string()), Some("second".to_string())];
    assert_eq!(
        resolve_key(&names, &env_blank_then_hit, None, None).as_deref(),
        Some("second")
    );
}

#[test]
fn dotenv_lines_strip_quotes_and_prefixes() {
    assert_eq!(
        dotenv_value("  export KEY='  spaced  '  \n", &["key"]).as_deref(),
        Some("spaced")
    );
    assert_eq!(dotenv_value("#KEY=x\nKEY = y", &["KEY"]).as_deref(), Some("y"));
    assert_eq!(dotenv_value("KEY=a=b\n", &["KEY"]).as_deref(), Some("a=b"));
    assert_eq!(trimmed_value("  k \n").as_deref(), Some("k"));
    assert_eq!(trimmed_value(" \t\n"), None);
}
