use imag::cli::{
    aliases_from_table, fetch_aliases, forward_commandline_arguments, help_text, resolve_alias,
    AliasError, AliasMap, AliasSpec, HELP_HEAD, HELP_TAIL,
};

fn config(text: &str) -> toml::Value {
    text.parse::<toml::Value>().unwrap()
}

#[test]
fn help_text_lists_each_command_on_a_tabbed_line() {
    let text = help_text(vec!["diary".to_string(), "todo".to_string()]);
    let expected = format!("{}\tdiary\n\ttodo\n{}", HELP_HEAD, HELP_TAIL);
    assert_eq!(text, expected);
    assert!(text.contains("Available commands:"));
}

#[test]
fn help_text_without_commands() {
    assert_eq!(help_text(vec![]), format!("{}{}", HELP_HEAD, HELP_TAIL));
}

#[test]
fn alias_map_later_definition_wins() {
    let mut m = AliasMap::new();
    m.insert("t".to_string(), "todo".to_string());
    m.insert("t".to_string(), "timetrack".to_string());
    assert_eq!(m.get(&"t".to_string()), Some(&"timetrack".to_string()));
    assert_eq!(m.get(&"x".to_string()), None);
}

#[test]
fn aliases_from_strings_and_lists() {
    let entries = vec![
        ("todo".to_string(), AliasSpec::Single("t".to_string())),
        (
            "diary".to_string(),
            AliasSpec::List(vec![Some("d".to_string()), Some("dia".to_string())]),
        ),
    ];
    let m = aliases_from_table(&entries).unwrap();
    assert_eq!(resolve_alias(&m, "t".to_string()), "todo");
    assert_eq!(resolve_alias(&m, "d".to_string()), "diary");
    assert_eq!(resolve_alias(&m, "dia".to_string()), "diary");
    assert_eq!(resolve_alias(&m, "notes".to_string()), "notes");
}

#[test]
fn aliases_errors() {
    let entries = vec![("diary".to_string(), AliasSpec::List(vec![Some("d".to_string()), None]))];
    let e = aliases_from_table(&entries).err().unwrap();
    assert_eq!(e, AliasError::NotAllStrings("diary".to_string()));
    assert_eq!(e.message(), "Not all values are a String in 'imag.aliases.diary'");
    let entries = vec![("diary".to_string(), AliasSpec::Other)];
    let e = aliases_from_table(&entries).err().unwrap();
    assert_eq!(e, AliasError::NotTableOrString("diary".to_string()));
    assert_eq!(e.message(), "Type Error: 'imag.aliases.diary' is not a table or string");
}

#[test]
fn fetch_aliases_from_configuration() {
    let cfg = config("[imag.aliases]\ntodo = \"t\"\ndiary = [\"d\", \"dia\"]\n");
    let m = fetch_aliases(Some(&cfg)).unwrap();
    assert_eq!(resolve_alias(&m, "t".to_string()), "todo");
    assert_eq!(resolve_alias(&m, "dia".to_string()), "diary");
    assert_eq!(resolve_alias(&m, "x".to_string()), "x");
}

#[test]
fn fetch_aliases_without_setting_is_empty() {
    let cfg = config("[imag]\nfoo = 1\n");
    let m = fetch_aliases(Some(&cfg)).unwrap();
    assert_eq!(resolve_alias(&m, "t".to_string()), "t");
}

#[test]
fn fetch_aliases_errors() {
    assert_eq!(fetch_aliases(None).err(), Some(AliasError::NoConfig));
    assert_eq!(AliasError::NoConfig.message(), "No configuration found");
    let cfg = config("[imag]\naliases = 3\n");
    assert_eq!(fetch_aliases(Some(&cfg)).err(), Some(AliasError::NotATable));
    assert_eq!(AliasError::NotATable.message(), "Type Error: 'imag.aliases' is not a table");
    let cfg = config("[imag.aliases]\ntodo = 3\n");
    assert_eq!(
        fetch_aliases(Some(&cfg)).err(),
        Some(AliasError::NotTableOrString("todo".to_string()))
    );
    let cfg = config("imag = 1\n");
    assert_eq!(fetch_aliases(Some(&cfg)).err(), Some(AliasError::ReadFailed));
    assert_eq!(AliasError::ReadFailed.message(), "Reading from config failed");
}

#[test]
fn forwarded_options_go_in_front_last_first() {
    let opts = vec![
        ("verbose".to_string(), Some("1".to_string())),
        ("debug".to_string(), None),
        ("config".to_string(), Some("/tmp/c".to_string())),
    ];
    let mut args = vec!["list".to_string()];
    forward_commandline_arguments(&opts, &mut args);
    assert_eq!(args, vec!["--config", "/tmp/c", "--verbose", "1", "list"]);
}

#[test]
fn nothing_forwarded_without_values() {
    let opts = vec![("verbose".to_string(), None)];
    let mut args = vec!["a".to_string(), "b".to_string()];
    forward_commandline_arguments(&opts, &mut args);
    assert_eq!(args, vec!["a", "b"]);
}

#[test]
fn later_table_entry_redefines_an_alias() {
    let entries = vec![
        ("todo".to_string(), AliasSpec::Single("t".to_string())),
        ("timetrack".to_string(), AliasSpec::Single("t".to_string())),
    ];
    let m = aliases_from_table(&entries).unwrap();
    assert_eq!(resolve_alias(&m, "t".to_string()), "timetrack");
}
