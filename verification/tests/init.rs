use imag::init::{get_config, get_config_devel};

const TEMPLATE: &str = r#"[imag.logging]
level = "debug"
destinations = [ "-" ]

[imag.logging.modules.libimagstore]
level = "debug"
enabled = true

[store]
implicit-create = false
"#;

#[test]
fn test_config() {
    let val = toml::from_str::<toml::Value>(&get_config(TEMPLATE)[..]);
    assert!(val.is_ok(), "Config parsing errored: {:?}", val);

    let val = toml::from_str::<toml::Value>(&get_config_devel(TEMPLATE)[..]);
    assert!(val.is_ok(), "Config parsing errored: {:?}", val);
}

#[test]
fn release_config_logs_at_info_level() {
    let c = get_config(TEMPLATE);
    assert!(!c.contains(r#"level = "debug""#));
    assert_eq!(c.matches(r#"level = "info""#).count(), 2);
    assert_eq!(c, TEMPLATE.replace(r#"level = "debug""#, r#"level = "info""#));
}

#[test]
fn devel_config_is_the_template() {
    assert_eq!(get_config_devel(TEMPLATE), TEMPLATE);
}

#[test]
fn config_without_debug_level_is_kept() {
    let t = "[imag.logging]\nlevel = \"warn\"\n";
    assert_eq!(get_config(t), t);
}
