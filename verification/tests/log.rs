use imag::log::{get_diary_name, get_log_text, log_name, DefaultSetting, LogConfigError, LogsSetting};

fn config(text: &str) -> toml::Value {
    text.parse::<toml::Value>().unwrap()
}

#[test]
fn log_text_joins_words_with_spaces() {
    let words = vec!["went".to_string(), "for".to_string(), "a run".to_string()];
    assert_eq!(get_log_text(&words), "went for a run");
    assert_eq!(get_log_text(&vec![]), "");
}

#[test]
fn default_log_from_configuration() {
    let cfg = config("[log]\nlogs = [\"work\", \"home\"]\ndefault = \"home\"\n");
    assert_eq!(get_diary_name(Some(&cfg)), Ok("home".to_string()));
}

#[test]
fn default_log_errors() {
    assert_eq!(get_diary_name(None), Err(LogConfigError::NoConfiguration));
    let cfg = config("[log]\ndefault = \"home\"\n");
    assert_eq!(get_diary_name(Some(&cfg)), Err(LogConfigError::LogsMissing));
    let cfg = config("[log]\nlogs = \"home\"\ndefault = \"home\"\n");
    assert_eq!(get_diary_name(Some(&cfg)), Err(LogConfigError::LogsNotAnArray));
    let cfg = config("[log]\nlogs = [\"home\", 1]\ndefault = \"home\"\n");
    assert_eq!(get_diary_name(Some(&cfg)), Err(LogConfigError::LogsNotAllStrings));
    let cfg = config("[log]\nlogs = [\"home\"]\n");
    assert_eq!(get_diary_name(Some(&cfg)), Err(LogConfigError::DefaultMissing));
    let cfg = config("[log]\nlogs = [\"home\"]\ndefault = 3\n");
    assert_eq!(get_diary_name(Some(&cfg)), Err(LogConfigError::DefaultUnreadable));
    let cfg = config("[log]\nlogs = [\"home\"]\ndefault = \"work\"\n");
    assert_eq!(get_diary_name(Some(&cfg)), Err(LogConfigError::DefaultNotALog));
    assert_eq!(
        LogConfigError::DefaultNotALog.message(),
        "'log.logs' does not contain 'log.default'"
    );
    let cfg = config("log = 1\n");
    assert_eq!(get_diary_name(Some(&cfg)), Err(LogConfigError::LogsUnreadable));
}

#[test]
fn log_name_from_settings() {
    assert_eq!(
        log_name(
            LogsSetting::Array(vec![Some("a".to_string())]),
            DefaultSetting::Text("a".to_string())
        ),
        Ok("a".to_string())
    );
    assert_eq!(
        log_name(LogsSetting::Array(vec![None]), DefaultSetting::Missing),
        Err(LogConfigError::LogsNotAllStrings)
    );
    assert_eq!(log_name(LogsSetting::Unreadable, DefaultSetting::Missing), Err(LogConfigError::LogsUnreadable));
}
