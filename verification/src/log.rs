//! The log tool: the text of a log line, and the diary it is written to.

use vstd::prelude::*;
use crate::text::{join, joined, texts_view, str_eq};
use crate::toml_access::{
    ReadError, SToml, TomlRef, array_items, classify, read_checked, read_string_checked, spec_read,
    spec_read_string, toml_model,
};

verus! {

/// The text of a log line: the words given, separated by single spaces.
pub fn get_log_text(words: &Vec<String>) -> (res: String)
    ensures
        res@ == joined(texts_view(words@), " "@),
{
    join(words, " ")
}

/// What the configuration holds at `log.logs`.
pub enum LogsSetting {
    /// The path could not be resolved.
    Unreadable,
    Missing,
    /// A value that is not an array.
    NotAnArray,
    /// An array, with each element that is a string (`None`: another kind).
    Array(Vec<Option<String>>),
}

/// What the configuration holds at `log.default`.
pub enum DefaultSetting {
    /// The path could not be resolved or holds something else than a string.
    Unreadable,
    Missing,
    Text(String),
}

/// Why the diary of the log cannot be determined. The tool reports each and
/// stops.
#[derive(Debug, PartialEq, Eq)]
pub enum LogConfigError {
    NoConfiguration,
    LogsUnreadable,
    LogsMissing,
    LogsNotAnArray,
    LogsNotAllStrings,
    DefaultUnreadable,
    DefaultMissing,
    DefaultNotALog,
}

impl LogConfigError {
    pub open spec fn spec_message(&self) -> Seq<char> {
        match self {
            LogConfigError::NoConfiguration => "Configuration not present, cannot continue"@,
            LogConfigError::LogsUnreadable => "Configuration 'log.logs' cannot be read"@,
            LogConfigError::LogsMissing => "Configuration missing: 'log.logs'"@,
            LogConfigError::LogsNotAnArray => "Configuration 'log.logs' is not an Array"@,
            LogConfigError::LogsNotAllStrings => "Configuration 'log.logs' is not an Array<String>!"@,
            LogConfigError::DefaultUnreadable => "Configuration 'log.default' cannot be read"@,
            LogConfigError::DefaultMissing => "Configuration missing: 'log.default'"@,
            LogConfigError::DefaultNotALog => "'log.logs' does not contain 'log.default'"@,
        }
    }

    /// The text the error reports.
    pub fn message(&self) -> (res: String)
        ensures
            res@ == self.spec_message(),
    {
        match self {
            LogConfigError::NoConfiguration => "Configuration not present, cannot continue".to_owned(),
            LogConfigError::LogsUnreadable => "Configuration 'log.logs' cannot be read".to_owned(),
            LogConfigError::LogsMissing => "Configuration missing: 'log.logs'".to_owned(),
            LogConfigError::LogsNotAnArray => "Configuration 'log.logs' is not an Array".to_owned(),
            LogConfigError::LogsNotAllStrings => "Configuration 'log.logs' is not an Array<String>!".to_owned(),
            LogConfigError::DefaultUnreadable => "Configuration 'log.default' cannot be read".to_owned(),
            LogConfigError::DefaultMissing => "Configuration missing: 'log.default'".to_owned(),
            LogConfigError::DefaultNotALog => "'log.logs' does not contain 'log.default'".to_owned(),
        }
    }
}

pub enum SLogsSetting {
    Unreadable,
    Missing,
    NotAnArray,
    Array(Seq<Option<Seq<char>>>),
}

pub enum SDefaultSetting {
    Unreadable,
    Missing,
    Text(Seq<char>),
}

impl View for LogsSetting {
    type V = SLogsSetting;

    open spec fn view(&self) -> SLogsSetting {
        match self {
            LogsSetting::Unreadable => SLogsSetting::Unreadable,
            LogsSetting::Missing => SLogsSetting::Missing,
            LogsSetting::NotAnArray => SLogsSetting::NotAnArray,
            LogsSetting::Array(v) => SLogsSetting::Array(
                v@.map_values(|o: Option<String>| opt_view(o)),
            ),
        }
    }
}

impl View for DefaultSetting {
    type V = SDefaultSetting;

    open spec fn view(&self) -> SDefaultSetting {
        match self {
            DefaultSetting::Unreadable => SDefaultSetting::Unreadable,
            DefaultSetting::Missing => SDefaultSetting::Missing,
            DefaultSetting::Text(s) => SDefaultSetting::Text(s@),
        }
    }
}

/// The log the configuration names as the default, given what it holds at
/// `log.logs` and `log.default`: the default must be one of the logs, all
/// of which must be strings.
pub open spec fn spec_log_name(logs: SLogsSetting, default: SDefaultSetting) -> Result<Seq<char>, LogConfigError> {
    match logs {
        SLogsSetting::Unreadable => Err(LogConfigError::LogsUnreadable),
        SLogsSetting::Missing => Err(LogConfigError::LogsMissing),
        SLogsSetting::NotAnArray => Err(LogConfigError::LogsNotAnArray),
        SLogsSetting::Array(items) => if exists|i: int| 0 <= i < items.len() && (#[trigger] items[i]) is None {
            Err(LogConfigError::LogsNotAllStrings)
        } else {
            match default {
                SDefaultSetting::Unreadable => Err(LogConfigError::DefaultUnreadable),
                SDefaultSetting::Missing => Err(LogConfigError::DefaultMissing),
                SDefaultSetting::Text(d) => if items.contains(Some(d)) {
                    Ok(d)
                } else {
                    Err(LogConfigError::DefaultNotALog)
                },
            }
        },
    }
}

pub open spec fn name_outcome(r: Result<String, LogConfigError>) -> Result<Seq<char>, LogConfigError> {
    match r {
        Ok(s) => Ok(s@),
        Err(e) => Err(e),
    }
}

/// The log the configuration names as the default.
pub fn log_name(logs: LogsSetting, default: DefaultSetting) -> (res: Result<String, LogConfigError>)
    ensures
        name_outcome(res) == spec_log_name(logs@, default@),
{
    let ghost lv = logs@;
    let ghost dv = default@;
    let items = match logs {
        LogsSetting::Unreadable => {
            return Err(LogConfigError::LogsUnreadable);
        },
        LogsSetting::Missing => {
            return Err(LogConfigError::LogsMissing);
        },
        LogsSetting::NotAnArray => {
            return Err(LogConfigError::LogsNotAnArray);
        },
        LogsSetting::Array(items) => items,
    };
    let ghost iv = items@.map_values(|o: Option<String>| opt_view(o));
    assert(lv == SLogsSetting::Array(iv));
    let mut k: usize = 0;
    while k < items.len()
        invariant
            k <= items.len(),
            iv == items@.map_values(|o: Option<String>| opt_view(o)),
            forall|j: int| 0 <= j < k ==> (#[trigger] iv[j]) is Some,
            lv == SLogsSetting::Array(iv),
            lv == logs@,
            dv == default@,
        decreases items.len() - k,
    {
        if items[k].is_none() {
            assert(iv[k as int] is None);
            assert(exists|i: int| 0 <= i < iv.len() && (#[trigger] iv[i]) is None);
            return Err(LogConfigError::LogsNotAllStrings);
        }
        k = k + 1;
    }
    let d = match default {
        DefaultSetting::Unreadable => {
            return Err(LogConfigError::DefaultUnreadable);
        },
        DefaultSetting::Missing => {
            return Err(LogConfigError::DefaultMissing);
        },
        DefaultSetting::Text(d) => d,
    };
    assert(dv == SDefaultSetting::Text(d@));
    assert(!exists|i: int| 0 <= i < iv.len() && (#[trigger] iv[i]) is None);
    let mut k: usize = 0;
    while k < items.len()
        invariant
            k <= items.len(),
            iv == items@.map_values(|o: Option<String>| opt_view(o)),
            forall|j: int| 0 <= j < items.len() ==> (#[trigger] iv[j]) is Some,
            forall|j: int| 0 <= j < k ==> iv[j] != Some(d@),
            lv == SLogsSetting::Array(iv),
            lv == logs@,
            dv == default@,
            dv == SDefaultSetting::Text(d@),
        decreases items.len() - k,
    {
        match &items[k] {
            Some(s) => {
                if str_eq(s.as_str(), d.as_str()) {
                    assert(iv[k as int] == Some(d@));
                    assert(iv.contains(Some(d@)));
                    return Ok(d);
                }
            },
            None => {},
        }
        assert(iv[k as int] != Some(d@));
        k = k + 1;
    }
    Err(LogConfigError::DefaultNotALog)
}

/// A log name in `log.logs`: the string, `None` for another kind.
pub open spec fn log_item_model(x: SToml) -> Option<Seq<char>> {
    match x {
        SToml::Str(s) => Some(s),
        _ => None,
    }
}

/// What reading `log.logs` gives, as a setting.
pub open spec fn logs_model(r: Option<Option<SToml>>) -> SLogsSetting {
    match r {
        None => SLogsSetting::Unreadable,
        Some(None) => SLogsSetting::Missing,
        Some(Some(SToml::Array(a))) => SLogsSetting::Array(a.map_values(|x: SToml| log_item_model(x))),
        Some(Some(_)) => SLogsSetting::NotAnArray,
    }
}

/// What reading the string `log.default` gives, as a setting.
pub open spec fn default_model(r: Option<Option<Seq<char>>>) -> SDefaultSetting {
    match r {
        None => SDefaultSetting::Unreadable,
        Some(None) => SDefaultSetting::Missing,
        Some(Some(s)) => SDefaultSetting::Text(s),
    }
}

/// The log named as the default in the configuration: `log.logs` must be an
/// array of strings and hold `log.default`.
pub fn get_diary_name(config: Option<&toml::Value>) -> (res: Result<String, LogConfigError>)
    ensures
        match config {
            None => res == Err::<String, LogConfigError>(LogConfigError::NoConfiguration),
            Some(c) => name_outcome(res) == spec_log_name(
                logs_model(spec_read(toml_model(*c), "log.logs"@)),
                default_model(spec_read_string(toml_model(*c), "log.default"@)),
            ),
        },
{
    let cfg = match config {
        None => {
            return Err(LogConfigError::NoConfiguration);
        },
        Some(c) => c,
    };
    let ghost lr = spec_read(toml_model(*cfg), "log.logs"@);
    let logs = match read_checked(cfg, "log.logs") {
        Err(ReadError::Lookup) => LogsSetting::Unreadable,
        Ok(None) => LogsSetting::Missing,
        Ok(Some(v)) => match array_items(v) {
            None => LogsSetting::NotAnArray,
            Some(elems) => {
                let ghost a = toml_model(*v)->Array_0;
                let mut items: Vec<Option<String>> = Vec::new();
                let mut k: usize = 0;
                while k < elems.len()
                    invariant
                        k <= elems@.len(),
                        elems@.len() == a.len(),
                        forall|j: int| 0 <= j < a.len() ==> toml_model(*(#[trigger] elems@[j])) == a[j],
                        items@.len() == k,
                        forall|j: int|
                            0 <= j < k ==> opt_view(#[trigger] items@[j]) == log_item_model(a[j]),
                    decreases elems.len() - k,
                {
                    let item = match classify(elems[k]) {
                        TomlRef::String(s) => Some(s.clone()),
                        _ => None,
                    };
                    assert(toml_model(*elems@[k as int]) == a[k as int]);
                    items.push(item);
                    k = k + 1;
                }
                let l = LogsSetting::Array(items);
                assert(l@ == logs_model(lr)) by {
                    assert(items@.map_values(|o: Option<String>| opt_view(o)) =~= a.map_values(
                        |x: SToml| log_item_model(x),
                    ));
                }
                l
            },
        },
    };
    let default = match read_string_checked(cfg, "log.default") {
        Err(ReadError::Lookup) => DefaultSetting::Unreadable,
        Ok(None) => DefaultSetting::Missing,
        Ok(Some(s)) => DefaultSetting::Text(s),
    };
    assert(logs@ == logs_model(lr));
    log_name(logs, default)
}

/// A string option by its view.
pub open spec fn opt_view(o: Option<String>) -> Option<Seq<char>> {
    match o {
        Some(s) => Some(s@),
        None => None,
    }
}

} // verus!

verus! {

/// The diary a log line goes to is always one of the configured logs.
pub proof fn law_default_is_a_log(logs: SLogsSetting, default: SDefaultSetting, name: Seq<char>)
    requires
        spec_log_name(logs, default) == Ok::<Seq<char>, LogConfigError>(name),
    ensures
        logs matches SLogsSetting::Array(items) && items.contains(Some(name)),
{
}

/// Where every element of `log.logs` is a string, the default is chosen
/// exactly when it is one of them, whichever position it has.
pub proof fn law_default_chosen_iff_a_log(items: Seq<Option<Seq<char>>>, d: Seq<char>)
    requires
        forall|i: int| 0 <= i < items.len() ==> (#[trigger] items[i]) is Some,
    ensures
        items.contains(Some(d)) ==> spec_log_name(
            SLogsSetting::Array(items),
            SDefaultSetting::Text(d),
        ) == Ok::<Seq<char>, LogConfigError>(d),
        !items.contains(Some(d)) ==> spec_log_name(
            SLogsSetting::Array(items),
            SDefaultSetting::Text(d),
        ) == Err::<Seq<char>, LogConfigError>(LogConfigError::DefaultNotALog),
{
}

/// Any position of the default in `log.logs` makes it the chosen log.
pub proof fn law_default_at_any_position(items: Seq<Option<Seq<char>>>, d: Seq<char>, k: int)
    requires
        forall|i: int| 0 <= i < items.len() ==> (#[trigger] items[i]) is Some,
        0 <= k < items.len(),
        items[k] == Some(d),
    ensures
        spec_log_name(SLogsSetting::Array(items), SDefaultSetting::Text(d)) == Ok::<
            Seq<char>,
            LogConfigError,
        >(d),
{
    assert(items.contains(Some(d)));
}

} // verus!
