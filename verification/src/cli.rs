//! The `imag` command: its help text, the aliases of subcommands read from
//! the configuration, and the arguments it passes on to a subcommand.

use vstd::prelude::*;
use vstd::string::StringExecFns;
use crate::text::push_char;
use crate::toml_access::{
    ReadError, SToml, TomlRef, array_items, classify, read_checked, spec_read, table_entries,
    toml_model,
};

verus! {

/// The help text up to the list of commands.
pub const HELP_HEAD: &'static str = r#"

     _
    (_)_ __ ___   __ _  __ _
    | | '_ \` _ \/ _\`|/ _\`|
    | | | | | | | (_| | (_| |
    |_|_| |_| |_|\__,_|\__, |
                       |___/
    -------------------------

    Usage: imag [--version | --versions | -h | --help] <command> <args...>

    imag - the personal information management suite for the commandline

    imag is a PIM suite for the commandline. It consists of several commands,
    called "modules". Each module implements one PIM aspect and all of these
    modules can be used independently.

    Available commands:

    "#;

/// The help text after the list of commands.
pub const HELP_TAIL: &'static str = r#"

    Call a command with 'imag <command> <args>'
    Each command can be called with "--help" to get the respective helptext.

    Please visit https://github.com/matthiasbeyer/imag to view the source code,
    follow the development of imag or maybe even contribute to imag.

    imag is free software. It is released under the terms of LGPLv2.1

    (c) 2016 Matthias Beyer and contributors"#;

/// One line per command, each a tab, the command and a newline.
pub open spec fn command_lines(cmds: Seq<Seq<char>>) -> Seq<char>
    decreases cmds.len(),
{
    if cmds.len() == 0 {
        Seq::empty()
    } else {
        command_lines(cmds.drop_last()) + seq!['\t'] + cmds.last() + seq!['\n']
    }
}

pub open spec fn strings_view(v: Seq<String>) -> Seq<Seq<char>> {
    v.map_values(|s: String| s@)
}

/// The help text of `imag`, listing the given commands.
pub fn help_text(cmds: Vec<String>) -> (res: String)
    ensures
        res@ == HELP_HEAD@ + command_lines(strings_view(cmds@)) + HELP_TAIL@,
{
    let ghost cv = strings_view(cmds@);
    let mut res = String::new();
    res.append(HELP_HEAD);
    let mut i: usize = 0;
    while i < cmds.len()
        invariant
            i <= cmds.len(),
            cv == strings_view(cmds@),
            res@ == HELP_HEAD@ + command_lines(cv.take(i as int)),
        decreases cmds.len() - i,
    {
        push_char(&mut res, '\t');
        res.append(cmds[i].as_str());
        push_char(&mut res, '\n');
        assert(cv.take(i + 1).drop_last() =~= cv.take(i as int));
        assert(res@ =~= HELP_HEAD@ + command_lines(cv.take(i + 1)));
        i = i + 1;
    }
    assert(cv.take(cmds.len() as int) =~= cv);
    res.append(HELP_TAIL);
    res
}


// ---------------------------------------------------------------------------
// Aliases
// ---------------------------------------------------------------------------

/// How one entry `imag.aliases.<command>` names aliases of `<command>`: a
/// single string, an array (`None` for an element that is not a string), or
/// a value of another kind.
pub enum AliasSpec {
    Single(String),
    List(Vec<Option<String>>),
    Other,
}

pub enum SAliasSpec {
    Single(Seq<char>),
    List(Seq<Option<Seq<char>>>),
    Other,
}

pub open spec fn opt_string_view(o: Option<String>) -> Option<Seq<char>> {
    match o {
        Some(s) => Some(s@),
        None => None,
    }
}

impl View for AliasSpec {
    type V = SAliasSpec;

    open spec fn view(&self) -> SAliasSpec {
        match self {
            AliasSpec::Single(s) => SAliasSpec::Single(s@),
            AliasSpec::List(v) => SAliasSpec::List(v@.map_values(|o: Option<String>| opt_string_view(o))),
            AliasSpec::Other => SAliasSpec::Other,
        }
    }
}

/// Why the aliases could not be read.
#[derive(Debug, PartialEq, Eq)]
pub enum AliasError {
    /// There is no configuration.
    NoConfig,
    /// `imag.aliases` could not be looked up.
    ReadFailed,
    /// An array of aliases of the named command holds a non-string.
    NotAllStrings(String),
    /// The entry of the named command is neither a string nor an array.
    NotTableOrString(String),
    /// `imag.aliases` is not a table.
    NotATable,
}

pub enum SAliasError {
    NoConfig,
    ReadFailed,
    NotAllStrings(Seq<char>),
    NotTableOrString(Seq<char>),
    NotATable,
}

impl View for AliasError {
    type V = SAliasError;

    open spec fn view(&self) -> SAliasError {
        match self {
            AliasError::NoConfig => SAliasError::NoConfig,
            AliasError::ReadFailed => SAliasError::ReadFailed,
            AliasError::NotAllStrings(k) => SAliasError::NotAllStrings(k@),
            AliasError::NotTableOrString(k) => SAliasError::NotTableOrString(k@),
            AliasError::NotATable => SAliasError::NotATable,
        }
    }
}

/// Each of `aliases` mapped to `command`, added to `m` in order.
pub open spec fn insert_aliases(
    m: Map<Seq<char>, Seq<char>>,
    aliases: Seq<Seq<char>>,
    command: Seq<char>,
) -> Map<Seq<char>, Seq<char>>
    decreases aliases.len(),
{
    if aliases.len() == 0 {
        m
    } else {
        insert_aliases(m, aliases.drop_last(), command).insert(aliases.last(), command)
    }
}

/// The aliases defined by the entries `(command, spec)` of `imag.aliases`,
/// in the table's order: each alias maps to its command, a later definition
/// of an alias replacing an earlier one. The first entry that is not a
/// string or an array of strings makes it an error.
pub open spec fn aliases_of(entries: Seq<(Seq<char>, SAliasSpec)>) -> Result<Map<Seq<char>, Seq<char>>, SAliasError>
    decreases entries.len(),
{
    if entries.len() == 0 {
        Ok(Map::empty())
    } else {
        match aliases_of(entries.drop_last()) {
            Err(e) => Err(e),
            Ok(m) => {
                let command = entries.last().0;
                match entries.last().1 {
                    SAliasSpec::Single(a) => Ok(m.insert(a, command)),
                    SAliasSpec::List(items) => if forall|i: int|
                        0 <= i < items.len() ==> (#[trigger] items[i]) is Some {
                        Ok(insert_aliases(m, items.map_values(|o: Option<Seq<char>>| o->0), command))
                    } else {
                        Err(SAliasError::NotAllStrings(command))
                    },
                    SAliasSpec::Other => Err(SAliasError::NotTableOrString(command)),
                }
            },
        }
    }
}

/// The map of a sequence of `(alias, command)` definitions, later ones
/// replacing earlier ones.
pub open spec fn map_of(defs: Seq<(Seq<char>, Seq<char>)>) -> Map<Seq<char>, Seq<char>>
    decreases defs.len(),
{
    if defs.len() == 0 {
        Map::empty()
    } else {
        map_of(defs.drop_last()).insert(defs.last().0, defs.last().1)
    }
}

/// Aliases of subcommands: alias name to command name.
pub struct AliasMap {
    defs: Vec<(String, String)>,
}

pub open spec fn defs_view(defs: Seq<(String, String)>) -> Seq<(Seq<char>, Seq<char>)> {
    defs.map_values(|d: (String, String)| (d.0@, d.1@))
}

impl View for AliasMap {
    type V = Map<Seq<char>, Seq<char>>;

    closed spec fn view(&self) -> Map<Seq<char>, Seq<char>> {
        map_of(defs_view(self.defs@))
    }
}

proof fn lemma_map_of_lookup(defs: Seq<(Seq<char>, Seq<char>)>, key: Seq<char>, i: int)
    requires
        -1 <= i < defs.len(),
        forall|j: int| i < j < defs.len() ==> (#[trigger] defs[j]).0 != key,
    ensures
        i >= 0 && defs[i].0 == key ==> map_of(defs).contains_key(key) && map_of(defs)[key]
            == defs[i].1,
        i == -1 ==> !map_of(defs).contains_key(key),
    decreases defs.len(),
{
    if defs.len() > 0 {
        if i < defs.len() - 1 {
            assert forall|j: int| i < j < defs.drop_last().len() implies (
            #[trigger] defs.drop_last()[j]).0 != key by {
                assert(defs.drop_last()[j] == defs[j]);
            }
            lemma_map_of_lookup(defs.drop_last(), key, i);
            if i >= 0 {
                assert(defs.drop_last()[i] == defs[i]);
            }
        }
    }
}

impl AliasMap {
    pub fn new() -> (res: Self)
        ensures
            res@ == Map::<Seq<char>, Seq<char>>::empty(),
    {
        let res = AliasMap { defs: Vec::new() };
        assert(defs_view(res.defs@) =~= Seq::empty());
        res
    }

    /// Maps `alias` to `command`, replacing an earlier mapping of `alias`.
    pub fn insert(&mut self, alias: String, command: String)
        ensures
            final(self)@ == old(self)@.insert(alias@, command@),
    {
        let ghost before = defs_view(self.defs@);
        let ghost d = (alias@, command@);
        self.defs.push((alias, command));
        assert(defs_view(self.defs@).drop_last() =~= before);
        assert(defs_view(self.defs@).last() == d);
    }

    /// The command `alias` stands for.
    pub fn get(&self, alias: &String) -> (res: Option<&String>)
        ensures
            match res {
                Some(c) => self@.contains_key(alias@) && self@[alias@] == c@,
                None => !self@.contains_key(alias@),
            },
    {
        let ghost dv = defs_view(self.defs@);
        let mut i = self.defs.len();
        while i > 0
            invariant
                i <= self.defs.len(),
                dv == defs_view(self.defs@),
                forall|j: int| i <= j < dv.len() ==> (#[trigger] dv[j]).0 != alias@,
            decreases i,
        {
            let d = &self.defs[i - 1];
            assert(dv[i - 1] == (d.0@, d.1@));
            if d.0 == *alias {
                proof {
                    lemma_map_of_lookup(dv, alias@, i - 1);
                }
                return Some(&d.1);
            }
            i = i - 1;
        }
        proof {
            lemma_map_of_lookup(dv, alias@, -1);
        }
        None
    }
}

/// Once a prefix of the entries is an error, so are all the entries.
proof fn lemma_aliases_error_prefix(entries: Seq<(Seq<char>, SAliasSpec)>, k: int)
    requires
        0 <= k <= entries.len(),
        aliases_of(entries.take(k)) is Err,
    ensures
        aliases_of(entries) == aliases_of(entries.take(k)),
    decreases entries.len() - k,
{
    if k < entries.len() {
        assert(entries.take(k + 1).drop_last() =~= entries.take(k));
        lemma_aliases_error_prefix(entries, k + 1);
    } else {
        assert(entries.take(k) =~= entries);
    }
}

pub open spec fn entries_view(entries: Seq<(String, AliasSpec)>) -> Seq<(Seq<char>, SAliasSpec)> {
    entries.map_values(|e: (String, AliasSpec)| (e.0@, e.1@))
}

pub open spec fn alias_outcome(r: Result<AliasMap, AliasError>) -> Result<Map<Seq<char>, Seq<char>>, SAliasError> {
    match r {
        Ok(m) => Ok(m@),
        Err(e) => Err(e@),
    }
}

/// The aliases defined by the entries of `imag.aliases`, in the table's
/// order.
pub fn aliases_from_table(entries: &Vec<(String, AliasSpec)>) -> (res: Result<AliasMap, AliasError>)
    ensures
        alias_outcome(res) == aliases_of(entries_view(entries@)),
{
    let ghost ev = entries_view(entries@);
    let mut m = AliasMap::new();
    let mut i: usize = 0;
    while i < entries.len()
        invariant
            i <= entries.len(),
            ev == entries_view(entries@),
            aliases_of(ev.take(i as int)) == Ok::<Map<Seq<char>, Seq<char>>, SAliasError>(m@),
        decreases entries.len() - i,
    {
        let command = &entries[i].0;
        assert(ev.take(i + 1).drop_last() =~= ev.take(i as int));
        assert(ev.take(i + 1).last() == (command@, entries[i as int].1@));
        match &entries[i].1 {
            AliasSpec::Single(a) => {
                m.insert(a.clone(), command.clone());
            },
            AliasSpec::List(items) => {
                let ghost iv = items@.map_values(|o: Option<String>| opt_string_view(o));
                let ghost m0 = m@;
                let mut k: usize = 0;
                while k < items.len()
                    invariant
                        k <= items.len(),
                        i < entries.len(),
                        ev == entries_view(entries@),
                        aliases_of(ev.take(i as int)) == Ok::<
                            Map<Seq<char>, Seq<char>>,
                            SAliasError,
                        >(m0),
                        ev.take(i + 1).drop_last() == ev.take(i as int),
                        ev.take(i + 1).last() == (command@, SAliasSpec::List(iv)),
                        iv == items@.map_values(|o: Option<String>| opt_string_view(o)),
                        forall|j: int| 0 <= j < k ==> (#[trigger] iv[j]) is Some,
                        m@ == insert_aliases(
                            m0,
                            iv.take(k as int).map_values(|o: Option<Seq<char>>| o->0),
                            command@,
                        ),
                    decreases items.len() - k,
                {
                    match &items[k] {
                        Some(a) => {
                            assert(iv.take(k + 1).map_values(|o: Option<Seq<char>>| o->0).drop_last()
                                =~= iv.take(k as int).map_values(|o: Option<Seq<char>>| o->0));
                            m.insert(a.clone(), command.clone());
                        },
                        None => {
                            assert(iv[k as int] is None);
                            let e = AliasError::NotAllStrings(command.clone());
                            assert(aliases_of(ev.take(i + 1)) == Err::<
                                Map<Seq<char>, Seq<char>>,
                                SAliasError,
                            >(e@));
                            proof {
                                lemma_aliases_error_prefix(ev, i + 1);
                            }
                            return Err(e);
                        },
                    }
                    k = k + 1;
                }
                assert(iv.take(items.len() as int) =~= iv);
            },
            AliasSpec::Other => {
                let e = AliasError::NotTableOrString(command.clone());
                assert(aliases_of(ev.take(i + 1)) == Err::<Map<Seq<char>, Seq<char>>, SAliasError>(
                    e@,
                ));
                proof {
                    lemma_aliases_error_prefix(ev, i + 1);
                }
                return Err(e);
            },
        }
        i = i + 1;
    }
    assert(ev.take(entries.len() as int) =~= ev);
    Ok(m)
}

/// An alias element: the string, or `None` for anything else.
pub open spec fn alias_name_model(x: SToml) -> Option<Seq<char>> {
    match x {
        SToml::Str(s) => Some(s),
        _ => None,
    }
}

/// A configuration value as an alias specification: a string as a single
/// alias, an array as a list (each element that is not a string as
/// `None`), anything else as `Other`.
pub open spec fn alias_spec_model(v: SToml) -> SAliasSpec {
    match v {
        SToml::Str(s) => SAliasSpec::Single(s),
        SToml::Array(items) => SAliasSpec::List(items.map_values(|x: SToml| alias_name_model(x))),
        _ => SAliasSpec::Other,
    }
}

/// The entries of `imag.aliases` as alias specifications.
pub open spec fn alias_entries_model(t: Seq<(Seq<char>, SToml)>) -> Seq<(Seq<char>, SAliasSpec)> {
    t.map_values(|e: (Seq<char>, SToml)| (e.0, alias_spec_model(e.1)))
}

/// The aliases a configuration holding `doc` defines: none where
/// `imag.aliases` is not set, an error where it cannot be read or is not a
/// table, else the aliases of its entries in the table's order.
pub open spec fn spec_fetch_aliases(doc: SToml) -> Result<Map<Seq<char>, Seq<char>>, SAliasError> {
    match spec_read(doc, "imag.aliases"@) {
        None => Err(SAliasError::ReadFailed),
        Some(None) => Ok(Map::empty()),
        Some(Some(SToml::Table(t))) => aliases_of(alias_entries_model(t)),
        Some(Some(_)) => Err(SAliasError::NotATable),
    }
}

/// Describes a configuration value as an alias specification.
fn alias_spec_of(v: &toml::Value) -> (res: AliasSpec)
    ensures
        res@ == alias_spec_model(toml_model(*v)),
{
    match classify(v) {
        TomlRef::String(s) => AliasSpec::Single(s.clone()),
        TomlRef::Array(_) => {
            let items = match array_items(v) {
                Some(items) => items,
                None => {
                    return AliasSpec::Other;
                },
            };
            let ghost model = toml_model(*v)->Array_0;
            let mut names: Vec<Option<String>> = Vec::new();
            let mut i: usize = 0;
            while i < items.len()
                invariant
                    i <= items@.len(),
                    items@.len() == model.len(),
                    forall|k: int| 0 <= k < model.len() ==> toml_model(*(#[trigger] items@[k])) == model[k],
                    names@.len() == i,
                    forall|k: int|
                        0 <= k < i ==> opt_string_view(#[trigger] names@[k]) == alias_name_model(model[k]),
                decreases items.len() - i,
            {
                let name = match classify(items[i]) {
                    TomlRef::String(s) => Some(s.clone()),
                    _ => None,
                };
                assert(toml_model(*items@[i as int]) == model[i as int]);
                names.push(name);
                i = i + 1;
            }
            let res = AliasSpec::List(names);
            assert(res@ == alias_spec_model(toml_model(*v))) by {
                assert(names@.map_values(|o: Option<String>| opt_string_view(o)) =~= model.map_values(
                    |x: SToml| alias_name_model(x),
                ));
            }
            res
        },
        _ => AliasSpec::Other,
    }
}

/// Reads the aliases of subcommands from `imag.aliases` of the
/// configuration: none if that is not set.
pub fn fetch_aliases(config: Option<&toml::Value>) -> (res: Result<AliasMap, AliasError>)
    ensures
        match config {
            None => res matches Err(AliasError::NoConfig),
            Some(c) => alias_outcome(res) == spec_fetch_aliases(toml_model(*c)),
        },
{
    let cfg = match config {
        Some(c) => c,
        None => {
            return Err(AliasError::NoConfig);
        },
    };
    let found = match read_checked(cfg, "imag.aliases") {
        Ok(f) => f,
        Err(ReadError::Lookup) => {
            return Err(AliasError::ReadFailed);
        },
    };
    let value = match found {
        Some(v) => v,
        None => {
            let m = AliasMap::new();
            return Ok(m);
        },
    };
    let table = match table_entries(value) {
        Some(t) => t,
        None => {
            return Err(AliasError::NotATable);
        },
    };
    let ghost t = toml_model(*value)->Table_0;
    let mut entries: Vec<(String, AliasSpec)> = Vec::new();
    let mut i: usize = 0;
    while i < table.len()
        invariant
            i <= table@.len(),
            table@.len() == t.len(),
            forall|k: int|
                0 <= k < t.len() ==> (#[trigger] table@[k]).0@ == t[k].0 && toml_model(*table@[k].1)
                    == t[k].1,
            entries@.len() == i,
            forall|k: int|
                0 <= k < i ==> (#[trigger] entries@[k]).0@ == t[k].0 && entries@[k].1@
                    == alias_spec_model(t[k].1),
        decreases table.len() - i,
    {
        let (k, v) = &table[i];
        assert(table@[i as int].0@ == t[i as int].0);
        entries.push((k.clone(), alias_spec_of(v)));
        i = i + 1;
    }
    assert(entries_view(entries@) =~= alias_entries_model(t));
    aliases_from_table(&entries)
}

/// The command a subcommand name stands for: its alias target, or the name
/// itself.
pub fn resolve_alias(aliases: &AliasMap, subcommand: String) -> (res: String)
    ensures
        res@ == if aliases@.contains_key(subcommand@) {
            aliases@[subcommand@]
        } else {
            subcommand@
        },
{
    match aliases.get(&subcommand) {
        Some(c) => c.clone(),
        None => subcommand,
    }
}


impl AliasError {
    pub open spec fn spec_message(&self) -> Seq<char> {
        match self {
            AliasError::NoConfig => "No configuration found"@,
            AliasError::ReadFailed => "Reading from config failed"@,
            AliasError::NotAllStrings(k) => "Not all values are a String in 'imag.aliases."@ + k@
                + "'"@,
            AliasError::NotTableOrString(k) => "Type Error: 'imag.aliases."@ + k@
                + "' is not a table or string"@,
            AliasError::NotATable => "Type Error: 'imag.aliases' is not a table"@,
        }
    }

    /// The text the error reports.
    pub fn message(&self) -> (res: String)
        ensures
            res@ == self.spec_message(),
    {
        let mut res = String::new();
        match self {
            AliasError::NoConfig => res.append("No configuration found"),
            AliasError::ReadFailed => res.append("Reading from config failed"),
            AliasError::NotAllStrings(k) => {
                res.append("Not all values are a String in 'imag.aliases.");
                res.append(k.as_str());
                res.append("'");
            },
            AliasError::NotTableOrString(k) => {
                res.append("Type Error: 'imag.aliases.");
                res.append(k.as_str());
                res.append("' is not a table or string");
            },
            AliasError::NotATable => res.append("Type Error: 'imag.aliases' is not a table"),
        }
        res
    }
}

// ---------------------------------------------------------------------------
// Arguments passed on to a subcommand
// ---------------------------------------------------------------------------

pub open spec fn long_flag(name: Seq<char>) -> Seq<char> {
    seq!['-', '-'] + name
}

/// The arguments of a subcommand after the options of `imag` are put in
/// front of them: for each `(name, value)` with a value, in order, the pair
/// `--name value` goes in front of what is there; so the last option comes
/// first.
pub open spec fn forwarded(
    opts: Seq<(Seq<char>, Option<Seq<char>>)>,
    args: Seq<Seq<char>>,
) -> Seq<Seq<char>>
    decreases opts.len(),
{
    if opts.len() == 0 {
        args
    } else {
        let rest = forwarded(opts.drop_last(), args);
        match opts.last().1 {
            Some(v) => seq![long_flag(opts.last().0), v] + rest,
            None => rest,
        }
    }
}

pub open spec fn opts_view(opts: Seq<(String, Option<String>)>) -> Seq<(Seq<char>, Option<Seq<char>>)> {
    opts.map_values(|o: (String, Option<String>)| (o.0@, opt_string_view(o.1)))
}

/// Puts the options of `imag` that have a value in front of the arguments of
/// the subcommand, as `--name value`.
pub fn forward_commandline_arguments(opts: &Vec<(String, Option<String>)>, scmd: &mut Vec<String>)
    ensures
        strings_view(final(scmd)@) == forwarded(opts_view(opts@), strings_view(old(scmd)@)),
{
    let ghost ov = opts_view(opts@);
    let ghost args0 = strings_view(scmd@);
    let mut i: usize = 0;
    assert(ov.take(0) =~= Seq::<(Seq<char>, Option<Seq<char>>)>::empty());
    while i < opts.len()
        invariant
            i <= opts.len(),
            ov == opts_view(opts@),
            strings_view(scmd@) == forwarded(ov.take(i as int), args0),
        decreases opts.len() - i,
    {
        assert(ov.take(i + 1).drop_last() =~= ov.take(i as int));
        assert(ov.take(i + 1).last() == ov[i as int]);
        let (name, value) = &opts[i];
        match value {
            Some(v) => {
                let mut flag = String::new();
                flag.append("--");
                flag.append(name.as_str());
                proof {
                    reveal_strlit("--");
                }
                assert(flag@ =~= long_flag(name@));
                let ghost before = strings_view(scmd@);
                scmd.insert(0, v.clone());
                scmd.insert(0, flag);
                assert(strings_view(scmd@) =~= seq![long_flag(name@), v@] + before);
            },
            None => {},
        }
        i = i + 1;
    }
    assert(ov.take(opts.len() as int) =~= ov);
}

} // verus!

verus! {

/// The number of options that have a value.
pub open spec fn valued(opts: Seq<(Seq<char>, Option<Seq<char>>)>) -> nat
    decreases opts.len(),
{
    if opts.len() == 0 {
        0
    } else {
        valued(opts.drop_last()) + if opts.last().1 is Some {
            1nat
        } else {
            0nat
        }
    }
}

/// Forwarding keeps the subcommand's own arguments, in order, at the end,
/// and puts two arguments in front of them for each option with a value.
pub proof fn law_forward_keeps_arguments(
    opts: Seq<(Seq<char>, Option<Seq<char>>)>,
    args: Seq<Seq<char>>,
)
    ensures
        forwarded(opts, args).len() == args.len() + 2 * valued(opts),
        forwarded(opts, args).skip(2 * valued(opts) as int) == args,
    decreases opts.len(),
{
    if opts.len() > 0 {
        law_forward_keeps_arguments(opts.drop_last(), args);
        let rest = forwarded(opts.drop_last(), args);
        match opts.last().1 {
            Some(v) => {
                let f = seq![long_flag(opts.last().0), v] + rest;
                assert(f.skip(2 * valued(opts) as int) =~= rest.skip(
                    2 * valued(opts.drop_last()) as int,
                ));
            },
            None => {},
        }
    } else {
        assert(args.skip(0) =~= args);
    }
}

/// A later definition of an alias replaces an earlier one: after an entry
/// naming `alias` for `command`, the alias stands for `command`.
pub proof fn law_later_alias_wins(
    entries: Seq<(Seq<char>, SAliasSpec)>,
    command: Seq<char>,
    alias: Seq<char>,
)
    requires
        aliases_of(entries) is Ok,
    ensures
        aliases_of(entries.push((command, SAliasSpec::Single(alias)))) matches Ok(m) && m.contains_key(
            alias,
        ) && m[alias] == command,
{
    assert(entries.push((command, SAliasSpec::Single(alias))).drop_last() =~= entries);
}

} // verus!
