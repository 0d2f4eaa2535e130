//! Calling `git` on the imag directory: where `imag-git` runs it and with
//! which arguments, and the commands `imag-init` runs to set up a
//! repository.

use vstd::prelude::*;
use crate::text::{append_str, texts_view};
use crate::toml_access::{ReadError, SToml, ValueShape, read_checked, shape_of, spec_read, toml_model};

verus! {

/// Why `imag-git` cannot decide where to run `git`. The tool reports each
/// and stops.
#[derive(Debug, Clone, Copy, PartialEq, Eq, Structural)]
pub enum GitConfigError {
    /// There is no configuration.
    NoConfiguration,
    /// `git.execute_in_store` could not be read.
    ReadFailed,
    /// `git.execute_in_store` is not set.
    Missing,
    /// `git.execute_in_store` is not a boolean.
    NotABoolean,
}

/// Whether `git` runs in the store (rather than in the imag directory),
/// given what was read at `git.execute_in_store`.
pub open spec fn spec_execute_in_store(found: Result<Option<SFound>, ReadError>) -> Result<bool, GitConfigError> {
    match found {
        Err(_) => Err(GitConfigError::ReadFailed),
        Ok(None) => Err(GitConfigError::Missing),
        Ok(Some(SFound::Boolean(b))) => Ok(b),
        Ok(Some(SFound::Other)) => Err(GitConfigError::NotABoolean),
    }
}

/// What was found at `git.execute_in_store`: a boolean or something else.
pub enum SFound {
    Boolean(bool),
    Other,
}

pub open spec fn found_of(found: Result<Option<ValueShape>, ReadError>) -> Result<Option<SFound>, ReadError> {
    match found {
        Err(e) => Err(e),
        Ok(None) => Ok(None),
        Ok(Some(ValueShape::Boolean(b))) => Ok(Some(SFound::Boolean(b))),
        Ok(Some(_)) => Ok(Some(SFound::Other)),
    }
}

/// Whether `git` runs in the store, given what was read at
/// `git.execute_in_store`.
pub fn execute_in_store_from(found: Result<Option<ValueShape>, ReadError>) -> (res: Result<bool, GitConfigError>)
    ensures
        res == spec_execute_in_store(found_of(found)),
{
    match found {
        Err(_) => Err(GitConfigError::ReadFailed),
        Ok(None) => Err(GitConfigError::Missing),
        Ok(Some(ValueShape::Boolean(b))) => Ok(b),
        Ok(Some(_)) => Err(GitConfigError::NotABoolean),
    }
}

/// What a read of `git.execute_in_store` found, by kind.
pub open spec fn found_model(r: Option<Option<SToml>>) -> Result<Option<SFound>, ReadError> {
    match r {
        None => Err(ReadError::Lookup),
        Some(None) => Ok(None),
        Some(Some(SToml::Boolean(b))) => Ok(Some(SFound::Boolean(b))),
        Some(Some(_)) => Ok(Some(SFound::Other)),
    }
}

/// Whether `git` runs in the store, from `git.execute_in_store` of the
/// configuration.
pub fn execute_in_store(config: Option<&toml::Value>) -> (res: Result<bool, GitConfigError>)
    ensures
        match config {
            None => res == Err::<bool, GitConfigError>(GitConfigError::NoConfiguration),
            Some(c) => res == spec_execute_in_store(
                found_model(spec_read(toml_model(*c), "git.execute_in_store"@)),
            ),
        },
{
    let cfg = match config {
        None => {
            return Err(GitConfigError::NoConfiguration);
        },
        Some(c) => c,
    };
    let found = match read_checked(cfg, "git.execute_in_store") {
        Err(e) => Err(e),
        Ok(None) => Ok(None),
        Ok(Some(v)) => Ok(Some(shape_of(v))),
    };
    assert(found_of(found) == found_model(spec_read(toml_model(*cfg), "git.execute_in_store"@)));
    execute_in_store_from(found)
}

/// The arguments `imag-git` calls `git` with: `-C` and the directory, the
/// arguments given, then the subcommand and its arguments where one is
/// given.
pub open spec fn spec_git_arguments(
    dir: Seq<char>,
    args: Seq<Seq<char>>,
    subcommand: Option<(Seq<char>, Seq<Seq<char>>)>,
) -> Seq<Seq<char>> {
    seq!["-C"@, dir] + args + match subcommand {
        Some((s, sargs)) => seq![s] + sargs,
        None => Seq::empty(),
    }
}

fn push_all(v: &mut Vec<String>, items: Vec<String>)
    ensures
        texts_view(final(v)@) == texts_view(old(v)@) + texts_view(items@),
{
    let ghost start = texts_view(v@);
    let ghost iv = texts_view(items@);
    let mut k: usize = 0;
    while k < items.len()
        invariant
            k <= items.len(),
            iv == texts_view(items@),
            texts_view(v@) == start + iv.take(k as int),
        decreases items.len() - k,
    {
        let s = items[k].clone();
        let ghost before = texts_view(v@);
        v.push(s);
        proof {
            assert(iv[k as int] == items@[k as int]@);
            assert(texts_view(v@) =~= before.push(iv[k as int]));
            assert(iv.take(k + 1) =~= iv.take(k as int).push(iv[k as int]));
        }
        k = k + 1;
    }
    assert(iv.take(iv.len() as int) =~= iv);
}

/// The arguments `imag-git` calls `git` with.
pub fn git_arguments(dir: String, args: Vec<String>, subcommand: Option<(String, Vec<String>)>) -> (res: Vec<String>)
    ensures
        texts_view(res@) == spec_git_arguments(
            dir@,
            texts_view(args@),
            match subcommand {
                Some((s, sargs)) => Some((s@, texts_view(sargs@))),
                None => None,
            },
        ),
{
    let ghost head = seq!["-C"@, dir@];
    let ghost av = texts_view(args@);
    let mut res: Vec<String> = Vec::new();
    res.push("-C".to_owned());
    res.push(dir);
    assert(texts_view(res@) =~= head);
    push_all(&mut res, args);
    match subcommand {
        Some((s, sargs)) => {
            let ghost before = texts_view(res@);
            let ghost sv = s@;
            let ghost rest = texts_view(sargs@);
            res.push(s);
            assert(texts_view(res@) =~= before.push(sv));
            push_all(&mut res, sargs);
            assert(texts_view(res@) =~= head + av + (seq![sv] + rest));
        },
        None => {
            assert(texts_view(res@) =~= head + av + Seq::<Seq<char>>::empty());
        },
    }
    res
}

/// The commands `imag-init` runs to set up a repository in the imag
/// directory `path`: `init`, then `add` and `commit` of the ignore file
/// `gitignore`, each with the work tree and git directory given.
pub open spec fn spec_init_commands(path: Seq<char>, gitignore: Seq<char>) -> Seq<Seq<Seq<char>>> {
    let worktree = "--work-tree="@ + path;
    let gitdir = "--git-dir="@ + path + "/.git"@;
    seq![
        seq![worktree, gitdir, "--no-pager"@, "init"@],
        seq![worktree, gitdir, "--no-pager"@, "add"@, gitignore],
        seq![worktree, gitdir, "--no-pager"@, "commit"@, gitignore, "-m"@, "'Initial import'"@],
    ]
}

pub open spec fn commands_view(v: Seq<Vec<String>>) -> Seq<Seq<Seq<char>>> {
    v.map_values(|c: Vec<String>| texts_view(c@))
}

/// The commands `imag-init` runs to set up a repository.
pub fn init_commands(path: &str, gitignore: &str) -> (res: Vec<Vec<String>>)
    ensures
        commands_view(res@) == spec_init_commands(path@, gitignore@),
{
    let mut worktree = "--work-tree=".to_owned();
    append_str(&mut worktree, path);
    let mut gitdir = "--git-dir=".to_owned();
    append_str(&mut gitdir, path);
    append_str(&mut gitdir, "/.git");
    let init = vec![worktree.clone(), gitdir.clone(), "--no-pager".to_owned(), "init".to_owned()];
    let add = vec![
        worktree.clone(),
        gitdir.clone(),
        "--no-pager".to_owned(),
        "add".to_owned(),
        gitignore.to_owned(),
    ];
    let commit = vec![
        worktree,
        gitdir,
        "--no-pager".to_owned(),
        "commit".to_owned(),
        gitignore.to_owned(),
        "-m".to_owned(),
        "'Initial import'".to_owned(),
    ];
    let res = vec![init, add, commit];
    proof {
        assert(texts_view(res@[0]@) =~= spec_init_commands(path@, gitignore@)[0]);
        assert(texts_view(res@[1]@) =~= spec_init_commands(path@, gitignore@)[1]);
        assert(texts_view(res@[2]@) =~= spec_init_commands(path@, gitignore@)[2]);
        assert(commands_view(res@) =~= spec_init_commands(path@, gitignore@));
    }
    res
}

} // verus!
