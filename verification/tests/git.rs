use imag::git::{execute_in_store, execute_in_store_from, git_arguments, init_commands, GitConfigError};
use imag::toml_access::{ReadError, ValueShape};

fn strings(v: &[&str]) -> Vec<String> {
    v.iter().map(|s| s.to_string()).collect()
}

#[test]
fn where_git_runs() {
    let cfg = "[git]\nexecute_in_store = true\n".parse::<toml::Value>().unwrap();
    assert_eq!(execute_in_store(Some(&cfg)), Ok(true));
    let cfg = "[git]\nexecute_in_store = false\n".parse::<toml::Value>().unwrap();
    assert_eq!(execute_in_store(Some(&cfg)), Ok(false));
    let cfg = "[git]\nexecute_in_store = \"yes\"\n".parse::<toml::Value>().unwrap();
    assert_eq!(execute_in_store(Some(&cfg)), Err(GitConfigError::NotABoolean));
    let cfg = "[git]\n".parse::<toml::Value>().unwrap();
    assert_eq!(execute_in_store(Some(&cfg)), Err(GitConfigError::Missing));
    let cfg = "git = 1\n".parse::<toml::Value>().unwrap();
    assert_eq!(execute_in_store(Some(&cfg)), Err(GitConfigError::ReadFailed));
    assert_eq!(execute_in_store(None), Err(GitConfigError::NoConfiguration));
    assert_eq!(execute_in_store_from(Err(ReadError::Lookup)), Err(GitConfigError::ReadFailed));
    assert_eq!(execute_in_store_from(Ok(Some(ValueShape::Boolean(true)))), Ok(true));
}

#[test]
fn git_is_called_in_the_directory() {
    assert_eq!(
        git_arguments("/home/u/.imag".to_string(), strings(&["--no-pager"]), Some(("log".to_string(), strings(&["-n", "1"])))),
        strings(&["-C", "/home/u/.imag", "--no-pager", "log", "-n", "1"])
    );
    assert_eq!(git_arguments("/s".to_string(), vec![], None), strings(&["-C", "/s"]));
}

#[test]
fn init_sets_up_a_repository() {
    let cmds = init_commands("/home/u/.imag", "/home/u/.imag/.gitignore");
    let w = "--work-tree=/home/u/.imag";
    let g = "--git-dir=/home/u/.imag/.git";
    assert_eq!(cmds.len(), 3);
    assert_eq!(cmds[0], strings(&[w, g, "--no-pager", "init"]));
    assert_eq!(cmds[1], strings(&[w, g, "--no-pager", "add", "/home/u/.imag/.gitignore"]));
    assert_eq!(
        cmds[2],
        strings(&[w, g, "--no-pager", "commit", "/home/u/.imag/.gitignore", "-m", "'Initial import'"])
    );
}
