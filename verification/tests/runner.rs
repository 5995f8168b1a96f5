use std::path::PathBuf;

use lazyscript::runner::{environment, exit_status, ProcStatus, Waited};
use lazyscript::source::CommandSpec;

#[test]
fn ends_are_told_apart() {
    let waited = |success, signalled, code| Some(Waited { success, signalled, code });
    assert_eq!(exit_status(waited(true, false, 0)), ProcStatus::Exited(0));
    assert_eq!(exit_status(waited(false, true, 1)), ProcStatus::Failed);
    assert_eq!(exit_status(waited(false, false, 3)), ProcStatus::Exited(3));
    assert_eq!(exit_status(waited(false, false, u32::MAX)), ProcStatus::Exited(-1));
    assert_eq!(exit_status(None), ProcStatus::Failed);
}

#[test]
fn the_terminal_is_named() {
    let spec = CommandSpec {
        program: "x".to_string(),
        args: Vec::new(),
        cwd: PathBuf::from("/"),
        env: vec![("A".to_string(), "1".to_string())],
    };
    let env = environment(&spec);
    assert_eq!(env.len(), 2);
    assert_eq!(env[0], ("TERM".to_string(), "xterm-256color".to_string()));
    assert_eq!(env[1], ("A".to_string(), "1".to_string()));
}
