//! Processes: how one stands, and how it ended.

use vstd::prelude::*;

use crate::source::{CommandSpec, CommandView};

verus! {

/// Tells processes apart.
pub type ProcId = u64;

/// How a process stands.
#[derive(Clone, Copy, Debug, PartialEq, Eq, Structural)]
pub enum ProcStatus {
    Running,
    Exited(i32),
    Failed,
}

/// What is heard of a process.
#[derive(Clone, Copy, Debug, PartialEq, Eq)]
pub enum ProcEvent {
    Exited { id: ProcId, status: ProcStatus },
}

/// A process that was started.
pub struct Process {
    /// The name of its script.
    pub script: String,
    pub status: ProcStatus,
}

/// A process by its texts.
#[verifier::ext_equal]
pub ghost struct ProcessView {
    pub script: Seq<char>,
    pub status: ProcStatus,
}

impl View for Process {
    type V = ProcessView;

    open spec fn view(&self) -> ProcessView {
        ProcessView { script: self.script@, status: self.status }
    }
}

/// What waiting for a process gave.
pub struct Waited {
    pub success: bool,
    /// Whether a signal ended it.
    pub signalled: bool,
    pub code: u32,
}

/// How a process ended. One that a signal ended has failed, which tells it from
/// one that left with code zero; so has one that could not be waited for.
pub open spec fn ended(waited: Option<Waited>) -> ProcStatus {
    match waited {
        Some(w) => if w.success {
            ProcStatus::Exited(0)
        } else if w.signalled {
            ProcStatus::Failed
        } else {
            ProcStatus::Exited(w.code as i32)
        },
        None => ProcStatus::Failed,
    }
}

/// How a process ended; `None` where waiting for it failed.
pub fn exit_status(waited: Option<Waited>) -> (status: ProcStatus)
    ensures
        status == ended(waited),
{
    match waited {
        Some(w) => if w.success {
            ProcStatus::Exited(0)
        } else if w.signalled {
            ProcStatus::Failed
        } else {
            ProcStatus::Exited(w.code as i32)
        },
        None => ProcStatus::Failed,
    }
}

/// The environment that a process is given on top of the application's own: the
/// terminal's kind, and what the command asks for.
pub open spec fn process_env(command: CommandView) -> Seq<(Seq<char>, Seq<char>)> {
    seq![("TERM"@, "xterm-256color"@)] + command.env
}

/// The environment that a process is given on top of the application's own. Of
/// two settings of one name the later counts.
pub fn environment(spec: &CommandSpec) -> (env: Vec<(String, String)>)
    ensures
        env@.map_values(|e: (String, String)| (e.0@, e.1@)) == process_env(spec@),
{
    let mut env: Vec<(String, String)> = Vec::new();
    env.push(("TERM".to_string(), "xterm-256color".to_string()));
    let mut i: usize = 0;
    while i < spec.env.len()
        invariant
            i <= spec.env.len(),
            env@.len() == i + 1,
            forall|k: int|
                0 <= k < i + 1 ==> ((#[trigger] env@[k]).0@, env@[k].1@) == process_env(spec@)[k],
        decreases spec.env.len() - i,
    {
        let entry = &spec.env[i];
        assert(spec@.env[i as int] == (entry.0@, entry.1@));
        env.push((entry.0.clone(), entry.1.clone()));
        i += 1;
    }
    assert(env@.map_values(|e: (String, String)| (e.0@, e.1@)) =~= process_env(spec@));
    env
}

/// A process that has ended is not running.
pub proof fn law_ended_is_not_running(waited: Option<Waited>)
    ensures
        ended(waited) != ProcStatus::Running,
{
}

} // verus!
