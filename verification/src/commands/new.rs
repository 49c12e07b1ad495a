//! The making of a new project, step by step.
use crate::commands::templates::new_templates::{main_template, main_text};
use crate::utils::tree::{join, join_path};
use vstd::prelude::*;

verus! {

/// What the caller of `create_new_project` is to do next.
pub enum Action {
    /// Run `cargo` with these arguments, in the directory of the new
    /// project or in the working directory.
    Run { args: Vec<String>, in_project: bool },
    /// Write the file.
    Write { path: String, content: String },
    /// Nothing is left to do.
    Finish,
    /// The command that ran last has failed: stop, with this message.
    Abort { message: String },
}

/// An action, in specifications.
pub enum Step {
    Run(Seq<Seq<char>>, bool),
    Write(Seq<char>, Seq<char>),
    Finish,
    Abort(Seq<char>),
}

impl View for Action {
    type V = Step;

    open spec fn view(&self) -> Step {
        match self {
            Action::Run { args, in_project } => Step::Run(
                args@.map_values(|s: String| s@),
                *in_project,
            ),
            Action::Write { path, content } => Step::Write(path@, content@),
            Action::Finish => Step::Finish,
            Action::Abort { message } => Step::Abort(message@),
        }
    }
}

/// How many commands run before the composition root is written: the one
/// that makes the project, and one for each dependency.
pub const COMMANDS: usize = 5;

/// The arguments of the command with the number `k`: the first makes the
/// project `name`, the others add one dependency each.
pub open spec fn command(name: Seq<char>, k: int) -> Seq<Seq<char>> {
    if k == 0 {
        seq!["new"@, name]
    } else if k == 1 {
        seq!["add"@, "axum"@]
    } else if k == 2 {
        seq!["add"@, "tokio@1"@, "--features"@, "full"@]
    } else if k == 3 {
        seq!["add"@, "once_cell"@]
    } else {
        seq!["add"@, "serde"@, "--features"@, "derive"@]
    }
}

/// What is said when the command with the number `k` has failed.
pub open spec fn failure_message(k: int) -> Seq<char> {
    if k == 0 {
        "Failed to create new Cargo project"@
    } else if k == 1 {
        "Failed to add dependency: axum"@
    } else if k == 2 {
        "Failed to add dependency: tokio@1 --features full"@
    } else if k == 3 {
        "Failed to add dependency: once_cell"@
    } else {
        "Failed to add dependency: serde --features derive"@
    }
}

/// The path of the composition root of the project `name`.
pub open spec fn project_main(name: Seq<char>) -> Seq<char> {
    join(name, "src/main.rs"@)
}

/// What is to be done once `done` steps are behind, the last of which
/// ended well or not. The commands run one after the other; a command
/// that fails ends everything, before the composition root is written;
/// the composition root is written after the last command, and nothing
/// comes after it.
pub open spec fn next_step(name: Seq<char>, done: int, last_succeeded: bool) -> Step {
    if done > COMMANDS {
        Step::Finish
    } else if done > 0 && !last_succeeded {
        Step::Abort(failure_message(done - 1))
    } else if done < COMMANDS {
        Step::Run(command(name, done), done > 0)
    } else {
        Step::Write(project_main(name), main_text())
    }
}

/// The arguments of the command with the number `k`.
fn command_of(name: &str, k: usize) -> (args: Vec<String>)
    ensures
        args@.map_values(|s: String| s@) == command(name@, k as int),
{
    let mut args: Vec<String> = Vec::new();
    if k == 0 {
        args.push("new".to_owned());
        args.push(name.to_owned());
    } else if k == 1 {
        args.push("add".to_owned());
        args.push("axum".to_owned());
    } else if k == 2 {
        args.push("add".to_owned());
        args.push("tokio@1".to_owned());
        args.push("--features".to_owned());
        args.push("full".to_owned());
    } else if k == 3 {
        args.push("add".to_owned());
        args.push("once_cell".to_owned());
    } else {
        args.push("add".to_owned());
        args.push("serde".to_owned());
        args.push("--features".to_owned());
        args.push("derive".to_owned());
    }
    assert(args@.map_values(|s: String| s@) =~= command(name@, k as int));
    args
}

/// What is said when the command with the number `k` has failed.
fn failure_message_of(k: usize) -> (message: String)
    ensures
        message@ == failure_message(k as int),
{
    if k == 0 {
        "Failed to create new Cargo project".to_owned()
    } else if k == 1 {
        "Failed to add dependency: axum".to_owned()
    } else if k == 2 {
        "Failed to add dependency: tokio@1 --features full".to_owned()
    } else if k == 3 {
        "Failed to add dependency: once_cell".to_owned()
    } else {
        "Failed to add dependency: serde --features derive".to_owned()
    }
}

/// Decides the next step of the making of the project `name`. `done`
/// counts the actions that the caller has carried out so far, and
/// `last_succeeded` says how the last of them ended; before the first
/// action it is not looked at.
pub fn create_new_project(name: String, done: usize, last_succeeded: bool) -> (action: Action)
    ensures
        action@ == next_step(name@, done as int, last_succeeded),
{
    if done > COMMANDS {
        Action::Finish
    } else if done > 0 && !last_succeeded {
        Action::Abort { message: failure_message_of(done - 1) }
    } else if done < COMMANDS {
        Action::Run { args: command_of(name.as_str(), done), in_project: done > 0 }
    } else {
        Action::Write {
            path: join_path(name.as_str(), "src/main.rs"),
            content: main_template(name.as_str()),
        }
    }
}

} // verus!
