//! Shell command lines that open and switch terminal multiplexer sessions.

use vstd::prelude::*;

verus! {

/// Command that starts a detached session named `session_name` in `path`.
pub fn new_session_command(session_name: &str, path: &str) -> (command: String)
    ensures
        command@ == "tmux new-session -ds "@ + session_name@ + " -c "@ + path@,
{
    let mut command = String::from_str("tmux new-session -ds ");
    command.append(session_name);
    command.append(" -c ");
    command.append(path);
    command
}

/// Command that switches the client to the session named `session_name`.
pub fn switch_session_command(session_name: &str) -> (command: String)
    ensures
        command@ == "tmux switch-client -t "@ + session_name@,
{
    let mut command = String::from_str("tmux switch-client -t ");
    command.append(session_name);
    command
}

} // verus!
