//! Where the agent's IPC endpoint is.

use crate::text::chars_of;
use vstd::prelude::*;
use vstd::string::*;

verus! {

/// A path with one more component.
pub open spec fn path_join(base: Seq<char>, name: Seq<char>) -> Seq<char> {
    if base.len() == 0 {
        name
    } else if base.last() == '/' {
        base + name
    } else {
        base.push('/') + name
    }
}

/// The path of the agent's socket: the one that is set, else one in the runtime
/// directory, else one in `/tmp`.
pub open spec fn socket_path(setting: Option<Seq<char>>, runtime_dir: Option<Seq<char>>) -> Seq<
    char,
> {
    match setting {
        Some(p) => p,
        None => path_join(
            match runtime_dir {
                Some(d) => d,
                None => "/tmp"@,
            },
            "tunnet-agent.sock"@,
        ),
    }
}

pub open spec fn opt_seen(s: Option<&str>) -> Option<Seq<char>> {
    match s {
        Some(t) => Some(t@),
        None => None,
    }
}

/// Resolve the fixed agent IPC endpoint path.
pub fn default_ipc_path(setting: Option<&str>, runtime_dir: Option<&str>) -> (s: String)
    ensures
        s@ == socket_path(opt_seen(setting), opt_seen(runtime_dir)),
{
    if let Some(p) = setting {
        return p.to_owned();
    }
    let base: &str = match runtime_dir {
        Some(d) => d,
        None => "/tmp",
    };
    let v = chars_of(base);
    let mut s: String = base.to_owned();
    if v.len() == 0 {
        return "tunnet-agent.sock".to_owned();
    }
    if v[v.len() - 1] != '/' {
        s.push('/');
    }
    s.append("tunnet-agent.sock");
    s
}

/// The name of the agent's pipe on Windows.
pub fn pipe_name_for() -> (s: String)
    ensures
        s@ == "\\\\.\\pipe\\tunnet-agent"@,
{
    "\\\\.\\pipe\\tunnet-agent".to_owned()
}

} // verus!
