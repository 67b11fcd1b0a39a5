//! Where the programs keep their files: the state directory shared by the
//! extension, the watcher and the daemon, and the editor's log.
use vstd::prelude::*;
use crate::path::{join, join_path};

verus! {

/// `dirs::state_dir`, as text (`Path::to_string_lossy`). Nothing is stated
/// of the result: it comes from the environment (`XDG_STATE_HOME`, else the
/// home directory), and it is `None` where neither gives a directory.
#[verifier::external_body]
fn user_state_dir() -> (r: Option<String>) {
    match dirs::state_dir() {
        Some(p) => Some(p.to_string_lossy().into_owned()),
        None => None,
    }
}

/// `dirs::data_local_dir`, as text (`Path::to_string_lossy`). Nothing is
/// stated of the result: it comes from the environment (`XDG_DATA_HOME`,
/// else the home directory), and it is `None` where neither gives one.
#[verifier::external_body]
fn user_data_local_dir() -> (r: Option<String>) {
    match dirs::data_local_dir() {
        Some(p) => Some(p.to_string_lossy().into_owned()),
        None => None,
    }
}

/// The directory all three programs keep their state in.
pub open spec fn app_dir_name() -> Seq<char> {
    "zed-discord-rpc"@
}

/// The daemon's state directory under the user's state directory `base`,
/// or under `/tmp` when there is none.
pub open spec fn daemon_state_dir(base: Option<Seq<char>>) -> Seq<char> {
    match base {
        Some(b) => join(b, app_dir_name()),
        None => join("/tmp"@, app_dir_name()),
    }
}

/// The daemon's state directory for a given user state directory.
pub fn daemon_state_dir_from(base: Option<String>) -> (r: String)
    ensures
        r@ == daemon_state_dir(base.deep_view()),
{
    match base {
        Some(b) => join_path(b.as_str(), "zed-discord-rpc"),
        None => join_path("/tmp", "zed-discord-rpc"),
    }
}

/// The daemon's state directory. The directory itself is created by the
/// caller.
pub fn state_dir() -> (r: String)
    ensures
        exists|base: Option<Seq<char>>| r@ == daemon_state_dir(base),
{
    daemon_state_dir_from(user_state_dir())
}

/// The file the extension and the watcher write the current workspace to.
pub fn state_file() -> (r: String)
    ensures
        exists|base: Option<Seq<char>>| r@ == join(daemon_state_dir(base), "workspace.json"@),
{
    let dir = state_dir();
    join_path(dir.as_str(), "workspace.json")
}

/// The file the daemon saves every workspace it has met to.
pub fn all_workspaces_file() -> (r: String)
    ensures
        exists|base: Option<Seq<char>>| r@ == join(daemon_state_dir(base), "workspaces.json"@),
{
    let dir = state_dir();
    join_path(dir.as_str(), "workspaces.json")
}

/// The daemon's two files sit in its state directory and differ only in
/// their last name: whatever the user's state directory `base`,
/// `join(dir, name)` is the directory, a `/`, and the name.
pub proof fn lemma_daemon_files_share_dir(base: Option<Seq<char>>)
    ensures
        daemon_state_dir(base).len() > 0,
        join(daemon_state_dir(base), "workspace.json"@) == daemon_state_dir(base) + "/workspace.json"@,
        join(daemon_state_dir(base), "workspaces.json"@) == daemon_state_dir(base) + "/workspaces.json"@,
{
    reveal_strlit("zed-discord-rpc");
    reveal_strlit("/tmp");
    reveal_strlit("workspace.json");
    reveal_strlit("workspaces.json");
    reveal_strlit("/workspace.json");
    reveal_strlit("/workspaces.json");
    let d = daemon_state_dir(base);
    assert(d.len() > 0 && d.last() == 'c');
    assert(join(d, "workspace.json"@) =~= d + "/workspace.json"@);
    assert(join(d, "workspaces.json"@) =~= d + "/workspaces.json"@);
}

/// The editor's log under the user's local data directory `base`, or under
/// `/tmp` when there is none.
pub open spec fn daemon_zed_log(base: Option<Seq<char>>) -> Seq<char> {
    match base {
        Some(b) => join(b, "zed/logs/Zed.log"@),
        None => join("/tmp"@, "zed/logs/Zed.log"@),
    }
}

/// The editor's log as the daemon finds it, for a given data directory.
pub fn zed_log_from(base: Option<String>) -> (r: String)
    ensures
        r@ == daemon_zed_log(base.deep_view()),
{
    match base {
        Some(b) => join_path(b.as_str(), "zed/logs/Zed.log"),
        None => join_path("/tmp", "zed/logs/Zed.log"),
    }
}

/// The editor's log as the daemon finds it.
pub fn zed_log() -> (r: String)
    ensures
        exists|base: Option<Seq<char>>| r@ == daemon_zed_log(base),
{
    zed_log_from(user_data_local_dir())
}

/// The extension's state directory for a given user state directory; an
/// error when there is none.
pub fn extension_state_dir_from(base: Option<String>) -> (r: Result<String, String>)
    ensures
        match base {
            Some(b) => r matches Ok(d) && d@ == join(b@, app_dir_name()),
            None => r matches Err(e) && e@ == "Cannot determine state directory"@,
        },
{
    match base {
        Some(b) => Ok(join_path(b.as_str(), "zed-discord-rpc")),
        None => Err(String::from_str("Cannot determine state directory")),
    }
}

/// The extension's state directory; an error when the environment gives no
/// state directory.
pub fn extension_state_dir() -> (r: Result<String, String>)
    ensures
        match r {
            Ok(d) => exists|b: Seq<char>| d@ == join(b, app_dir_name()),
            Err(e) => e@ == "Cannot determine state directory"@,
        },
{
    extension_state_dir_from(user_state_dir())
}

/// The watcher's state file under the user's state directory `base`.
pub open spec fn watcher_state_file(base: Seq<char>) -> Seq<char> {
    join(join(base, app_dir_name()), "workspace.json"@)
}

/// The watcher's state file for a given user state directory, if any.
pub fn state_file_from(base: Option<String>) -> (r: Option<String>)
    ensures
        match base {
            Some(b) => r matches Some(f) && f@ == watcher_state_file(b@),
            None => r is None,
        },
{
    match base {
        Some(b) => {
            let dir = join_path(b.as_str(), "zed-discord-rpc");
            Some(join_path(dir.as_str(), "workspace.json"))
        },
        None => None,
    }
}

/// The watcher's state file; `None` when the environment gives no state
/// directory (the watcher then stops with "Cannot determine state
/// directory").
pub fn get_state_file() -> (r: Option<String>)
    ensures
        r matches Some(f) ==> exists|b: Seq<char>| f@ == watcher_state_file(b),
{
    state_file_from(user_state_dir())
}

/// The editor's log under the user's local data directory `base`, as the
/// watcher builds it.
pub open spec fn watcher_zed_log(base: Seq<char>) -> Seq<char> {
    join(join(join(base, "zed"@), "logs"@), "Zed.log"@)
}

/// The watcher's view of the editor's log for a given data directory.
pub fn zed_log_in(base: Option<String>) -> (r: Option<String>)
    ensures
        match base {
            Some(b) => r matches Some(f) && f@ == watcher_zed_log(b@),
            None => r is None,
        },
{
    match base {
        Some(b) => {
            let a = join_path(b.as_str(), "zed");
            let l = join_path(a.as_str(), "logs");
            Some(join_path(l.as_str(), "Zed.log"))
        },
        None => None,
    }
}

/// The editor's log as the watcher finds it; `None` when the environment
/// gives no data directory (the watcher then stops with "Cannot determine
/// data directory").
pub fn get_zed_log() -> (r: Option<String>)
    ensures
        r matches Some(f) ==> exists|b: Seq<char>| f@ == watcher_zed_log(b),
{
    zed_log_in(user_data_local_dir())
}

} // verus!
