//! Settings: which files the screen describes and the escape hatch edits, which running
//! sessions a restart may stop, and which writes reach a running session live.
//!
//! The settings data — the catalogue of keys, the write flow, the screen model — belongs to
//! the engine's settings crate, and the reads, writes and restarts are the host's.
use vstd::prelude::*;

use crate::session::ControlFlags;
use crate::text::{join, join_path, join_from, join_spec, str_eq};
use crate::order::views;

verus! {

/// How long a sidecar gets to exit cleanly before it is killed, in seconds.
pub const SHUTDOWN_GRACE_SECS: u64 = 5;

/// The two names the global config file can have under the agent directory: the one the
/// engine writes, and the one it also reads.
pub fn global_config_candidates(agent_dir: &str) -> (r: (String, String))
    ensures
        r.0@ == join_path(agent_dir@, "config.yml"@),
        r.1@ == join_path(agent_dir@, "config.yaml"@),
{
    (join(agent_dir, "config.yml"), join(agent_dir, "config.yaml"))
}

/// The global config file the screen describes and the hatch edits: `config.yml` when it
/// exists; else `config.yaml` when that is the file in use; else `config.yml`, which the
/// first write creates.
pub fn global_config_file(agent_dir: &str, canonical_exists: bool, compatibility_exists: bool) -> (r: String)
    ensures
        r@ == if !canonical_exists && compatibility_exists {
            join_path(agent_dir@, "config.yaml"@)
        } else {
            join_path(agent_dir@, "config.yml"@)
        },
{
    if canonical_exists {
        return join(agent_dir, "config.yml");
    }
    if compatibility_exists {
        return join(agent_dir, "config.yaml");
    }
    join(agent_dir, "config.yml")
}

/// `<workspace>/.omp/config.yml`, the project layer's one file.
pub fn project_config_file(workspace: &str) -> (r: String)
    ensures
        r@ == join_path(join_path(workspace@, ".omp"@), "config.yml"@),
{
    let dir = join(workspace, ".omp");
    join(dir.as_str(), "config.yml")
}

/// Why a session may not be restarted now, when it may not: its state could not be read
/// (`None`), a turn is in flight, or a compaction is running. The fallback is always to
/// leave it running.
pub open spec fn mid_turn_spec(control: Option<ControlFlags>) -> Option<Seq<char>> {
    match control {
        None => Some("its state could not be read, so it is not safe to stop"@),
        Some(c) => if c.is_streaming {
            Some("a turn is in flight"@)
        } else if c.is_compacting {
            Some("a compaction is running"@)
        } else {
            None
        },
    }
}

/// Why a session may not be restarted now, when it may not.
pub fn mid_turn(control: Option<ControlFlags>) -> (r: Option<String>)
    ensures
        crate::dto::opt_view(r) == mid_turn_spec(control),
{
    match control {
        None => Some("its state could not be read, so it is not safe to stop".to_owned()),
        Some(c) => if c.is_streaming {
            Some("a turn is in flight".to_owned())
        } else if c.is_compacting {
            Some("a compaction is running".to_owned())
        } else {
            None
        },
    }
}

/// Whether a hand-edit needs a backup of the file it changes: not when the newest backup
/// already holds the file's content, so a second copy never buries the first change of a
/// session. `newest` is the newest backup's content, when there is one that could be read.
pub fn backup_needed(current: &[u8], newest: Option<&[u8]>) -> (r: bool)
    ensures
        r == !(newest matches Some(copy) && copy@ == current@),
{
    match newest {
        None => true,
        Some(copy) => {
            if copy.len() != current.len() {
                return true;
            }
            let mut i: usize = 0;
            while i < copy.len()
                invariant
                    i <= copy@.len(),
                    copy@.len() == current@.len(),
                    newest == Some(copy),
                    forall|k: int| 0 <= k < i ==> copy@[k] == current@[k],
                decreases copy@.len() - i,
            {
                if copy[i] != current[i] {
                    assert(copy@[i as int] != current@[i as int]);
                    return true;
                }
                i = i + 1;
            }
            assert(copy@ =~= current@);
            false
        },
    }
}

/// Which file the escape hatch edits.
#[derive(Debug, Clone, Copy, PartialEq, Eq)]
pub enum HatchScope {
    Global,
    Project,
}

/// The scope a request names: `global` when it names none, and a refusal by name for a
/// scope there is no file for.
pub fn hatch_scope(scope: Option<&str>) -> (r: Result<HatchScope, String>)
    ensures
        match scope {
            None => r == Ok::<HatchScope, String>(HatchScope::Global),
            Some(s) => if s@ == "global"@ {
                r == Ok::<HatchScope, String>(HatchScope::Global)
            } else if s@ == "project"@ {
                r == Ok::<HatchScope, String>(HatchScope::Project)
            } else {
                r matches Err(e) && e@ == "`"@ + s@ + "` is not a config scope — the escape hatch edits `global` or `project`"@
            },
        },
{
    match scope {
        None => Ok(HatchScope::Global),
        Some(s) => {
            if str_eq(s, "global") {
                Ok(HatchScope::Global)
            } else if str_eq(s, "project") {
                Ok(HatchScope::Project)
            } else {
                let mut m = "`".to_owned();
                m.append(s);
                m.append("` is not a config scope — the escape hatch edits `global` or `project`");
                Err(m)
            }
        },
    }
}

/// The refusal of a project scope with no session open to name a workspace.
pub open spec fn no_thread_message() -> Seq<char> {
    "the project config file is <workspace>/.omp/config.yml, and no session is open to name a workspace"@
}

/// The thread a project scope needs, or the refusal when none is open.
pub fn project_thread(thread: Option<&str>) -> (r: Result<&str, String>)
    ensures
        match thread {
            Some(t) => r == Ok::<&str, String>(t),
            None => r matches Err(e) && e@ == no_thread_message(),
        },
{
    match thread {
        Some(t) => Ok(t),
        None => Err("the project config file is <workspace>/.omp/config.yml, and no session is open to name a workspace".to_owned()),
    }
}

/// The refusal of a project scope for a thread whose workspace is unknown.
pub fn no_workspace(thread: &str) -> (r: String)
    ensures
        r@ == "no workspace is known for session `"@ + thread@ + "`, so its `.omp/config.yml` cannot be found"@,
{
    let mut m = "no workspace is known for session `".to_owned();
    m.append(thread);
    m.append("`, so its `.omp/config.yml` cannot be found");
    m
}

/// A setting the engine takes live, through the setter that key already has.
#[derive(Debug, Clone, Copy, PartialEq, Eq)]
pub enum LiveSetter {
    ThinkingLevel,
    AutoCompaction,
    SteeringMode,
    FollowUpMode,
    InterruptMode,
    AutoRetry,
}

/// The live setter a key goes through; the six keys and nothing else.
pub open spec fn setter_spec(key: Seq<char>) -> Option<LiveSetter> {
    if key == "defaultThinkingLevel"@ {
        Some(LiveSetter::ThinkingLevel)
    } else if key == "compaction.enabled"@ {
        Some(LiveSetter::AutoCompaction)
    } else if key == "steeringMode"@ {
        Some(LiveSetter::SteeringMode)
    } else if key == "followUpMode"@ {
        Some(LiveSetter::FollowUpMode)
    } else if key == "interruptMode"@ {
        Some(LiveSetter::InterruptMode)
    } else if key == "retry.enabled"@ {
        Some(LiveSetter::AutoRetry)
    } else {
        None
    }
}

/// The live setter a key goes through, or the refusal for a key this build has none for.
pub fn live_setter(key: &str) -> (r: Result<LiveSetter, String>)
    ensures
        match setter_spec(key@) {
            Some(s) => r == Ok::<LiveSetter, String>(s),
            None => r matches Err(e) && e@ == "this build has no live setter for `"@ + key@ + "`"@,
        },
{
    if str_eq(key, "defaultThinkingLevel") {
        Ok(LiveSetter::ThinkingLevel)
    } else if str_eq(key, "compaction.enabled") {
        Ok(LiveSetter::AutoCompaction)
    } else if str_eq(key, "steeringMode") {
        Ok(LiveSetter::SteeringMode)
    } else if str_eq(key, "followUpMode") {
        Ok(LiveSetter::FollowUpMode)
    } else if str_eq(key, "interruptMode") {
        Ok(LiveSetter::InterruptMode)
    } else if str_eq(key, "retry.enabled") {
        Ok(LiveSetter::AutoRetry)
    } else {
        let mut m = "this build has no live setter for `".to_owned();
        m.append(key);
        m.append("`");
        Err(m)
    }
}

/// What a live write's message says after the push: that a running session keeps its value
/// when the engine reports none to push, or which sessions did not take it.
pub open spec fn live_note_spec(value_known: bool, failures: Seq<Seq<char>>) -> Seq<char> {
    if !value_known {
        " The engine reports no value for it now, so a running session keeps the one it has."@
    } else if failures.len() == 0 {
        Seq::empty()
    } else {
        " Not every live session took it: "@ + join_spec(failures, "; "@) + "."@
    }
}

/// What a live write's message says after the push.
pub fn live_note(value_known: bool, failures: &Vec<String>) -> (r: String)
    ensures
        r@ == live_note_spec(value_known, views(failures@)),
{
    if !value_known {
        return " The engine reports no value for it now, so a running session keeps the one it has.".to_owned();
    }
    if failures.len() == 0 {
        proof {
            reveal_strlit("");
        }
        let empty = "";
        assert(empty@ =~= Seq::<char>::empty());
        return empty.to_owned();
    }
    let mut m = " Not every live session took it: ".to_owned();
    assert(views(failures@).skip(0) =~= views(failures@));
    m.append(join_from(failures, 0, "; ").as_str());
    m.append(".");
    m
}

/// A session that is mid-turn, or whose state cannot be read, is never stopped by a
/// restart; only one known to be idle is.
pub proof fn law_restarts_never_stop_a_running_turn(control: Option<ControlFlags>)
    ensures
        mid_turn_spec(control) is None <==> (control is Some && !control->0.is_streaming && !control->0.is_compacting),
{
}

} // verus!
