//! What the engine reports of the management commands it carries out.

use vstd::prelude::*;

use crate::cache::manager::EvictionReport;
use crate::engine::EngineStatus;
use crate::manage::command;
use crate::manage::Grant;
use crate::text;

verus! {

/// What a restart reports.
pub const RESTARTED: &'static str = "daemon cache-manager worker restarted (sync runner unaffected — full restart requires restarting the daemon)";

/// What a stop reports.
pub const STOPPED: &'static str = "daemon background workers (cache eviction and backend sync) signalled to stop";

/// Why a backend cannot be added to a node without a backend factory.
pub const NO_BACKEND_FACTORY: &'static str = "this node cannot add backends: no backend factory is configured";

/// Why a token cannot be verified on a node without a device identity.
pub const NO_DEVICE_IDENTITY: &'static str = "no P2P backend configured — the node has no device identity to verify a capability token against";

/// Why a session cannot be opened on a node without an exec provider.
pub const NO_EXEC_PROVIDER: &'static str = "no exec provider configured — this node cannot broker terminals or processes";

/// The name that stands for the shell of a session that asks for none.
pub const DEFAULT_SHELL: &'static str = "<default shell>";

/// The name that stands for an empty command line.
pub const EMPTY_ARGV: &'static str = "<empty argv>";

/// A status in one line.
pub fn status_summary(status: &EngineStatus) -> (r: String)
    ensures
        r@ == "running="@ + text::bool_text(status.running) + " backends="@ + text::decimal(
            status.backends@.len() as int,
        ) + " online="@ + text::decimal(status.cache_stats.online_count as int) + " cached="@
            + text::decimal(status.cache_stats.cached_count as int) + " pinned="@ + text::decimal(
            status.cache_stats.pinned_count as int,
        ) + " p2p_enabled="@ + text::bool_text(status.p2p_enabled),
{
    let mut m: String = "running=".to_owned();
    m.append(text::bool_str(status.running));
    m.append(" backends=");
    m.append(text::u64_text(status.backends.len() as u64).as_str());
    m.append(" online=");
    m.append(text::u64_text(status.cache_stats.online_count as u64).as_str());
    m.append(" cached=");
    m.append(text::u64_text(status.cache_stats.cached_count as u64).as_str());
    m.append(" pinned=");
    m.append(text::u64_text(status.cache_stats.pinned_count as u64).as_str());
    m.append(" p2p_enabled=");
    m.append(text::bool_str(status.p2p_enabled));
    m
}

/// What pinning reports.
pub fn pin_summary(path_glob: &str, recursive: bool) -> (r: String)
    ensures
        r@ == "pinned "@ + path_glob@ + " (recursive="@ + text::bool_text(recursive) + ")"@,
{
    let mut m: String = "pinned ".to_owned();
    m.append(path_glob);
    m.append(" (recursive=");
    m.append(text::bool_str(recursive));
    m.append(")");
    m
}

/// What unpinning reports, by whether a rule was removed.
pub fn unpin_summary(path_glob: &str, removed: bool) -> (r: String)
    ensures
        r@ == (if removed {
            "unpinned "@
        } else {
            "no pin rule matched "@
        }) + path_glob@,
{
    let mut m: String = if removed {
        "unpinned ".to_owned()
    } else {
        "no pin rule matched ".to_owned()
    };
    m.append(path_glob);
    m
}

/// What an eviction sweep reports.
pub fn evict_summary(report: &EvictionReport) -> (r: String)
    requires
        report.total() <= usize::MAX,
    ensures
        r@ == "evicted "@ + text::decimal(report.total()) + " files ("@ + text::decimal(
            report.lifecycle_evicted as int,
        ) + " lifecycle, "@ + text::decimal(report.size_evicted as int) + " size), freed "@
            + text::decimal(report.bytes_freed as int) + " bytes"@,
{
    let mut m: String = "evicted ".to_owned();
    m.append(text::u64_text(report.total_evicted() as u64).as_str());
    m.append(" files (");
    m.append(text::u64_text(report.lifecycle_evicted as u64).as_str());
    m.append(" lifecycle, ");
    m.append(text::u64_text(report.size_evicted as u64).as_str());
    m.append(" size), freed ");
    m.append(text::u64_text(report.bytes_freed).as_str());
    m.append(" bytes");
    m
}

/// What warming reports.
pub fn warm_summary(path_glob: &str) -> (r: String)
    ensures
        r@ == "warmed "@ + path_glob@,
{
    let mut m: String = "warmed ".to_owned();
    m.append(path_glob);
    m
}

/// What setting a lifecycle policy reports.
pub fn policy_summary(path_glob: &str) -> (r: String)
    ensures
        r@ == "lifecycle policy set for "@ + path_glob@,
{
    let mut m: String = "lifecycle policy set for ".to_owned();
    m.append(path_glob);
    m
}

/// What adding a backend reports.
pub fn backend_added_summary(name: &str, backend_type: &str, mount_path: &str) -> (r: String)
    ensures
        r@ == "backend "@ + name@ + " ("@ + backend_type@ + ") added at "@ + mount_path@,
{
    let mut m: String = "backend ".to_owned();
    m.append(name);
    m.append(" (");
    m.append(backend_type);
    m.append(") added at ");
    m.append(mount_path);
    m
}

/// What removing a backend reports, by whether one was registered.
pub fn backend_removed_summary(name: &str, mount_path: &str, removed: bool) -> (r: String)
    ensures
        r@ == (if removed {
            "backend "@ + name@ + " removed from "@ + mount_path@
        } else {
            "no backend named "@ + name@ + " was registered"@
        }),
{
    if removed {
        let mut m: String = "backend ".to_owned();
        m.append(name);
        m.append(" removed from ");
        m.append(mount_path);
        m
    } else {
        let mut m: String = "no backend named ".to_owned();
        m.append(name);
        m.append(" was registered");
        m
    }
}

/// What storing a grant reports.
pub fn grant_added_summary(id: i64, grant: &Grant) -> (r: String)
    ensures
        r@ == "grant "@ + text::decimal(id as int) + " added: "@ + grant.capability.wire()
            + " over "@ + command::scope_debug(grant.scope@) + " for "@ + grant.grantee@,
{
    let mut m: String = "grant ".to_owned();
    m.append(text::i64_text(id).as_str());
    m.append(" added: ");
    m.append(grant.capability.as_wire());
    m.append(" over ");
    m.append(command::scope_text(&grant.scope).as_str());
    m.append(" for ");
    m.append(grant.grantee.as_str());
    m
}

/// What revoking a grant reports, by whether there was one.
pub fn grant_revoked_summary(id: i64, removed: bool) -> (r: String)
    ensures
        r@ == (if removed {
            "grant "@ + text::decimal(id as int) + " revoked"@
        } else {
            "no grant with id "@ + text::decimal(id as int)
        }),
{
    if removed {
        let mut m: String = "grant ".to_owned();
        m.append(text::i64_text(id).as_str());
        m.append(" revoked");
        m
    } else {
        let mut m: String = "no grant with id ".to_owned();
        m.append(text::i64_text(id).as_str());
        m
    }
}

/// What writing to a session reports.
pub fn pty_write_summary(session: u64, bytes: usize) -> (r: String)
    ensures
        r@ == "wrote "@ + text::decimal(bytes as int) + " bytes to session "@ + text::decimal(
            session as int,
        ),
{
    let mut m: String = "wrote ".to_owned();
    m.append(text::u64_text(bytes as u64).as_str());
    m.append(" bytes to session ");
    m.append(text::u64_text(session).as_str());
    m
}

/// What resizing a terminal reports.
pub fn pty_resize_summary(session: u64, cols: u16, rows: u16) -> (r: String)
    ensures
        r@ == "resized session "@ + text::decimal(session as int) + " to "@ + text::decimal(
            cols as int,
        ) + "x"@ + text::decimal(rows as int),
{
    let mut m: String = "resized session ".to_owned();
    m.append(text::u64_text(session).as_str());
    m.append(" to ");
    m.append(text::u64_text(cols as u64).as_str());
    m.append("x");
    m.append(text::u64_text(rows as u64).as_str());
    m
}

/// What sending a signal to a session reports.
pub fn signal_summary(session: u64, signal: i32) -> (r: String)
    ensures
        r@ == "sent signal "@ + text::decimal(signal as int) + " to session "@ + text::decimal(
            session as int,
        ),
{
    let mut m: String = "sent signal ".to_owned();
    m.append(text::i64_text(signal as i64).as_str());
    m.append(" to session ");
    m.append(text::u64_text(session).as_str());
    m
}

/// What killing a process reports.
pub fn kill_summary(session: u64) -> (r: String)
    ensures
        r@ == "killed session "@ + text::decimal(session as int),
{
    let mut m: String = "killed session ".to_owned();
    m.append(text::u64_text(session).as_str());
    m
}

/// The command line of a terminal session, for the record.
pub open spec fn pty_command(shell: Option<Seq<char>>, argv: Seq<Seq<char>>) -> Seq<char> {
    let shell = text::text_or(shell, DEFAULT_SHELL@);
    if argv.len() == 0 {
        shell
    } else {
        shell + " "@ + text::joined(argv, " "@)
    }
}

/// The command line of a process, for the record.
pub open spec fn proc_command(argv: Seq<Seq<char>>) -> Seq<char> {
    if argv.len() == 0 {
        EMPTY_ARGV@
    } else {
        text::joined(argv, " "@)
    }
}

/// The command line of a terminal session, for the record.
pub fn pty_command_summary(shell: &Option<String>, argv: &Vec<String>) -> (r: String)
    ensures
        r@ == pty_command(text::opt_text(*shell), text::texts(argv@)),
{
    let mut m: String = match shell {
        Some(shell) => shell.clone(),
        None => DEFAULT_SHELL.to_owned(),
    };
    assert(text::texts(argv@).len() == argv@.len());
    if argv.len() > 0 {
        m.append(" ");
        m.append(text::join(argv, " ").as_str());
    }
    m
}

/// The command line of a process, for the record.
pub fn proc_command_summary(argv: &Vec<String>) -> (r: String)
    ensures
        r@ == proc_command(text::texts(argv@)),
{
    assert(text::texts(argv@).len() == argv@.len());
    if argv.len() == 0 {
        EMPTY_ARGV.to_owned()
    } else {
        text::join(argv, " ")
    }
}

/// The recorded command line of a terminal is its shell and then its arguments, and
/// that of a process its arguments alone, each behind a space.
pub proof fn law_a_command_line_lists_its_arguments(
    shell: Seq<char>,
    argv: Seq<Seq<char>>,
    last: Seq<char>,
)
    requires
        argv.len() > 0,
    ensures
        pty_command(Some(shell), Seq::empty()) == shell,
        pty_command(Some(shell), seq![last]) == shell + " "@ + last,
        pty_command(Some(shell), argv.push(last)) == pty_command(Some(shell), argv) + " "@ + last,
        proc_command(seq![last]) == last,
        proc_command(argv.push(last)) == proc_command(argv) + " "@ + last,
{
    let more = argv.push(last);
    assert(more.drop_last() == argv);
    assert(text::joined(more, " "@) == text::joined(argv, " "@) + " "@ + last);
    assert(pty_command(Some(shell), more) =~= pty_command(Some(shell), argv) + " "@ + last);
}

} // verus!
