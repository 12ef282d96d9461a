//! Decisions about processes and port servers: the daemon's PID file and
//! lifecycle, which port servers run, and the reconciliation of the
//! stored port states with the servers this process owns.
use vstd::prelude::*;

use crate::cli::Command;
use crate::models::{method_name, MockApi, PortConfig};
use crate::text::{
    chars_of, decimal, decimal_int, i64_chars, parse_nat, parse_unsigned, push_all, push_str_chars, string_of, trim,
    trim_str, u64_chars,
};

verus! {

// ---------------------------------------------------------------------------
// The daemon's PID file
// ---------------------------------------------------------------------------

/// The name of the PID file kept beside a database file: the database
/// file's stem with `.pid`, or `apimock.pid` when the path has no stem.
pub fn pid_file_name(stem: Option<&str>) -> (r: String)
    ensures
        r@ == (match stem {
            Some(s) => s@,
            None => "apimock"@,
        }) + ".pid"@,
{
    let mut out = match stem {
        Some(s) => chars_of(s),
        None => chars_of("apimock"),
    };
    push_str_chars(&mut out, ".pid");
    string_of(out.as_slice())
}

/// The PID a PID file holds: its trimmed text read as a `u32`.
pub open spec fn pid_in(text: Seq<char>) -> Option<nat> {
    parse_nat(trim(text), u32::MAX as int)
}

/// Reads the PID file's text.
pub fn parse_pid(text: &str) -> (r: Option<u32>)
    ensures
        match pid_in(text@) {
            Some(n) => r == Some(n as u32),
            None => r is None,
        },
{
    let t = trim_str(text);
    match parse_unsigned(&t, u32::MAX as u64) {
        Some(n) => Some(n as u32),
        None => None,
    }
}

/// The PID a PID file is written with.
pub fn pid_text(pid: u32) -> (r: String)
    ensures
        r@ == decimal(pid as nat),
{
    crate::text::u64_string(pid as u64)
}

/// The process to check for a running daemon other than this one: the PID
/// on file, unless it is this process's own.
pub fn daemon_pid_to_check(file_pid: Option<u32>, my_pid: u32) -> (r: Option<u32>)
    ensures
        r == (match file_pid {
            Some(p) => if p != my_pid {
                Some(p)
            } else {
                None::<u32>
            },
            None => None::<u32>,
        }),
{
    match file_pid {
        Some(p) => if p != my_pid {
            Some(p)
        } else {
            None
        },
        None => None,
    }
}

// ---------------------------------------------------------------------------
// Daemon lifecycle
// ---------------------------------------------------------------------------

/// What `start` does, given the PID on file and whether it is alive.
#[derive(Debug, Clone, Copy, PartialEq, Eq, Structural)]
pub enum StartPlan {
    /// A daemon is already running with this PID: report it, do nothing.
    AlreadyRunning(u32),
    /// Spawn a daemon, first removing a stale PID file if `remove_stale`.
    Spawn { remove_stale: bool },
}

pub fn plan_start(file_pid: Option<u32>, alive: bool) -> (r: StartPlan)
    ensures
        r == (match file_pid {
            Some(p) => if alive {
                StartPlan::AlreadyRunning(p)
            } else {
                StartPlan::Spawn { remove_stale: true }
            },
            None => StartPlan::Spawn { remove_stale: false },
        }),
{
    match file_pid {
        Some(p) => if alive {
            StartPlan::AlreadyRunning(p)
        } else {
            StartPlan::Spawn { remove_stale: true }
        },
        None => StartPlan::Spawn { remove_stale: false },
    }
}

/// What `stop` does, given the PID on file and whether it is alive.
#[derive(Debug, Clone, Copy, PartialEq, Eq, Structural)]
pub enum StopPlan {
    /// No PID file: report that nothing runs.
    NothingRunning,
    /// The PID on file is dead: report it and remove the file.
    CleanStale(u32),
    /// Signal the daemon, wait for it to exit, remove the file.
    Terminate(u32),
}

pub fn plan_stop(file_pid: Option<u32>, alive: bool) -> (r: StopPlan)
    ensures
        r == (match file_pid {
            Some(p) => if alive {
                StopPlan::Terminate(p)
            } else {
                StopPlan::CleanStale(p)
            },
            None => StopPlan::NothingRunning,
        }),
{
    match file_pid {
        Some(p) => if alive {
            StopPlan::Terminate(p)
        } else {
            StopPlan::CleanStale(p)
        },
        None => StopPlan::NothingRunning,
    }
}

/// The number of 100 ms waits for a signalled daemon to exit (5 s).
pub const STOP_WAIT_STEPS: u32 = 50;

/// Whether to keep waiting for a signalled daemon: it is still alive and
/// fewer than `STOP_WAIT_STEPS` waits have passed.
pub fn keep_waiting(waited: u32, alive: bool) -> (r: bool)
    ensures
        r == (alive && waited < STOP_WAIT_STEPS),
{
    alive && waited < STOP_WAIT_STEPS
}

/// What `status` reports, given the PID on file and whether it is alive.
#[derive(Debug, Clone, Copy, PartialEq, Eq, Structural)]
pub enum StatusReport {
    NotRunning,
    /// The PID file is stale; it is removed.
    Stale,
    Running(u32),
}

pub fn plan_status(file_pid: Option<u32>, alive: bool) -> (r: StatusReport)
    ensures
        r == (match file_pid {
            Some(p) => if alive {
                StatusReport::Running(p)
            } else {
                StatusReport::Stale
            },
            None => StatusReport::NotRunning,
        }),
{
    match file_pid {
        Some(p) => if alive {
            StatusReport::Running(p)
        } else {
            StatusReport::Stale
        },
        None => StatusReport::NotRunning,
    }
}

/// The step of a restart that follows `last`, the step just run and
/// whether it succeeded: Stop comes first; Start follows only a Stop that
/// succeeded; a failed step, or Start, ends the restart.
pub open spec fn restart_step(last: Option<(Command, bool)>) -> Option<Command> {
    match last {
        None => Some(Command::Stop),
        Some((Command::Stop, true)) => Some(Command::Start),
        _ => None,
    }
}

/// Restarting the daemon is stopping it and then starting it: the next step
/// after `last` (see `restart_step`). A failed stop ends the restart, so
/// nothing is started and the failure is what the restart reports.
pub fn restart(last: Option<(Command, bool)>) -> (r: Option<Command>)
    ensures
        r == restart_step(last),
{
    match last {
        None => Some(Command::Stop),
        Some((Command::Stop, true)) => Some(Command::Start),
        _ => None,
    }
}

/// A restart runs Stop and then Start when the stop succeeds, and only Stop
/// when it fails.
pub proof fn lemma_restart_order(stop_ok: bool, start_ok: bool)
    ensures
        restart_step(None) == Some(Command::Stop),
        stop_ok ==> restart_step(Some((Command::Stop, stop_ok))) == Some(Command::Start),
        !stop_ok ==> restart_step(Some((Command::Stop, stop_ok))) is None,
        restart_step(Some((Command::Start, start_ok))) is None,
{
}

fn pid_message(before: &str, pid: u32, after: &str) -> (r: String)
    ensures
        r@ == before@ + decimal(pid as nat) + after@,
{
    let mut m = chars_of(before);
    let d = u64_chars(pid as u64);
    push_all(&mut m, &d);
    push_str_chars(&mut m, after);
    string_of(m.as_slice())
}

/// The line `start` prints when a daemon already runs.
pub fn already_running_message(pid: u32) -> (r: String)
    ensures
        r@ == "Mock server is already running (PID: "@ + decimal(pid as nat) + ")."@,
{
    pid_message("Mock server is already running (PID: ", pid, ").")
}

/// The lines `start` prints after spawning a daemon.
pub fn started_messages(pid: u32, port: u16) -> (r: Vec<String>)
    ensures
        r@.len() == 3,
        r@[0]@ == "Mock server started (PID: "@ + decimal(pid as nat) + ")."@,
        r@[1]@ == "Dashboard: http://localhost:"@ + decimal(port as nat) + ""@,
        r@[2]@ == "Stop with: mock stop"@,
{
    let a = pid_message("Mock server started (PID: ", pid, ").");
    let b = pid_message("Dashboard: http://localhost:", port as u32, "");
    vec![a, b, "Stop with: mock stop".to_owned()]
}

/// The line `stop` prints for a plan that does not signal a process, or
/// after a signalled daemon is gone.
pub fn stop_message(plan: StopPlan) -> (r: String)
    ensures
        r@ == (match plan {
            StopPlan::NothingRunning => "No running mock server found."@,
            StopPlan::CleanStale(p) => "Mock server (PID: "@ + decimal(p as nat)
                + ") is not running. Cleaning up stale PID file."@,
            StopPlan::Terminate(_) => "Mock server stopped."@,
        }),
{
    match plan {
        StopPlan::NothingRunning => "No running mock server found.".to_owned(),
        StopPlan::CleanStale(p) => pid_message(
            "Mock server (PID: ",
            p,
            ") is not running. Cleaning up stale PID file.",
        ),
        StopPlan::Terminate(_) => "Mock server stopped.".to_owned(),
    }
}

/// The error of a refused termination signal.
pub fn signal_failed_message(pid: u32) -> (r: String)
    ensures
        r@ == "Failed to send SIGTERM to PID "@ + decimal(pid as nat) + ""@,
{
    pid_message("Failed to send SIGTERM to PID ", pid, "")
}

/// The line `status` prints.
pub fn status_message(report: StatusReport) -> (r: String)
    ensures
        r@ == (match report {
            StatusReport::NotRunning => "Mock server is not running."@,
            StatusReport::Stale => "Mock server is not running (stale PID file)."@,
            StatusReport::Running(p) => "Mock server is running (PID: "@ + decimal(p as nat) + ")."@,
        }),
{
    match report {
        StatusReport::NotRunning => "Mock server is not running.".to_owned(),
        StatusReport::Stale => "Mock server is not running (stale PID file).".to_owned(),
        StatusReport::Running(p) => pid_message("Mock server is running (PID: ", p, ")."),
    }
}

/// `s` followed by spaces up to `n` characters, as `{:<n}` pads it.
pub open spec fn padded(s: Seq<char>, n: int) -> Seq<char> {
    if s.len() < n {
        s + Seq::new((n - s.len()) as nat, |_i: int| ' ')
    } else {
        s
    }
}

/// The enabled mocks of the port with id `id`, in order.
pub open spec fn port_routes(ms: Seq<MockApi>, id: i64) -> Seq<MockApi>
    decreases ms.len(),
{
    if ms.len() == 0 {
        seq![]
    } else if ms.last().enabled && ms.last().port_id == id {
        port_routes(ms.drop_last(), id).push(ms.last())
    } else {
        port_routes(ms.drop_last(), id)
    }
}

/// The length of the longest path among `ms`.
pub open spec fn path_width(ms: Seq<MockApi>) -> nat
    decreases ms.len(),
{
    if ms.len() == 0 {
        0
    } else if ms.last().path@.len() > path_width(ms.drop_last()) {
        ms.last().path@.len()
    } else {
        path_width(ms.drop_last())
    }
}

/// The line `status` shows for a running port: its number and label.
pub open spec fn port_status_line(p: PortConfig) -> Seq<char> {
    "  ● :"@ + decimal(p.port as nat) + (if p.label@.len() > 0 {
        "  "@ + p.label@
    } else {
        seq![]
    })
}

/// The line `status` shows for a route: method, path (padded to `width`)
/// and the mock's name.
pub open spec fn route_line(m: MockApi, width: int) -> Seq<char> {
    "      "@ + padded(method_name(m.method), 8) + padded(m.path@, width) + "("@ + m.name@ + ")"@
}

/// The lines `status` shows for a running port: a blank line, the port's
/// line, then its enabled routes with the paths aligned, or a note that
/// it has none.
pub open spec fn port_block(p: PortConfig, ms: Seq<MockApi>) -> Seq<Seq<char>> {
    let rs = port_routes(ms, p.id);
    seq![seq![], port_status_line(p)] + if rs.len() == 0 {
        seq!["      (no enabled APIs)"@]
    } else {
        rs.map_values(|m: MockApi| route_line(m, path_width(rs) as int + 2))
    }
}

/// The lines `status` shows under its first line while a daemon runs: the
/// block of each running port, in order.
pub open spec fn status_details_of(ps: Seq<PortConfig>, ms: Seq<MockApi>) -> Seq<Seq<char>>
    decreases ps.len(),
{
    if ps.len() == 0 {
        seq![]
    } else if ps.last().running {
        status_details_of(ps.drop_last(), ms) + port_block(ps.last(), ms)
    } else {
        status_details_of(ps.drop_last(), ms)
    }
}

/// The texts of lines.
pub open spec fn line_texts(v: Seq<String>) -> Seq<Seq<char>> {
    v.map_values(|s: String| s@)
}

fn push_padded(out: &mut Vec<char>, s: &Vec<char>, n: usize)
    ensures
        final(out)@ == old(out)@ + padded(s@, n as int),
{
    let ghost start = out@;
    push_all(out, s);
    let mut k: usize = s.len();
    assert(out@ =~= start + s@ + Seq::new((k - s.len()) as nat, |_i: int| ' '));
    while k < n
        invariant
            s.len() <= k,
            k <= n || k == s.len(),
            out@ == start + s@ + Seq::new((k - s.len()) as nat, |_i: int| ' '),
        decreases n - k,
    {
        out.push(' ');
        k = k + 1;
        assert(out@ =~= start + s@ + Seq::new((k - s.len()) as nat, |_i: int| ' '));
    }
    if s.len() >= n {
        assert(out@ =~= start + s@);
    }
}

/// The positions of the enabled mocks of port `id`.
fn route_positions(mocks: &Vec<MockApi>, id: i64) -> (r: Vec<usize>)
    ensures
        r@.len() == port_routes(mocks@, id).len(),
        forall|k: int| #![trigger r@[k]] #![trigger port_routes(mocks@, id)[k]] 0 <= k < r@.len() ==> r@[k] < mocks@.len()
            && mocks@[r@[k] as int] == port_routes(mocks@, id)[k],
{
    let mut out: Vec<usize> = Vec::new();
    let mut i: usize = 0;
    assert(mocks@.take(0) =~= seq![]);
    while i < mocks.len()
        invariant
            i <= mocks.len(),
            out@.len() == port_routes(mocks@.take(i as int), id).len(),
            forall|k: int| #![trigger out@[k]] #![trigger port_routes(mocks@.take(i as int), id)[k]]
                0 <= k < out@.len() ==> out@[k] < i && mocks@[out@[k] as int] == port_routes(
                    mocks@.take(i as int),
                    id,
                )[k],
        decreases mocks.len() - i,
    {
        assert(mocks@.take(i as int + 1).drop_last() =~= mocks@.take(i as int));
        if mocks[i].enabled && mocks[i].port_id == id {
            out.push(i);
        }
        i = i + 1;
    }
    assert(mocks@.take(mocks.len() as int) =~= mocks@);
    out
}

/// The widest path among the mocks at `pos`.
fn widest_path(mocks: &Vec<MockApi>, pos: &Vec<usize>, Ghost(rs): Ghost<Seq<MockApi>>) -> (r: usize)
    requires
        pos@.len() == rs.len(),
        forall|k: int| #![trigger pos@[k]] #![trigger rs[k]] 0 <= k < pos@.len() ==> pos@[k] < mocks@.len() && mocks@[pos@[k] as int] == rs[k],
    ensures
        r == path_width(rs),
{
    let mut w: usize = 0;
    let mut i: usize = 0;
    assert(rs.take(0) =~= seq![]);
    while i < pos.len()
        invariant
            i <= pos.len(),
            pos@.len() == rs.len(),
            forall|k: int| #![trigger pos@[k]] #![trigger rs[k]] 0 <= k < pos@.len() ==> pos@[k] < mocks@.len() && mocks@[pos@[k] as int] == rs[k],
            w == path_width(rs.take(i as int)),
        decreases pos.len() - i,
    {
        assert(rs.take(i as int + 1).drop_last() =~= rs.take(i as int));
        assert(mocks@[pos@[i as int] as int] == rs[i as int]);
        let n = chars_of(mocks[pos[i]].path.as_str()).len();
        if n > w {
            w = n;
        }
        i = i + 1;
    }
    assert(rs.take(pos.len() as int) =~= rs);
    w
}

fn port_line(p: &PortConfig) -> (r: String)
    ensures
        r@ == port_status_line(*p),
{
    let mut out = chars_of("  ● :");
    let d = u64_chars(p.port as u64);
    push_all(&mut out, &d);
    let label = chars_of(p.label.as_str());
    if label.len() > 0 {
        push_str_chars(&mut out, "  ");
        push_all(&mut out, &label);
    } else {
        assert(out@ + Seq::<char>::empty() =~= out@);
    }
    string_of(out.as_slice())
}

fn route_text(m: &MockApi, width: usize) -> (r: String)
    ensures
        r@ == route_line(*m, width as int),
{
    let mut out = chars_of("      ");
    let method = chars_of(m.method.name());
    push_padded(&mut out, &method, 8);
    let path = chars_of(m.path.as_str());
    push_padded(&mut out, &path, width);
    push_str_chars(&mut out, "(");
    push_str_chars(&mut out, m.name.as_str());
    push_str_chars(&mut out, ")");
    string_of(out.as_slice())
}

/// The lines `status` shows for one running port (see `port_block`).
fn port_block_lines(p: &PortConfig, mocks: &Vec<MockApi>) -> (r: Vec<String>)
    requires
        forall|k: int| 0 <= k < mocks@.len() ==> (#[trigger] mocks@[k]).path@.len() + 2 <= usize::MAX,
    ensures
        line_texts(r@) == port_block(*p, mocks@),
{
    let ghost rs = port_routes(mocks@, p.id);
    let pos = route_positions(mocks, p.id);
    let mut out: Vec<String> = vec![String::new(), port_line(p)];
    if pos.len() == 0 {
        out.push("      (no enabled APIs)".to_owned());
        assert(line_texts(out@) =~= port_block(*p, mocks@));
        return out;
    }
    let w = widest_path(mocks, &pos, Ghost(rs));
    proof {
        lemma_path_width_attained(rs);
        let k = choose|k: int| 0 <= k < rs.len() && rs[k].path@.len() == path_width(rs);
        assert(mocks@[pos@[k] as int] == rs[k]);
    }
    let width = w + 2;
    let ghost head = seq![Seq::<char>::empty(), port_status_line(*p)];
    assert(line_texts(out@) =~= head);
    let mut i: usize = 0;
    while i < pos.len()
        invariant
            i <= pos.len(),
            pos@.len() == rs.len(),
            forall|k: int| #![trigger pos@[k]] #![trigger rs[k]] 0 <= k < pos@.len() ==> pos@[k] < mocks@.len() && mocks@[pos@[k] as int] == rs[k],
            width == path_width(rs) + 2,
            line_texts(out@) == head + rs.take(i as int).map_values(|m: MockApi| route_line(m, width as int)),
        decreases pos.len() - i,
    {
        assert(mocks@[pos@[i as int] as int] == rs[i as int]);
        let line = route_text(&mocks[pos[i]], width);
        let ghost prev = out@;
        out.push(line);
        assert(line_texts(out@) =~= line_texts(prev).push(route_line(rs[i as int], width as int)));
        assert(rs.take(i as int + 1).map_values(|m: MockApi| route_line(m, width as int)) =~= rs.take(
            i as int,
        ).map_values(|m: MockApi| route_line(m, width as int)).push(route_line(rs[i as int], width as int)));
        assert(line_texts(out@) =~= head + rs.take(i as int + 1).map_values(
            |m: MockApi| route_line(m, width as int),
        ));
        i = i + 1;
    }
    assert(rs.take(pos.len() as int) =~= rs);
    out
}

/// Some route has the widest path (when there is a route).
proof fn lemma_path_width_attained(ms: Seq<MockApi>)
    requires
        ms.len() > 0,
    ensures
        exists|k: int| 0 <= k < ms.len() && ms[k].path@.len() == path_width(ms),
    decreases ms.len(),
{
    if ms.len() == 1 {
        assert(path_width(ms.drop_last()) == 0);
        assert(ms[0].path@.len() == path_width(ms));
    } else {
        lemma_path_width_attained(ms.drop_last());
        let k = choose|k: int| 0 <= k < ms.drop_last().len() && ms.drop_last()[k].path@.len() == path_width(
            ms.drop_last(),
        );
        if ms.last().path@.len() > path_width(ms.drop_last()) {
            assert(ms[ms.len() - 1].path@.len() == path_width(ms));
        } else {
            assert(ms[k] == ms.drop_last()[k]);
        }
    }
}

/// The lines `status` prints under its first line while a daemon runs
/// (see `status_details_of`): each running port with its enabled routes.
pub fn status_details(ports: &Vec<PortConfig>, mocks: &Vec<MockApi>) -> (r: Vec<String>)
    requires
        forall|k: int| 0 <= k < mocks@.len() ==> (#[trigger] mocks@[k]).path@.len() + 2 <= usize::MAX,
    ensures
        line_texts(r@) == status_details_of(ports@, mocks@),
{
    let mut out: Vec<String> = Vec::new();
    let mut i: usize = 0;
    assert(ports@.take(0) =~= seq![]);
    while i < ports.len()
        invariant
            i <= ports.len(),
            forall|k: int| 0 <= k < mocks@.len() ==> (#[trigger] mocks@[k]).path@.len() + 2 <= usize::MAX,
            line_texts(out@) == status_details_of(ports@.take(i as int), mocks@),
        decreases ports.len() - i,
    {
        assert(ports@.take(i as int + 1).drop_last() =~= ports@.take(i as int));
        if ports[i].running {
            let block = port_block_lines(&ports[i], mocks);
            let ghost before = out@;
            let mut j: usize = 0;
            while j < block.len()
                invariant
                    j <= block.len(),
                    out@ == before + block@.take(j as int),
                decreases block.len() - j,
            {
                out.push(block[j].clone());
                assert(block@.take(j as int + 1) =~= block@.take(j as int).push(block@[j as int]));
                j = j + 1;
            }
            assert(block@.take(block.len() as int) =~= block@);
            assert(line_texts(out@) =~= line_texts(before) + line_texts(block@));
        }
        i = i + 1;
    }
    assert(ports@.take(ports.len() as int) =~= ports@);
    out
}

// ---------------------------------------------------------------------------
// Port servers
// ---------------------------------------------------------------------------

/// The mocks a port server answers with: the enabled ones, in order.
pub open spec fn enabled_only(ms: Seq<MockApi>) -> Seq<MockApi>
    decreases ms.len(),
{
    if ms.len() == 0 {
        seq![]
    } else if ms.last().enabled {
        enabled_only(ms.drop_last()).push(ms.last())
    } else {
        enabled_only(ms.drop_last())
    }
}

/// Keeps the enabled mocks of a port (see `enabled_only`).
pub fn enabled_mocks(mocks: Vec<MockApi>) -> (r: Vec<MockApi>)
    ensures
        r@ == enabled_only(mocks@),
{
    let ghost all = mocks@;
    assert(all.len() <= usize::MAX) by {
        assert(all.len() == mocks.len());
    }
    let mut rest = mocks;
    let mut out: Vec<MockApi> = Vec::new();
    let mut k: usize = 0;
    assert(all.take(0) =~= seq![]);
    assert(rest@ =~= all.skip(0));
    while rest.len() > 0
        invariant
            k <= all.len(),
            all.len() <= usize::MAX,
            k + rest@.len() == all.len(),
            rest@ == all.skip(k as int),
            out@ == enabled_only(all.take(k as int)),
        decreases rest.len(),
    {
        let m = rest.remove(0);
        assert(all.take(k as int + 1).drop_last() =~= all.take(k as int));
        assert(m == all[k as int]);
        if m.enabled {
            out.push(m);
        }
        k = k + 1;
        assert(rest@ =~= all.skip(k as int));
    }
    assert(all.take(k as int) =~= all);
    out
}

/// The address a port server listens on: every interface, on the port.
pub fn bind_address(port: u16) -> (r: String)
    ensures
        r@ == "0.0.0.0:"@ + decimal(port as nat),
{
    let mut a = chars_of("0.0.0.0:");
    let d = u64_chars(port as u64);
    push_all(&mut a, &d);
    string_of(a.as_slice())
}

/// The ids of the ports to start when the server starts: the enabled ones,
/// in order.
pub open spec fn enabled_ids(ps: Seq<PortConfig>) -> Seq<i64>
    decreases ps.len(),
{
    if ps.len() == 0 {
        seq![]
    } else if ps.last().enabled {
        enabled_ids(ps.drop_last()).push(ps.last().id)
    } else {
        enabled_ids(ps.drop_last())
    }
}

/// The ports to start at startup (see `enabled_ids`).
pub fn ports_to_start(ports: &Vec<PortConfig>) -> (r: Vec<i64>)
    ensures
        r@ == enabled_ids(ports@),
{
    let mut out: Vec<i64> = Vec::new();
    let mut i: usize = 0;
    assert(ports@.take(0) =~= seq![]);
    while i < ports.len()
        invariant
            i <= ports.len(),
            out@ == enabled_ids(ports@.take(i as int)),
        decreases ports.len() - i,
    {
        assert(ports@.take(i as int + 1).drop_last() =~= ports@.take(i as int));
        if ports[i].enabled {
            out.push(ports[i].id);
        }
        i = i + 1;
    }
    assert(ports@.take(ports.len() as int) =~= ports@);
    out
}

/// The ids of the ports whose server runs, as the store records it, in
/// order.
pub open spec fn running_ids(ps: Seq<PortConfig>) -> Seq<i64>
    decreases ps.len(),
{
    if ps.len() == 0 {
        seq![]
    } else if ps.last().running {
        running_ids(ps.drop_last()).push(ps.last().id)
    } else {
        running_ids(ps.drop_last())
    }
}

/// The ports an interface shows as running (see `running_ids`), whichever
/// process runs them.
pub fn running_ports(ports: &Vec<PortConfig>) -> (r: Vec<i64>)
    ensures
        r@ == running_ids(ports@),
{
    let mut out: Vec<i64> = Vec::new();
    let mut i: usize = 0;
    assert(ports@.take(0) =~= seq![]);
    while i < ports.len()
        invariant
            i <= ports.len(),
            out@ == running_ids(ports@.take(i as int)),
        decreases ports.len() - i,
    {
        assert(ports@.take(i as int + 1).drop_last() =~= ports@.take(i as int));
        if ports[i].running {
            out.push(ports[i].id);
        }
        i = i + 1;
    }
    assert(ports@.take(ports.len() as int) =~= ports@);
    out
}

/// Whether this process starts the enabled ports at startup: only when no
/// other daemon owns them.
pub fn starts_ports_itself(external_daemon_running: bool) -> (r: bool)
    ensures
        r == !external_daemon_running,
{
    !external_daemon_running
}

/// Whether a restarted port server comes back: only when the port still
/// exists and is enabled.
pub fn restart_respawns(port: Option<&PortConfig>) -> (r: bool)
    ensures
        r == (match port {
            Some(p) => p.enabled,
            None => false,
        }),
{
    match port {
        Some(p) => p.enabled,
        None => false,
    }
}

/// What an interface asks a running daemon to do with a port's server.
#[derive(Debug, Clone, Copy, PartialEq, Eq, Structural)]
pub enum PortCommand {
    Start,
    Stop,
    Restart,
}

/// The last segment of the daemon API's path for a command.
pub open spec fn command_word(c: PortCommand) -> Seq<char> {
    match c {
        PortCommand::Start => "start"@,
        PortCommand::Stop => "stop"@,
        PortCommand::Restart => "restart"@,
    }
}

/// The HTTP request that asks a running daemon's API to start, stop or
/// restart the server of port `id` (`POST /api/v1/ports/:id/<command>`),
/// closing the connection after the answer.
pub fn daemon_port_request(id: i64, command: PortCommand) -> (r: String)
    ensures
        r@ == "POST /api/v1/ports/"@ + decimal_int(id as int) + "/"@ + command_word(command)
            + " HTTP/1.1\r\nHost: localhost\r\nContent-Length: 0\r\nConnection: close\r\n\r\n"@,
{
    let mut out = chars_of("POST /api/v1/ports/");
    let d = i64_chars(id);
    push_all(&mut out, &d);
    push_str_chars(&mut out, "/");
    match command {
        PortCommand::Start => push_str_chars(&mut out, "start"),
        PortCommand::Stop => push_str_chars(&mut out, "stop"),
        PortCommand::Restart => push_str_chars(&mut out, "restart"),
    }
    push_str_chars(&mut out, " HTTP/1.1\r\nHost: localhost\r\nContent-Length: 0\r\nConnection: close\r\n\r\n");
    string_of(out.as_slice())
}

// ---------------------------------------------------------------------------
// Reconciliation of stored port states
// ---------------------------------------------------------------------------

/// What reconciliation does for one port.
#[derive(Debug, Clone, Copy, PartialEq, Eq, Structural)]
pub enum ReconcileAction {
    Nothing,
    /// Start the port's server.
    Start(i64),
    /// Clear the stale running state, then start the port's server.
    ClearAndStart(i64),
    /// Stop the port's server.
    Stop(i64),
}

/// The reconciliation rule for one stored port. An enabled port that no
/// process owns and that is not running is started; one whose owner has
/// died is cleared and started; one with a live owner is left to it. A
/// disabled port that this process runs is stopped. `owner_alive` tells
/// whether the owning process lives; it matters only for an enabled port
/// with an owner.
pub open spec fn reconcile_rule(p: PortConfig, our_pid: u32, owner_alive: bool) -> ReconcileAction {
    if p.enabled {
        match p.owner_pid {
            None => if !p.running {
                ReconcileAction::Start(p.id)
            } else {
                ReconcileAction::Nothing
            },
            Some(_) => if !owner_alive {
                ReconcileAction::ClearAndStart(p.id)
            } else {
                ReconcileAction::Nothing
            },
        }
    } else if p.running && p.owner_pid == Some(our_pid) {
        ReconcileAction::Stop(p.id)
    } else {
        ReconcileAction::Nothing
    }
}

/// Decides what reconciliation does for one port (see `reconcile_rule`).
pub fn reconcile_port(p: &PortConfig, our_pid: u32, owner_alive: bool) -> (r: ReconcileAction)
    ensures
        r == reconcile_rule(*p, our_pid, owner_alive),
{
    if p.enabled {
        match p.owner_pid {
            None => if !p.running {
                ReconcileAction::Start(p.id)
            } else {
                ReconcileAction::Nothing
            },
            Some(_) => if !owner_alive {
                ReconcileAction::ClearAndStart(p.id)
            } else {
                ReconcileAction::Nothing
            },
        }
    } else if p.running && p.owner_pid == Some(our_pid) {
        ReconcileAction::Stop(p.id)
    } else {
        ReconcileAction::Nothing
    }
}

} // verus!
