//! The background service's bookkeeping: its PID file, its status and its log.
//!
//! The PID file and the log live in the data directory. Starting the service
//! writes `"<pid> <mode>\n"` to the PID file; the status is
//! read back from it, and a file whose process is gone counts as stopped.

use vstd::prelude::*;
use crate::paths::join_path;
use crate::decimal::{decimal, decimal_u64, parse_unsigned, parse_unsigned_upto};
use crate::text::{
    find_ws, find_ws_from, from_chars, is_ws, join, join_chars, lines,
    push_str_chars, slice_chars, split_lines, strip_all_prefix, strip_all_prefix_chars,
    to_chars, trim, trim_chars,
};

verus! {

/// Whether the background service runs, and if so as which process and in
/// which mode (`simulation` or `live`).
pub enum Status {
    Stopped,
    Running { pid: u32, mode: String },
}

/// The PID file of the service run from data directory `home`:
/// `<home>/jybot.pid`.
pub fn pid_path(home: &str) -> (r: String)
    ensures
        r@ == join_path(home@, "jybot.pid"@),
{
    crate::paths::pid_file(home)
}

/// The log of the service run from data directory `home`:
/// `<home>/logs/service.log`.
pub fn log_path(home: &str) -> (r: String)
    ensures
        r@ == join_path(join_path(home@, "logs"@), "service.log"@),
{
    crate::paths::log_file(home)
}

/// What a PID file's text holds: the text is trimmed and cut at its first
/// whitespace character; the part before is the PID (read as `u32`), the part
/// after, trimmed, is the mode (`simulation` when there is no part after).
pub open spec fn pidfile_spec(txt: Seq<char>) -> Option<(u32, Seq<char>)> {
    let t = trim(txt);
    let i = find_ws_from(t, 0);
    let first = t.take(i);
    let mode = if i < t.len() {
        trim(t.skip(i + 1))
    } else {
        "simulation"@
    };
    match parse_unsigned(trim(first)) {
        Some(v) => if v <= u32::MAX {
            Some((v as u32, mode))
        } else {
            None
        },
        None => None,
    }
}

/// Reads a PID file's text: `Some((pid, mode))`, or `None` when it does not
/// start with a PID.
#[verifier::rlimit(40)]
pub fn parse_pidfile(txt: &str) -> (r: Option<(u32, String)>)
    ensures
        r matches Some((pid, mode)) ==> pidfile_spec(txt@) == Some((pid, mode@)),
        r is None ==> pidfile_spec(txt@) is None,
{
    let all = to_chars(txt);
    let t = trim_chars(&all);
    let i = find_ws(&t);
    let first = slice_chars(&t, 0, i);
    assert(first@ == t@.take(i as int));
    let first_t = trim_chars(&first);
    let mode: String = if i < t.len() {
        let rest = slice_chars(&t, i + 1, t.len());
        assert(rest@ == t@.skip(i + 1));
        let m = trim_chars(&rest);
        from_chars(m.as_slice())
    } else {
        String::from_str("simulation")
    };
    match parse_unsigned_upto(&first_t, 4294967295u64) {
        Some(v) => Some((v as u32, mode)),
        None => None,
    }
}

/// The status that a PID file's contents and a liveness check give: running
/// when the file names a PID and that process is alive, else stopped.
pub fn status_from(pidfile: Option<(u32, String)>, alive: bool) -> (s: Status)
    ensures
        match pidfile {
            Some((pid, mode)) => if alive {
                s matches Status::Running { pid: p, mode: m } && p == pid && m@ == mode@
            } else {
                s is Stopped
            },
            None => s is Stopped,
        },
{
    match pidfile {
        Some((pid, mode)) => if alive {
            Status::Running { pid, mode }
        } else {
            Status::Stopped
        },
        None => Status::Stopped,
    }
}

/// Whether `status` is running.
pub fn is_running(status: &Status) -> (b: bool)
    ensures
        b == (status is Running),
{
    match status {
        Status::Running { .. } => true,
        Status::Stopped => false,
    }
}

/// The mode named by a command-line flag such as `--live`: the flag without its
/// leading dashes (`trim_start_matches("--")`).
pub fn mode_of_flag(mode_flag: &str) -> (r: String)
    ensures
        r@ == strip_all_prefix(mode_flag@, "--"@),
{
    let f = to_chars(mode_flag);
    let d = to_chars("--");
    let m = strip_all_prefix_chars(&f, &d);
    from_chars(m.as_slice())
}

/// The PID file's text for a service started as `pid` with `mode_flag`:
/// `"<pid> <mode>\n"`.
pub open spec fn pidfile_text_spec(pid: u32, mode_flag: Seq<char>) -> Seq<char> {
    decimal(pid as nat) + seq![' '] + strip_all_prefix(mode_flag, "--"@) + seq!['\n']
}

/// The PID file's text for a service started as `pid` with `mode_flag`.
pub fn pidfile_text(pid: u32, mode_flag: &str) -> (r: String)
    ensures
        r@ == pidfile_text_spec(pid, mode_flag@),
{
    let mut v = decimal_u64(pid as u64);
    v.push(' ');
    let m = mode_of_flag(mode_flag);
    push_str_chars(&mut v, m.as_str());
    v.push('\n');
    from_chars(v.as_slice())
}

/// The last `n` lines of a log's text, joined with `'\n'`.
pub open spec fn tail_spec(txt: Seq<char>, n: nat) -> Seq<char> {
    let ls = lines(txt);
    let start = if ls.len() > n {
        ls.len() - n
    } else {
        0
    };
    join(ls.skip(start), "\n"@)
}

/// The last `n` lines of a log's text (what the panel shows as the live log).
pub fn tail_lines(txt: &str, n: usize) -> (r: String)
    ensures
        r@ == tail_spec(txt@, n as nat),
{
    let all = to_chars(txt);
    let ls = split_lines(&all);
    let start = ls.len().saturating_sub(n);
    let sep = to_chars("\n");
    let j = join_chars(&ls, start, &sep);
    from_chars(j.as_slice())
}

} // verus!

verus! {

/// Law: what starting the service writes to the PID file, reading that file
/// gives back: the PID and the mode, for a mode that is nonempty and has no
/// whitespace at either end.
#[verifier::rlimit(40)]
pub proof fn lemma_pidfile_round_trip(pid: u32, mode_flag: Seq<char>)
    requires
        strip_all_prefix(mode_flag, "--"@).len() > 0,
        trim(strip_all_prefix(mode_flag, "--"@)) == strip_all_prefix(mode_flag, "--"@),
    ensures
        pidfile_spec(pidfile_text_spec(pid, mode_flag)) == Some(
            (pid, strip_all_prefix(mode_flag, "--"@)),
        ),
{
    let m = strip_all_prefix(mode_flag, "--"@);
    let d = decimal(pid as nat);
    crate::decimal::lemma_decimal_value(pid as nat);
    let body = d + seq![' '] + m;
    let txt = pidfile_text_spec(pid, mode_flag);
    assert(txt == body.push('\n'));
    // the mode's ends are not whitespace
    assert(!is_ws(m[0]) && !is_ws(m.last())) by {
        if is_ws(m[0]) {
            assert(crate::text::trim_start(m) == crate::text::trim_start(m.drop_first()));
            crate::text::lemma_trim_len(m);
            crate::text::lemma_trim_start_shorter(m.drop_first());
            assert(false);
        }
        if is_ws(m.last()) {
            crate::text::lemma_trim_end_last(m);
            assert(false);
        }
    }
    assert(!is_ws(txt[0])) by {
        assert(txt[0] == d[0]);
        assert(crate::decimal::is_digit(d[0]));
    }
    assert(crate::text::trim_start(txt) == txt);
    assert(txt.drop_last() == body);
    assert(body.last() == m.last());
    assert(crate::text::trim_end(body) == body);
    assert(crate::text::trim_end(txt) == body);
    let t = trim(txt);
    assert(t == body);
    assert forall|k: int| 0 <= k < d.len() implies !is_ws(#[trigger] t[k]) by {
        assert(t[k] == d[k]);
        assert(crate::decimal::is_digit(d[k]));
    }
    crate::text::lemma_find_ws_from_is(t, 0, d.len() as int);
    assert(t.take(d.len() as int) == d);
    assert(trim(d) == d) by {
        assert(!is_ws(d[0]));
        assert(!is_ws(d.last())) by {
            assert(crate::decimal::is_digit(d[d.len() - 1]));
        }
    }
    assert(t.skip(d.len() as int + 1) == m);
}

} // verus!
