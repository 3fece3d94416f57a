//! The bot's single data directory and the files inside it.
//!
//! Everything (configuration, PID file, log, paper-trade record, order script,
//! binary) lives under one directory, by default `~/.jybot`, overridden by the
//! `JYBOT_HOME` variable, so that every component reads and writes the same
//! files wherever it was started from. Paths are joined the way `PathBuf::push`
//! joins a relative component on Unix.

use vstd::prelude::*;
use crate::text::{concat_str, has_prefix, opt_view, to_chars, trim, trim_str};

verus! {

/// `base` joined with the relative component `comp` (`Path::join`): a `'/'`
/// goes between them unless `base` is empty or already ends with one.
pub open spec fn join_path(base: Seq<char>, comp: Seq<char>) -> Seq<char> {
    if base.len() > 0 && base.last() != '/' {
        base + seq!['/'] + comp
    } else {
        base + comp
    }
}

/// `Path::join` of `base` with the relative component `comp`.
pub fn join(base: &str, comp: &str) -> (r: String)
    ensures
        r@ == join_path(base@, comp@),
{
    let b = to_chars(base);
    if b.len() > 0 && b[b.len() - 1] != '/' {
        let mut r = String::from_str(base);
        r.append("/");
        proof {
            reveal_strlit("/");
        }
        r.append(comp);
        r
    } else {
        concat_str(base, comp)
    }
}

/// The data directory chosen from the environment: `JYBOT_HOME` when it is set
/// to something other than blanks, else `.jybot` under `HOME`, else under
/// `USERPROFILE`, else under the current directory `cwd`.
pub open spec fn home_spec(
    jybot_home: Option<Seq<char>>,
    home_var: Option<Seq<char>>,
    userprofile: Option<Seq<char>>,
    cwd: Seq<char>,
) -> Seq<char> {
    if jybot_home is Some && trim(jybot_home->0).len() > 0 {
        jybot_home->0
    } else {
        let base = match home_var {
            Some(h) => h,
            None => match userprofile {
                Some(u) => u,
                None => cwd,
            },
        };
        join_path(base, ".jybot"@)
    }
}

/// An absolute path: one that starts at the root.
pub open spec fn is_absolute(p: Seq<char>) -> bool {
    p.len() > 0 && p[0] == '/'
}

/// The data directory, given the values of `JYBOT_HOME`, `HOME` and
/// `USERPROFILE` (`None` where a variable is unset or not Unicode) and the
/// current directory. It is absolute whenever the value it is taken from is.
pub fn home(
    jybot_home: Option<String>,
    home_var: Option<String>,
    userprofile: Option<String>,
    cwd: String,
) -> (r: String)
    ensures
        r@ == home_spec(opt_view(jybot_home), opt_view(home_var), opt_view(userprofile), cwd@),
{
    if let Some(p) = jybot_home {
        let t = trim_str(p.as_str());
        if t.as_str().unicode_len() > 0 {
            return p;
        }
    }
    let base = match home_var {
        Some(h) => h,
        None => match userprofile {
            Some(u) => u,
            None => cwd,
        },
    };
    join(base.as_str(), ".jybot")
}

/// Law: the data directory is an absolute path whenever every value it can
/// be taken from is one (in particular, with no variable set, whenever the
/// current directory is), so every component finds the same files wherever
/// it was started.
pub proof fn lemma_home_absolute(
    jybot_home: Option<Seq<char>>,
    home_var: Option<Seq<char>>,
    userprofile: Option<Seq<char>>,
    cwd: Seq<char>,
)
    requires
        jybot_home is Some && trim(jybot_home->0).len() > 0 ==> is_absolute(jybot_home->0),
        home_var is Some ==> is_absolute(home_var->0),
        userprofile is Some ==> is_absolute(userprofile->0),
        is_absolute(cwd),
    ensures
        is_absolute(home_spec(jybot_home, home_var, userprofile, cwd)),
{
    let r = home_spec(jybot_home, home_var, userprofile, cwd);
    if !(jybot_home is Some && trim(jybot_home->0).len() > 0) {
        let base = match home_var {
            Some(h) => h,
            None => match userprofile {
                Some(u) => u,
                None => cwd,
            },
        };
        assert(r[0] == base[0]);
    }
}

/// `<home>/.env`, the one configuration file.
pub fn env_file(home: &str) -> (r: String)
    ensures
        r@ == join_path(home@, ".env"@),
{
    join(home, ".env")
}

/// `<home>/jybot.pid`, the background service's PID file.
pub fn pid_file(home: &str) -> (r: String)
    ensures
        r@ == join_path(home@, "jybot.pid"@),
{
    join(home, "jybot.pid")
}

/// `<home>/logs/service.log`, the service log.
pub fn log_file(home: &str) -> (r: String)
    ensures
        r@ == join_path(join_path(home@, "logs"@), "service.log"@),
{
    let d = join(home, "logs");
    join(d.as_str(), "service.log")
}

/// `<home>/paper_trades.json`, the paper-trading record.
pub fn paper_trades(home: &str) -> (r: String)
    ensures
        r@ == join_path(home@, "paper_trades.json"@),
{
    join(home, "paper_trades.json")
}

/// `<home>/scripts/place_order.py`, the live order helper.
pub fn place_order_script(home: &str) -> (r: String)
    ensures
        r@ == join_path(join_path(home@, "scripts"@), "place_order.py"@),
{
    let d = join(home, "scripts");
    join(d.as_str(), "place_order.py")
}

/// The file name of the bot's binary: `jybot-rs.exe` on Windows, else `jybot-rs`.
pub open spec fn binary_name(windows: bool) -> Seq<char> {
    if windows {
        "jybot-rs.exe"@
    } else {
        "jybot-rs"@
    }
}

/// `<home>/bin/jybot-rs[.exe]`, the binary that an update replaces.
pub fn binary(home: &str, windows: bool) -> (r: String)
    ensures
        r@ == join_path(join_path(home@, "bin"@), binary_name(windows)),
{
    let name = if windows {
        "jybot-rs.exe"
    } else {
        "jybot-rs"
    };
    let d = join(home, "bin");
    join(d.as_str(), name)
}

} // verus!

verus! {

proof fn lemma_join_prefix(base: Seq<char>, comp: Seq<char>)
    ensures
        has_prefix(join_path(base, comp), base),
{
    assert(join_path(base, comp).take(base.len() as int) == base);
}

proof fn lemma_prefix_trans(a: Seq<char>, b: Seq<char>, c: Seq<char>)
    requires
        has_prefix(a, b),
        has_prefix(b, c),
    ensures
        has_prefix(a, c),
{
    assert(a.take(c.len() as int) == b.take(c.len() as int));
}

/// Law: every file of the bot lies inside its data directory: each file's
/// path begins with the directory's path.
pub proof fn lemma_files_under_home(home: Seq<char>, windows: bool)
    ensures
        has_prefix(join_path(home, ".env"@), home),
        has_prefix(join_path(home, "jybot.pid"@), home),
        has_prefix(join_path(join_path(home, "logs"@), "service.log"@), home),
        has_prefix(join_path(home, "paper_trades.json"@), home),
        has_prefix(join_path(join_path(home, "scripts"@), "place_order.py"@), home),
        has_prefix(join_path(join_path(home, "bin"@), binary_name(windows)), home),
{
    lemma_join_prefix(home, ".env"@);
    lemma_join_prefix(home, "jybot.pid"@);
    lemma_join_prefix(home, "paper_trades.json"@);
    lemma_join_prefix(home, "logs"@);
    lemma_join_prefix(join_path(home, "logs"@), "service.log"@);
    lemma_prefix_trans(join_path(join_path(home, "logs"@), "service.log"@), join_path(home, "logs"@), home);
    lemma_join_prefix(home, "scripts"@);
    lemma_join_prefix(join_path(home, "scripts"@), "place_order.py"@);
    lemma_prefix_trans(join_path(join_path(home, "scripts"@), "place_order.py"@), join_path(home, "scripts"@), home);
    lemma_join_prefix(home, "bin"@);
    lemma_join_prefix(join_path(home, "bin"@), binary_name(windows));
    lemma_prefix_trans(join_path(join_path(home, "bin"@), binary_name(windows)), join_path(home, "bin"@), home);
}

} // verus!
