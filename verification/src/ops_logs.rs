//! Log files: where they live, which is the latest, and the tail of one.
use vstd::prelude::*;

use crate::lint_report::{str_less, str_lt};
use crate::pathutil::{parent_of, path_parent};
use crate::render::{join, join_strings};
use crate::slug::join_path;
use crate::text::{bufs, from_chars, lines_exec, lines_of, str_eq};

verus! {

/// The log directory of a config file: `logs` beside it.
pub open spec fn logs_dir(config_path: Seq<char>) -> Seq<char> {
    join_path(
        match path_parent(config_path) {
            Some(d) => d,
            None => "."@,
        },
        "logs"@,
    )
}

/// Return the path of the log directory (a sibling of the config file).
pub fn logs_path(config_path: &str) -> (r: String)
    ensures
        r@ == logs_dir(config_path@),
{
    let dir = match parent_of(config_path) {
        Some(d) => d,
        None => ".".to_owned(),
    };
    proof {
        reveal_strlit("logs");
    }
    crate::slug::join(dir.as_str(), "logs")
}

/// The last `n` lines of a text (all of them when it has fewer), joined by `\n`.
pub open spec fn tail_of(content: Seq<char>, n: nat) -> Seq<char> {
    let ls = lines_of(content);
    let start = if ls.len() > n {
        ls.len() - n
    } else {
        0
    };
    join(ls.subrange(start, ls.len() as int), "\n"@)
}

/// The last `n` lines of a log file's content, joined by `\n`.
pub fn tail_lines(content: &str, n: usize) -> (r: String)
    ensures
        r@ == tail_of(content@, n as nat),
{
    let cs = crate::text::to_chars(content);
    let ls = lines_exec(&cs);
    let ghost lv = bufs(ls@);
    let start = if ls.len() > n {
        ls.len() - n
    } else {
        0
    };
    let mut kept: Vec<String> = Vec::new();
    let mut i = start;
    while i < ls.len()
        invariant
            start <= i <= ls@.len(),
            lv == bufs(ls@),
            crate::links::views(kept@) == lv.subrange(start as int, i as int),
        decreases ls@.len() - i,
    {
        let ghost before = crate::links::views(kept@);
        let line = from_chars(&ls[i]);
        kept.push(line);
        proof {
            assert(lv[i as int] == ls@[i as int]@);
            assert(crate::links::views(kept@) =~= before.push(line@));
            assert(lv.subrange(start as int, i + 1) =~= lv.subrange(start as int, i as int).push(
                lv[i as int],
            ));
        }
        i += 1;
    }
    join_strings(&kept, "\n")
}

/// The position of the latest log file name: the greatest name, the last of
/// equal ones; `None` for no names.
pub open spec fn latest_of(names: Seq<Seq<char>>) -> Option<int>
    decreases names.len(),
{
    if names.len() == 0 {
        None
    } else {
        match latest_of(names.drop_last()) {
            None => Some(names.len() - 1),
            Some(b) => if str_lt(names.last(), names[b]) {
                Some(b)
            } else {
                Some(names.len() - 1)
            },
        }
    }
}

proof fn lemma_latest_bounds(names: Seq<Seq<char>>)
    ensures
        latest_of(names) matches Some(b) ==> 0 <= b < names.len(),
        names.len() > 0 ==> latest_of(names) is Some,
    decreases names.len(),
{
    if names.len() > 0 {
        lemma_latest_bounds(names.drop_last());
    }
}

/// The position of the latest log file among the names in a log directory.
pub fn latest_log_index(names: &Vec<String>) -> (r: Option<usize>)
    ensures
        match latest_of(crate::links::views(names@)) {
            Some(b) => r matches Some(x) && x as int == b,
            None => r is None,
        },
{
    let ghost nv = crate::links::views(names@);
    let mut best: Option<usize> = None;
    let mut i: usize = 0;
    while i < names.len()
        invariant
            i <= names.len(),
            nv == crate::links::views(names@),
            match latest_of(nv.take(i as int)) {
                Some(b) => best matches Some(x) && x as int == b,
                None => best is None,
            },
        decreases names.len() - i,
    {
        proof {
            assert(nv.take(i as int + 1).drop_last() =~= nv.take(i as int));
            assert(nv.take(i as int + 1).last() == names@[i as int]@);
            lemma_latest_bounds(nv.take(i as int));
        }
        match best {
            None => {
                best = Some(i);
            },
            Some(b) => {
                proof {
                    assert(nv.take(i as int)[b as int] == names@[b as int]@);
                    assert(nv.take(i as int + 1)[b as int] == names@[b as int]@);
                }
                if !str_less(names[i].as_str(), names[b].as_str()) {
                    best = Some(i);
                }
            },
        }
        i += 1;
    }
    proof {
        assert(nv.take(names.len() as int) =~= nv);
    }
    best
}

// ── Where logs go ────────────────────────────────────────────────────────────

/// How often the log file rolls over.
#[derive(Debug, Clone, Copy, PartialEq, Eq, Structural)]
pub enum LogRotation {
    Hourly,
    Never,
    Daily,
}

/// Where and how the program logs.
#[derive(Debug)]
pub struct LogPlan {
    /// Log records as JSON (else compact text).
    pub json: bool,
    /// The directory of the rolling log files, when logging to files too.
    pub file_dir: Option<String>,
    /// Rotation of the log files.
    pub rotation: LogRotation,
    /// How many log files to keep, when limited.
    pub max_files: Option<u32>,
}

/// The rotation a configured name asks for: `hourly`, `never`, else daily.
pub open spec fn rotation_of(name: Seq<char>) -> LogRotation {
    if name == "hourly"@ {
        LogRotation::Hourly
    } else if name == "never"@ {
        LogRotation::Never
    } else {
        LogRotation::Daily
    }
}

/// How to log: commands other than the server log compact text to stderr;
/// the server logs in the configured format (`json` or compact), and also to
/// rolling files in the configured directory when one is set.
pub fn logging_plan(is_serve: bool, log_path: &str, log_format: &str, log_rotation: &str, log_max_files: u32) -> (r:
    LogPlan)
    ensures
        r.json == (is_serve && log_format@ == "json"@),
        match r.file_dir {
            Some(d) => is_serve && log_path@.len() > 0 && d@ == log_path@,
            None => !(is_serve && log_path@.len() > 0),
        },
        r.rotation == rotation_of(log_rotation@),
        r.max_files == (if log_max_files > 0 {
            Some(log_max_files)
        } else {
            None
        }),
{
    let json = is_serve && str_eq(log_format, "json");
    let file_dir = if is_serve && !log_path.is_empty() {
        Some(log_path.to_owned())
    } else {
        None
    };
    let rotation = if str_eq(log_rotation, "hourly") {
        LogRotation::Hourly
    } else if str_eq(log_rotation, "never") {
        LogRotation::Never
    } else {
        LogRotation::Daily
    };
    let max_files = if log_max_files > 0 {
        Some(log_max_files)
    } else {
        None
    };
    LogPlan { json, file_dir, rotation, max_files }
}

} // verus!
