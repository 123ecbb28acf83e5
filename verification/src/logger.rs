//! The access log: one line per request in the combined log format with the
//! time taken, written to a file per day (`access_2024-01-31.log` for
//! `access.log`) that is rotated to `.1` when it would grow past a limit.

use vstd::prelude::*;
use crate::paths::{join_path, join_spec, path_extension, path_extension_of, path_file_stem, path_file_stem_of, path_parent, path_parent_of};
use crate::text::{decimal_spec, push_decimal, push_str, str_eq};

verus! {

/// Where the access log of a site goes and how large a file may grow (0: no
/// limit).
pub struct AccessLogger {
    pub log_path: String,
    pub max_size: u64,
}

impl AccessLogger {
    /// A logger writing next to `log_path`, rotating past `max_size` bytes.
    pub fn new(log_path: &str, max_size: u64) -> (r: Self)
        ensures
            r.log_path@ == log_path@,
            r.max_size == max_size,
    {
        AccessLogger { log_path: log_path.to_owned(), max_size }
    }
}

/// One line of the access log.
pub open spec fn log_line_spec(
    remote_addr: Seq<char>,
    date: Seq<char>,
    method: Seq<char>,
    path: Seq<char>,
    status: u16,
    size: u64,
    referer: Seq<char>,
    user_agent: Seq<char>,
    duration_ms: u64,
) -> Seq<char> {
    remote_addr + " - - ["@ + date + "] \""@ + method + " "@ + path + " HTTP/1.1\" "@ + decimal_spec(
        status as nat,
    ) + " "@ + decimal_spec(size as nat) + " \""@ + referer + "\" \""@ + user_agent + "\" "@
        + decimal_spec(duration_ms as nat) + "ms\n"@
}

/// One line of the access log: the client, the time, the request line, the
/// status, the size, the referrer, the user agent and the time taken.
pub fn log_line(
    remote_addr: &str,
    date: &str,
    method: &str,
    path: &str,
    status: u16,
    size: u64,
    referer: &str,
    user_agent: &str,
    duration_ms: u64,
) -> (r: String)
    ensures
        r@ == log_line_spec(remote_addr@, date@, method@, path@, status, size, referer@, user_agent@, duration_ms),
{
    let mut out = String::new();
    push_str(&mut out, remote_addr);
    push_str(&mut out, " - - [");
    push_str(&mut out, date);
    push_str(&mut out, "] \"");
    push_str(&mut out, method);
    push_str(&mut out, " ");
    push_str(&mut out, path);
    push_str(&mut out, " HTTP/1.1\" ");
    push_decimal(&mut out, status as u64);
    push_str(&mut out, " ");
    push_decimal(&mut out, size);
    push_str(&mut out, " \"");
    push_str(&mut out, referer);
    push_str(&mut out, "\" \"");
    push_str(&mut out, user_agent);
    push_str(&mut out, "\" ");
    push_decimal(&mut out, duration_ms);
    push_str(&mut out, "ms\n");
    out
}

/// The text of an optional part, or `d`.
pub open spec fn or_text(o: Option<Seq<char>>, d: Seq<char>) -> Seq<char> {
    match o {
        Some(s) => s,
        None => d,
    }
}

/// The file a log of a day goes to: in the directory of the log path (`.` when
/// it has none), its stem, `_`, the day, `.` and the rotation number when there
/// is one, then `.` and its extension.
pub open spec fn log_file_spec(log_path: Seq<char>, date: Seq<char>, rotate_index: u32) -> Seq<char> {
    let ext = or_text(path_extension_of(log_path), Seq::empty());
    let name = or_text(path_file_stem_of(log_path), Seq::empty());
    let dir = or_text(path_parent_of(log_path), "."@);
    let file = if rotate_index > 0 {
        name + "_"@ + date + "."@ + decimal_spec(rotate_index as nat) + "."@ + ext
    } else {
        name + "_"@ + date + "."@ + ext
    };
    join_spec(dir, file)
}

/// The file a log of a day goes to (rotation `0` is the current one).
pub fn open_log_file_path(log_path: &str, date: &str, rotate_index: u32) -> (r: String)
    ensures
        r@ == log_file_spec(log_path@, date@, rotate_index),
{
    let ext = match path_extension(log_path) {
        Some(e) => e,
        None => String::new(),
    };
    let name = match path_file_stem(log_path) {
        Some(n) => n,
        None => String::new(),
    };
    let dir = match path_parent(log_path) {
        Some(d) => d,
        None => ".".to_owned(),
    };
    let mut file = String::new();
    push_str(&mut file, name.as_str());
    push_str(&mut file, "_");
    push_str(&mut file, date);
    push_str(&mut file, ".");
    if rotate_index > 0 {
        push_decimal(&mut file, rotate_index as u64);
        push_str(&mut file, ".");
    }
    push_str(&mut file, ext.as_str());
    assert(file@ =~= if rotate_index > 0 {
        name@ + "_"@ + date@ + "."@ + decimal_spec(rotate_index as nat) + "."@ + ext@
    } else {
        name@ + "_"@ + date@ + "."@ + ext@
    });
    join_path(dir.as_str(), file.as_str())
}

/// What the log writer does before writing a line.
#[derive(Clone, Copy, Debug, PartialEq, Eq, Structural)]
pub struct LogStep {
    /// Open the file of the new day.
    pub new_day: bool,
    /// Move the current file to rotation 1 and start a new one.
    pub rotate: bool,
}

/// The log writer's state: the day of the open file and its size.
pub struct LogWriter {
    pub current_date: String,
    pub current_size: u64,
    pub max_size: u64,
}

impl LogWriter {
    /// A writer for the file of `date`, of `size` bytes so far.
    pub fn new(date: String, size: u64, max_size: u64) -> (w: Self)
        ensures
            w.current_date == date,
            w.current_size == size,
            w.max_size == max_size,
    {
        LogWriter { current_date: date, current_size: size, max_size }
    }

    /// Decides what to do before writing a line of `line_len` bytes on `today`: a
    /// new day opens a new file (of size 0); a file that the line would take past
    /// a positive limit is rotated (and the size starts over); then the line is
    /// counted.
    pub fn step(&mut self, today: &str, line_len: u64) -> (s: LogStep)
        requires
            old(self).current_date@ == today@ ==> old(self).current_size + line_len <= u64::MAX,
        ensures
            s.new_day == (old(self).current_date@ != today@),
            ({
                let size0: int = if s.new_day {
                    0
                } else {
                    old(self).current_size as int
                };
                &&& s.rotate == (old(self).max_size > 0 && size0 + line_len > old(self).max_size)
                &&& final(self).current_size == if s.rotate {
                    line_len as int
                } else {
                    size0 + line_len
                }
            }),
            final(self).current_date@ == today@,
            final(self).max_size == old(self).max_size,
    {
        let new_day = !str_eq(self.current_date.as_str(), today);
        if new_day {
            self.current_date = today.to_owned();
            self.current_size = 0;
        }
        let rotate = self.max_size > 0 && self.current_size + line_len > self.max_size;
        if rotate {
            self.current_size = 0;
        }
        self.current_size = self.current_size + line_len;
        LogStep { new_day, rotate }
    }
}

/// Rotation keeps a file within its limit: after a line no longer than the limit
/// is counted, the size is within the limit.
pub proof fn law_rotation_bounds_size(size: u64, line_len: u64, max: u64)
    requires
        max > 0,
        size <= max,
        line_len <= max,
    ensures
        (if size + line_len > max {
            line_len as int
        } else {
            size + line_len
        }) <= max,
{
}

} // verus!
