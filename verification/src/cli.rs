//! Decisions of the command line and of the master process: where the
//! configuration comes from, how many worker processes run, the CGI set-up given
//! on the command line, and which worker an exit concerns.

use vstd::prelude::*;
use crate::config::{AppConfig, CgiConfig, ServerConfig};
use crate::text::{chars_of, split_chars, split_spec, string_from_chars, trim_chars, trim_spec};

verus! {

/// The number of worker processes: the first site's setting when it is
/// positive; otherwise (0, or no site) one per CPU, and at least one.
pub open spec fn workers_spec(servers: Seq<ServerConfig>, available_cpus: usize) -> usize {
    let w = if servers.len() > 0 {
        servers[0].workers
    } else {
        0
    };
    if w > 0 {
        w
    } else if available_cpus > 0 {
        available_cpus
    } else {
        1
    }
}

/// The number of worker processes, given the number of CPUs available.
pub fn determine_workers(app_config: &AppConfig, available_cpus: usize) -> (n: usize)
    ensures
        n == workers_spec(app_config.server@, available_cpus),
        n >= 1,
{
    let w = if app_config.server.len() > 0 {
        app_config.server[0].workers
    } else {
        0
    };
    if w > 0 {
        w
    } else if available_cpus > 0 {
        available_cpus
    } else {
        1
    }
}

/// The worker count asked for on the command line: `--workers`, else the older
/// `--threads`, else 0 (the configuration decides).
pub fn requested_workers(workers: usize, threads: usize) -> (n: usize)
    ensures
        n == if workers > 0 {
            workers
        } else if threads > 0 {
            threads
        } else {
            0
        },
{
    if workers > 0 {
        workers
    } else if threads > 0 {
        threads
    } else {
        0
    }
}

/// Where the configuration comes from.
#[derive(Clone, Copy, Debug, PartialEq, Eq, Structural)]
pub enum ConfigSource {
    /// The file given with `-c`.
    File,
    /// One site from `-a` and `-r`.
    CommandLine,
    /// Neither was given: print the usage and stop.
    Usage,
}

/// Where the configuration comes from: a file when one is named, else the
/// command line when an address is given, else nowhere.
pub fn config_source(config: &str, addr: &str) -> (s: ConfigSource)
    ensures
        s == if config@.len() > 0 {
            ConfigSource::File
        } else if addr@.len() > 0 {
            ConfigSource::CommandLine
        } else {
            ConfigSource::Usage
        },
{
    let c = chars_of(config);
    let a = chars_of(addr);
    if c.len() > 0 {
        ConfigSource::File
    } else if a.len() > 0 {
        ConfigSource::CommandLine
    } else {
        ConfigSource::Usage
    }
}

/// Sets the worker count of every site, when a count is given.
pub fn apply_workers(cfg: &mut AppConfig, workers: usize)
    ensures
        final(cfg).config_path == old(cfg).config_path,
        final(cfg).server@.len() == old(cfg).server@.len(),
        forall|i: int| 0 <= i < old(cfg).server@.len() ==> #[trigger] final(cfg).server@[i] == if workers > 0 {
            (ServerConfig { workers, ..old(cfg).server@[i] })
        } else {
            old(cfg).server@[i]
        },
{
    if workers == 0 {
        return;
    }
    let mut rest: Vec<ServerConfig> = Vec::new();
    std::mem::swap(&mut rest, &mut cfg.server);
    let ghost orig = rest@;
    let mut out: Vec<ServerConfig> = Vec::new();
    while rest.len() > 0
        invariant
            out@.len() + rest@.len() == orig.len(),
            rest@ == orig.skip(out@.len() as int),
            forall|i: int| 0 <= i < out@.len() ==> #[trigger] out@[i] == (ServerConfig { workers, ..orig[i] }),
        decreases rest@.len(),
    {
        let ghost k = out@.len();
        let mut s = rest.remove(0);
        assert(s == orig[k as int]);
        s.workers = workers;
        out.push(s);
        assert(rest@ =~= orig.skip(out@.len() as int));
    }
    cfg.server = out;
}

/// Adds a CGI interpreter for the given extensions to every site.
pub fn add_cgi(cfg: &mut AppConfig, interpreter: &str, extensions: &Vec<String>)
    ensures
        final(cfg).config_path == old(cfg).config_path,
        final(cfg).server@.len() == old(cfg).server@.len(),
        forall|i: int| 0 <= i < old(cfg).server@.len() ==> {
            let s = #[trigger] final(cfg).server@[i];
            let o = old(cfg).server@[i];
            &&& s == (ServerConfig { cgi: s.cgi, ..o })
            &&& s.cgi@.len() == o.cgi@.len() + 1
            &&& s.cgi@.take(o.cgi@.len() as int) == o.cgi@
            &&& s.cgi@.last().interpreter@ == interpreter@
            &&& s.cgi@.last().extensions@ == extensions@
        },
{
    let mut rest: Vec<ServerConfig> = Vec::new();
    std::mem::swap(&mut rest, &mut cfg.server);
    let ghost orig = rest@;
    let mut out: Vec<ServerConfig> = Vec::new();
    while rest.len() > 0
        invariant
            out@.len() + rest@.len() == orig.len(),
            rest@ == orig.skip(out@.len() as int),
            forall|i: int| 0 <= i < out@.len() ==> {
                let s = #[trigger] out@[i];
                let o = orig[i];
                &&& s == (ServerConfig { cgi: s.cgi, ..o })
                &&& s.cgi@.len() == o.cgi@.len() + 1
                &&& s.cgi@.take(o.cgi@.len() as int) == o.cgi@
                &&& s.cgi@.last().interpreter@ == interpreter@
                &&& s.cgi@.last().extensions@ == extensions@
            },
        decreases rest@.len(),
    {
        let ghost k = out@.len();
        let mut s = rest.remove(0);
        assert(s == orig[k as int]);
        let ghost before = s.cgi@;
        s.cgi.push(CgiConfig { extensions: copy_texts(extensions), interpreter: interpreter.to_owned() });
        assert(s.cgi@.take(before.len() as int) =~= before);
        out.push(s);
        assert(rest@ =~= orig.skip(out@.len() as int));
    }
    cfg.server = out;
}

fn copy_texts(v: &Vec<String>) -> (r: Vec<String>)
    ensures
        r@ == v@,
{
    let mut out: Vec<String> = Vec::new();
    let mut i: usize = 0;
    while i < v.len()
        invariant
            i <= v@.len(),
            out@ == v@.take(i as int),
        decreases v@.len() - i,
    {
        out.push(v[i].clone());
        i += 1;
        assert(out@ =~= v@.take(i as int));
    }
    assert(v@.take(v@.len() as int) =~= v@);
    out
}

/// The CGI extensions given on the command line: the comma-separated list,
/// each trimmed, or `.php` when the list is empty.
pub open spec fn cgi_ext_spec(list: Seq<char>) -> Seq<Seq<char>> {
    if list.len() == 0 {
        seq![".php"@]
    } else {
        split_spec(list, ',').map_values(|p: Seq<char>| trim_spec(p))
    }
}

/// The CGI extensions given on the command line.
pub fn cgi_extensions(list: &str) -> (r: Vec<String>)
    ensures
        r@.map_values(|s: String| s@) == cgi_ext_spec(list@),
{
    let v = chars_of(list);
    if v.len() == 0 {
        let mut r: Vec<String> = Vec::new();
        r.push(".php".to_owned());
        assert(r@.map_values(|s: String| s@) =~= seq![".php"@]);
        return r;
    }
    let parts = split_chars(v.as_slice(), ',');
    let ghost all = split_spec(list@, ',');
    let mut r: Vec<String> = Vec::new();
    let n = parts.len();
    let mut i: usize = 0;
    while i < n
        invariant
            n == parts@.len(),
            n == all.len(),
            all == split_spec(list@, ','),
            i <= n,
            forall|j: int| 0 <= j < n ==> #[trigger] parts@[j]@ == all[j],
            r@.map_values(|s: String| s@) == all.take(i as int).map_values(|p: Seq<char>| trim_spec(p)),
        decreases n - i,
    {
        assert(parts@[i as int]@ == all[i as int]);
        let t = trim_chars(parts[i].as_slice());
        let ghost before = r@;
        r.push(string_from_chars(t.as_slice()));
        assert(r@.map_values(|s: String| s@) =~= before.map_values(|s: String| s@).push(trim_spec(all[i as int])));
        assert(all.take(i + 1).map_values(|p: Seq<char>| trim_spec(p)) =~= all.take(i as int).map_values(|p: Seq<char>| trim_spec(p)).push(trim_spec(all[i as int])));
        assert(r@.map_values(|s: String| s@) =~= all.take(i + 1).map_values(|p: Seq<char>| trim_spec(p)));
        i += 1;
    }
    assert(all.take(n as int) =~= all);
    r
}

/// The position of a worker among the running ones, by its process id.
pub fn find_child(children: &[i32], pid: i32) -> (r: Option<usize>)
    ensures
        match r {
            Some(i) => i < children@.len() && children@[i as int] == pid && forall|j: int| 0 <= j < i ==> children@[j] != pid,
            None => forall|j: int| 0 <= j < children@.len() ==> children@[j] != pid,
        },
{
    let n = children.len();
    let mut i: usize = 0;
    while i < n
        invariant
            n == children@.len(),
            i <= n,
            forall|j: int| 0 <= j < i ==> children@[j] != pid,
        decreases n - i,
    {
        if children[i] == pid {
            return Some(i);
        }
        i += 1;
    }
    None
}

} // verus!
