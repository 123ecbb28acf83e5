//! Sites and the listeners that serve them: one site per server, or several
//! sites sharing a port, told apart by the `Host` header of each request.

use vstd::prelude::*;
use crate::config::ServerConfig;
use crate::manage::ManageConfig;
use crate::strmap::StrMap;
use crate::text::{chars_of, lowercase_of, split_chars, split_spec, to_lowercase};

verus! {

/// The host name of a `Host` header: what comes before its first `:`.
pub open spec fn host_name(host: Seq<char>) -> Seq<char> {
    split_spec(host, ':')[0]
}

/// The (domain, site) pairs of the first `k` sites, in order: each domain in
/// lower case with the position of its site.
pub open spec fn domain_pairs(cfgs: Seq<ServerConfig>, k: nat) -> Seq<(Seq<char>, usize)>
    decreases k,
{
    if k == 0 {
        Seq::empty()
    } else {
        domain_pairs(cfgs, (k - 1) as nat) + cfgs[k - 1].domains@.map_values(
            |d: String| (lowercase_of(d@), (k - 1) as usize),
        )
    }
}

/// The map that a list of pairs builds, a later pair winning over an earlier one.
pub open spec fn pairs_map(ps: Seq<(Seq<char>, usize)>) -> Map<Seq<char>, usize>
    decreases ps.len(),
{
    if ps.len() == 0 {
        Map::empty()
    } else {
        pairs_map(ps.drop_last()).insert(ps.last().0, ps.last().1)
    }
}

/// The site of each domain: the last site that lists it (domains compared in
/// lower case).
pub open spec fn domain_index(cfgs: Seq<ServerConfig>) -> Map<Seq<char>, usize> {
    pairs_map(domain_pairs(cfgs, cfgs.len()))
}

/// The position of the site that serves a request with this `Host` header: the
/// site of its host name in lower case, or the first site.
pub open spec fn resolved_index(index: Map<Seq<char>, usize>, host: Option<Seq<char>>) -> usize {
    match host {
        Some(h) => {
            let name = lowercase_of(host_name(h));
            if index.contains_key(name) {
                index[name]
            } else {
                0
            }
        },
        None => 0,
    }
}

proof fn lemma_pairs_map_values(ps: Seq<(Seq<char>, usize)>, k: Seq<char>)
    requires
        pairs_map(ps).contains_key(k),
    ensures
        exists|i: int| 0 <= i < ps.len() && ps[i].0 == k && ps[i].1 == pairs_map(ps)[k],
    decreases ps.len(),
{
    if ps.len() > 0 {
        let t = ps.drop_last();
        if k == ps.last().0 {
            assert(ps[ps.len() - 1] == ps.last());
        } else {
            lemma_pairs_map_values(t, k);
            let i = choose|i: int| 0 <= i < t.len() && t[i].0 == k && t[i].1 == pairs_map(t)[k];
            assert(ps[i] == t[i]);
        }
    }
}

proof fn lemma_domain_pairs(cfgs: Seq<ServerConfig>, k: nat, i: int)
    requires
        k <= cfgs.len(),
        cfgs.len() <= usize::MAX,
        0 <= i < domain_pairs(cfgs, k).len(),
    ensures
        ({
            let p = domain_pairs(cfgs, k)[i];
            p.1 < k && exists|j: int| 0 <= j < cfgs[p.1 as int].domains@.len()
                && lowercase_of(#[trigger] cfgs[p.1 as int].domains@[j]@) == p.0
        }),
    decreases k,
{
    if k > 0 {
        let prev = domain_pairs(cfgs, (k - 1) as nat);
        if i < prev.len() {
            assert(domain_pairs(cfgs, k)[i] == prev[i]);
            lemma_domain_pairs(cfgs, (k - 1) as nat, i);
        } else {
            let j = i - prev.len();
            let ds = cfgs[k - 1].domains@;
            assert(domain_pairs(cfgs, k)[i] == (lowercase_of(ds[j]@), (k - 1) as usize));
            assert(lowercase_of(cfgs[((k - 1) as usize) as int].domains@[j]@) == lowercase_of(ds[j]@));
        }
    }
}

/// A request whose host a site lists goes to a site that lists that host: when
/// the host name, in lower case, is in the domain index, the site it leads to is
/// one of the sites and lists a domain with that lower-case form.
pub proof fn law_resolve_lists_host(cfgs: Seq<ServerConfig>, name: Seq<char>)
    requires
        cfgs.len() <= usize::MAX,
        domain_index(cfgs).contains_key(name),
    ensures
        domain_index(cfgs)[name] < cfgs.len(),
        exists|j: int| 0 <= j < cfgs[domain_index(cfgs)[name] as int].domains@.len()
            && lowercase_of(#[trigger] cfgs[domain_index(cfgs)[name] as int].domains@[j]@) == name,
{
    let ps = domain_pairs(cfgs, cfgs.len());
    lemma_pairs_map_values(ps, name);
    let i = choose|i: int| 0 <= i < ps.len() && ps[i].0 == name && ps[i].1 == pairs_map(ps)[name];
    lemma_domain_pairs(cfgs, cfgs.len(), i);
}

/// Sites sharing a port, with the site of each domain; the first site serves
/// the requests whose host no site lists.
pub struct VirtualHostRouter {
    default_idx: usize,
    domain_map: StrMap<usize>,
    configs: Vec<ServerConfig>,
    manage_handler: Option<ManageConfig>,
}

impl VirtualHostRouter {
    /// The sites, in order.
    pub closed spec fn sites(&self) -> Seq<ServerConfig> {
        self.configs@
    }

    /// The site of each domain.
    pub closed spec fn index(&self) -> Map<Seq<char>, usize> {
        self.domain_map@
    }

    /// The management settings handed to the sites.
    pub closed spec fn manage(&self) -> Option<ManageConfig> {
        self.manage_handler
    }

    /// The domain index is well formed and built from the sites.
    pub closed spec fn wf(&self) -> bool {
        &&& self.domain_map.wf()
        &&& self.default_idx == 0
        &&& self.domain_map@ == domain_index(self.configs@)
    }

    /// A router over `configs`: each domain of each site, in lower case, leads to
    /// the last site that lists it.
    pub fn new(configs: Vec<ServerConfig>, manage_handler: Option<ManageConfig>) -> (r: Self)
        ensures
            r.wf(),
            r.sites() == configs@,
            r.index() == domain_index(configs@),
            r.manage() == manage_handler,
    {
        let mut map: StrMap<usize> = StrMap::new();
        let n = configs.len();
        let mut i: usize = 0;
        while i < n
            invariant
                n == configs@.len(),
                i <= n,
                map.wf(),
                map@ == pairs_map(domain_pairs(configs@, i as nat)),
            decreases n - i,
        {
            let ghost before = domain_pairs(configs@, i as nat);
            let domains = &configs[i].domains;
            let ghost added = domains@.map_values(|d: String| (lowercase_of(d@), i as usize));
            assert(domain_pairs(configs@, (i + 1) as nat) == before + added);
            let m = domains.len();
            let mut j: usize = 0;
            assert(before + added.take(0) =~= before);
            while j < m
                invariant
                    m == domains@.len(),
                    j <= m,
                    map.wf(),
                    added == domains@.map_values(|d: String| (lowercase_of(d@), i as usize)),
                    map@ == pairs_map(before + added.take(j as int)),
                decreases m - j,
            {
                let key = to_lowercase(domains[j].as_str());
                map.insert(key, i);
                assert((before + added.take(j + 1)).drop_last() =~= before + added.take(j as int));
                assert((before + added.take(j + 1)).last() == added[j as int]);
                j += 1;
            }
            assert(added.take(m as int) =~= added);
            i += 1;
        }
        VirtualHostRouter { default_idx: 0, domain_map: map, configs, manage_handler }
    }

    /// The position of the site that serves a request with this `Host` header.
    pub fn resolve_index(&self, host_header: Option<&str>) -> (i: usize)
        requires
            self.wf(),
        ensures
            i == resolved_index(
                self.index(),
                match host_header {
                    Some(h) => Some(h@),
                    None => None,
                },
            ),
    {
        match host_header {
            Some(host) => {
                let v = chars_of(host);
                let parts = split_chars(v.as_slice(), ':');
                proof {
                    crate::text::lemma_split_nonempty(v@, ':');
                }
                let name_chars = crate::text::string_from_chars(parts[0].as_slice());
                let name = to_lowercase(name_chars.as_str());
                match self.domain_map.get(name.as_str()) {
                    Some(idx) => *idx,
                    None => self.default_idx,
                }
            },
            None => self.default_idx,
        }
    }

    /// The site that serves a request with this `Host` header.
    pub fn resolve(&self, host_header: Option<&str>) -> (c: &ServerConfig)
        requires
            self.wf(),
            self.sites().len() > 0,
        ensures
            *c == self.sites()[resolved_index(
                self.index(),
                match host_header {
                    Some(h) => Some(h@),
                    None => None,
                },
            ) as int],
    {
        let i = self.resolve_index(host_header);
        let n = self.configs.len();
        proof {
            let host = match host_header {
                Some(h) => Some(h@),
                None => None::<Seq<char>>,
            };
            if host is Some && self.index().contains_key(lowercase_of(host_name(host->0))) {
                law_resolve_lists_host(self.configs@, lowercase_of(host_name(host->0)));
            }
        }
        &self.configs[i]
    }

    /// All the sites.
    pub fn all_configs(&self) -> (r: &[ServerConfig])
        ensures
            r@ == self.sites(),
    {
        self.configs.as_slice()
    }

    /// The management settings handed to the sites.
    pub fn manage_handler(&self) -> (r: Option<&ManageConfig>)
        ensures
            match r {
                Some(m) => self.manage() == Some(*m),
                None => self.manage() is None,
            },
    {
        match &self.manage_handler {
            Some(m) => Some(m),
            None => None,
        }
    }
}

/// One site served on its own port.
pub struct HttpServer {
    pub config: ServerConfig,
    pub manage_handler: Option<ManageConfig>,
}

impl HttpServer {
    pub fn new(config: ServerConfig) -> (s: Self)
        ensures
            s.config == config,
            s.manage_handler is None,
    {
        HttpServer { config, manage_handler: None }
    }

    pub fn new_with_manage(config: ServerConfig, manage_handler: ManageConfig) -> (s: Self)
        ensures
            s.config == config,
            s.manage_handler == Some(manage_handler),
    {
        HttpServer { config, manage_handler: Some(manage_handler) }
    }
}

/// Several sites sharing one port.
pub struct VirtualHostServer {
    pub router: VirtualHostRouter,
}

impl VirtualHostServer {
    pub fn new(router: VirtualHostRouter) -> (s: Self)
        ensures
            s.router == router,
    {
        VirtualHostServer { router }
    }
}

/// The HTTP/3 port of a site: its setting read as a port number, 0 (off) when
/// it does not read as one.
pub open spec fn h3_port_spec(setting: Seq<char>) -> u16 {
    match crate::handler::parse_u16_spec(setting) {
        Some(p) => p,
        None => 0,
    }
}

/// The HTTP/3 port of a site.
pub fn h3_port(setting: &str) -> (p: u16)
    ensures
        p == h3_port_spec(setting@),
{
    let v = chars_of(setting);
    match crate::text::parse_u64_chars(v.as_slice()) {
        Some(n) => if n <= 65535 {
            n as u16
        } else {
            0
        },
        None => 0,
    }
}

/// The site whose HTTP/3 listener a shared port opens: the first with an HTTP/3
/// port and a certificate.
pub fn first_h3_site(configs: &[ServerConfig]) -> (r: Option<usize>)
    ensures
        match r {
            Some(i) => i < configs@.len() && h3_port_spec(configs@[i as int].http3_port@) > 0
                && configs@[i as int].cert is Some && forall|j: int| 0 <= j < i ==> !(h3_port_spec(
                #[trigger] configs@[j].http3_port@,
            ) > 0 && configs@[j].cert is Some),
            None => forall|j: int| 0 <= j < configs@.len() ==> !(h3_port_spec(
                #[trigger] configs@[j].http3_port@,
            ) > 0 && configs@[j].cert is Some),
        },
{
    let n = configs.len();
    let mut i: usize = 0;
    while i < n
        invariant
            n == configs@.len(),
            i <= n,
            forall|j: int| 0 <= j < i ==> !(h3_port_spec(#[trigger] configs@[j].http3_port@) > 0
                && configs@[j].cert is Some),
        decreases n - i,
    {
        if h3_port(configs[i].http3_port.as_str()) > 0 && configs[i].cert.is_some() {
            return Some(i);
        }
        i += 1;
    }
    None
}

} // verus!
