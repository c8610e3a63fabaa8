//! The `devx.toml` configuration: its data, its validity rules, the
//! difference between two versions of it, and `${...}` interpolation.
use vstd::prelude::*;

use crate::strmap::{strs, StrMap};
use crate::text::{
    all_ws, chars_of, contains_seq, lemma_contains_find, dec, dec_chars, extend_chars, find_chars, find_from, is_blank,
    lemma_find_from, replace_all, replace_chars, slice_chars, str_eq, string_from,
};

verus! {

/// The value of a boolean setting that is on unless configured otherwise.
pub fn default_true() -> (r: bool)
    ensures
        r,
{
    true
}

/// Settings of the per-service reverse proxies.
#[derive(Debug)]
pub struct ProxyConfig {
    pub tls: bool,
}

/// The `[project]` table.
#[derive(Debug)]
pub struct ProjectConfig {
    pub name: String,
}

/// The `[infra]` table.
#[derive(Debug)]
pub struct InfraConfig {
    pub compose: String,
}

/// One `[services.NAME]` table.
#[derive(Debug)]
pub struct ServiceConfig {
    pub cmd: String,
    pub dir: Option<String>,
    pub port: Option<u16>,
    pub health: Option<String>,
    pub domain: Option<String>,
    pub env: StrMap<String>,
    pub depends_on: Vec<String>,
    pub watch: bool,
    pub env_file: Option<String>,
    pub managed: bool,
}

/// The whole configuration.
#[derive(Debug)]
pub struct DevxConfig {
    pub project: ProjectConfig,
    pub infra: Option<InfraConfig>,
    pub proxy: Option<ProxyConfig>,
    pub services: StrMap<ServiceConfig>,
}

/// How the services of two configurations compare.
#[derive(Debug)]
pub struct ConfigDiff {
    pub added: Vec<String>,
    pub removed: Vec<String>,
    pub changed: Vec<String>,
    pub unchanged: Vec<String>,
}

/// Why a configuration is refused.
#[derive(Debug)]
pub enum ConfigError {
    NoServices,
    EmptyCmd { service: String },
    MissingDependency { service: String, dependency: String },
}

/// The characters of an optional string.
pub open spec fn opt_str(o: Option<String>) -> Option<Seq<char>> {
    match o {
        Some(s) => Some(s@),
        None => None,
    }
}

/// A string map as a map of character sequences.
pub open spec fn str_map(m: StrMap<String>) -> Map<Seq<char>, Seq<char>> {
    Map::new(|k: Seq<char>| m.keys().contains(k), |k: Seq<char>| m.lookup(k)->0@)
}

/// Two service tables are equal: every field equal, the environment as a
/// set of pairs (the order of its entries does not matter).
pub open spec fn same_service(a: ServiceConfig, b: ServiceConfig) -> bool {
    &&& a.cmd@ == b.cmd@
    &&& opt_str(a.dir) == opt_str(b.dir)
    &&& a.port == b.port
    &&& opt_str(a.health) == opt_str(b.health)
    &&& opt_str(a.domain) == opt_str(b.domain)
    &&& str_map(a.env) == str_map(b.env)
    &&& strs(a.depends_on@) == strs(b.depends_on@)
    &&& a.watch == b.watch
    &&& opt_str(a.env_file) == opt_str(b.env_file)
    &&& a.managed == b.managed
}

fn opt_str_eq(a: &Option<String>, b: &Option<String>) -> (r: bool)
    ensures
        r == (opt_str(*a) == opt_str(*b)),
{
    match (a, b) {
        (Some(x), Some(y)) => str_eq(x.as_str(), y.as_str()),
        (None, None) => true,
        _ => false,
    }
}

fn strings_eq(a: &Vec<String>, b: &Vec<String>) -> (r: bool)
    ensures
        r == (strs(a@) == strs(b@)),
{
    if a.len() != b.len() {
        proof {
            assert(strs(a@).len() != strs(b@).len());
        }
        return false;
    }
    let mut i: usize = 0;
    while i < a.len()
        invariant
            a.len() == b.len(),
            i <= a.len(),
            forall|j: int| 0 <= j < i ==> a@[j]@ == b@[j]@,
        decreases a.len() - i,
    {
        if !str_eq(a[i].as_str(), b[i].as_str()) {
            proof {
                assert(strs(a@)[i as int] != strs(b@)[i as int]);
            }
            return false;
        }
        i = i + 1;
    }
    proof {
        assert(strs(a@) =~= strs(b@));
    }
    true
}

/// Every entry of `a` is in `b` with the same value.
pub open spec fn map_within(a: StrMap<String>, b: StrMap<String>) -> bool {
    forall|k: Seq<char>|
        #[trigger] a.keys().contains(k) ==> b.lookup(k) is Some && b.lookup(k)->0@ == a.lookup(
            k,
        )->0@
}

fn str_map_within(a: &StrMap<String>, b: &StrMap<String>) -> (r: bool)
    ensures
        r == map_within(*a, *b),
{
    proof {
        use_type_invariant(a);
        a.lemma_inv();
    }
    let n = a.len();
    let mut i: usize = 0;
    while i < n
        invariant
            n == a.keys().len(),
            a.inv(),
            i <= n,
            forall|j: int|
                0 <= j < i ==> b.lookup(#[trigger] a.keys()[j]) is Some && b.lookup(
                    a.keys()[j],
                )->0@ == a.vals()[j]@,
        decreases n - i,
    {
        let k = a.key_at(i);
        proof {
            a.lemma_inv();
            assert(a.lookup(a.keys()[i as int]) == Some(a.vals()[i as int]));
            assert(a.keys().contains(a.keys()[i as int]));
        }
        match b.get(k.as_str()) {
            Some(v) => {
                if !str_eq(v.as_str(), a.value_at(i).as_str()) {
                    return false;
                }
            },
            None => {
                return false;
            },
        }
        i = i + 1;
    }
    proof {
        a.lemma_inv();
        assert forall|k: Seq<char>| #[trigger] a.keys().contains(k) implies b.lookup(k) is Some
            && b.lookup(k)->0@ == a.lookup(k)->0@ by {
            let j = choose|j: int| 0 <= j < a.keys().len() && a.keys()[j] == k;
            assert(a.lookup(a.keys()[j]) == Some(a.vals()[j]));
        }
    }
    true
}

fn str_map_eq(a: &StrMap<String>, b: &StrMap<String>) -> (r: bool)
    ensures
        r == (str_map(*a) == str_map(*b)),
{
    let ab = str_map_within(a, b);
    let ba = str_map_within(b, a);
    proof {
        if ab && ba {
            assert forall|k: Seq<char>| #[trigger] str_map(*a).contains_key(k) <==> str_map(*b).contains_key(k) by {
                if a.keys().contains(k) {
                    assert(b.lookup(k) is Some);
                }
                if b.keys().contains(k) {
                    assert(a.lookup(k) is Some);
                }
            }
            assert(str_map(*a) =~= str_map(*b));
        }
        if str_map(*a) == str_map(*b) {
            assert forall|k: Seq<char>| #[trigger] a.keys().contains(k) implies b.lookup(k) is Some
                && b.lookup(k)->0@ == a.lookup(k)->0@ by {
                assert(str_map(*a).contains_key(k));
                assert(str_map(*b).contains_key(k));
                assert(str_map(*a)[k] == a.lookup(k)->0@);
                assert(str_map(*b)[k] == b.lookup(k)->0@);
            }
            assert forall|k: Seq<char>| #[trigger] b.keys().contains(k) implies a.lookup(k) is Some
                && a.lookup(k)->0@ == b.lookup(k)->0@ by {
                assert(str_map(*b).contains_key(k));
                assert(str_map(*a).contains_key(k));
                assert(str_map(*a)[k] == a.lookup(k)->0@);
                assert(str_map(*b)[k] == b.lookup(k)->0@);
            }
        }
    }
    ab && ba
}

impl ServiceConfig {
    /// Whether two service tables are equal (`==` on the table).
    pub fn same_as(&self, other: &ServiceConfig) -> (r: bool)
        ensures
            r == same_service(*self, *other),
    {
        str_eq(self.cmd.as_str(), other.cmd.as_str()) && opt_str_eq(&self.dir, &other.dir)
            && self.port == other.port && opt_str_eq(&self.health, &other.health) && opt_str_eq(
            &self.domain,
            &other.domain,
        ) && str_map_eq(&self.env, &other.env) && strings_eq(&self.depends_on, &other.depends_on)
            && self.watch == other.watch && opt_str_eq(&self.env_file, &other.env_file)
            && self.managed == other.managed
    }
}

/// Whether the proxies serve TLS: yes unless `[proxy] tls = false`.
pub open spec fn tls_on(c: &DevxConfig) -> bool {
    match c.proxy {
        Some(p) => p.tls,
        None => true,
    }
}

/// The names of the services of `c`, in order.
pub open spec fn service_names(c: &DevxConfig) -> Seq<Seq<char>> {
    c.services.keys()
}

/// The service table named `k`.
pub open spec fn service(c: &DevxConfig, k: Seq<char>) -> ServiceConfig {
    c.services.lookup(k)->0
}

/// The service at position `i` is valid: its command is not blank and every
/// dependency names a service.
pub open spec fn service_valid(c: &DevxConfig, i: int) -> bool {
    &&& !all_ws(c.services.vals()[i].cmd@)
    &&& forall|t: int|
        0 <= t < c.services.vals()[i].depends_on@.len() ==> c.services.keys().contains(
            #[trigger] strs(c.services.vals()[i].depends_on@)[t],
        )
}

/// Every service before position `i` is valid.
pub open spec fn valid_before(c: &DevxConfig, i: int) -> bool {
    forall|j: int| 0 <= j < i ==> #[trigger] service_valid(c, j)
}

/// `d` is how the services of `a` compare with those of `b`: `removed`
/// are only in `a`, `added` only in `b` (each in its configuration's
/// order), and the names in both are `changed` or `unchanged` according to
/// whether their tables are equal.
pub open spec fn diff_of(a: &DevxConfig, b: &DevxConfig, d: ConfigDiff) -> bool {
    &&& strs(d.removed@) == a.services.keys().filter(|k: Seq<char>| !b.services.keys().contains(k))
    &&& strs(d.changed@) == a.services.keys().filter(
        |k: Seq<char>| b.services.keys().contains(k) && !same_service(service(a, k), service(b, k)),
    )
    &&& strs(d.unchanged@) == a.services.keys().filter(
        |k: Seq<char>| b.services.keys().contains(k) && same_service(service(a, k), service(b, k)),
    )
    &&& strs(d.added@) == b.services.keys().filter(|k: Seq<char>| !a.services.keys().contains(k))
}

proof fn lemma_filter_all(s: Seq<Seq<char>>, p: spec_fn(Seq<char>) -> bool)
    requires
        forall|i: int| 0 <= i < s.len() ==> p(#[trigger] s[i]),
    ensures
        s.filter(p) == s,
    decreases s.len(),
{
    if s.len() == 0 {
        s.lemma_filter_len(p);
        assert(s.filter(p) =~= s);
    } else {
        lemma_filter_all(s.drop_last(), p);
        s.drop_last().lemma_filter_push(s.last(), p);
        assert(s.drop_last().push(s.last()) =~= s);
    }
}

proof fn lemma_filter_none(s: Seq<Seq<char>>, p: spec_fn(Seq<char>) -> bool)
    requires
        forall|i: int| 0 <= i < s.len() ==> !p(#[trigger] s[i]),
    ensures
        s.filter(p).len() == 0,
{
    if s.filter(p).len() > 0 {
        let y = s.filter(p)[0];
        s.lemma_filter_pred(p, 0);
        assert(s.filter(p).contains(y));
        s.lemma_filter_contains_rev(p, y);
        let i = s.index_of(y);
        assert(s[i] == y);
    }
}

proof fn lemma_filter_member(s: Seq<Seq<char>>, p: spec_fn(Seq<char>) -> bool, x: Seq<char>)
    requires
        s.contains(x),
    ensures
        s.filter(p).contains(x) == p(x),
{
    if p(x) {
        let i = s.index_of(x);
        s.lemma_filter_contains(p, i);
    }
    if s.filter(p).contains(x) {
        let j = s.filter(p).index_of(x);
        s.lemma_filter_pred(p, j);
    }
}

/// A reload sorts every service exactly once: each old service is removed,
/// changed or unchanged according to whether the new configuration has it
/// and with an equal table; each new service is added exactly when the old
/// configuration lacks it.
pub proof fn lemma_diff_partition(a: &DevxConfig, b: &DevxConfig, d: ConfigDiff, k: Seq<char>)
    requires
        diff_of(a, b, d),
    ensures
        a.services.keys().contains(k) ==> {
            &&& strs(d.removed@).contains(k) == !b.services.keys().contains(k)
            &&& strs(d.changed@).contains(k) == (b.services.keys().contains(k) && !same_service(
                service(a, k),
                service(b, k),
            ))
            &&& strs(d.unchanged@).contains(k) == (b.services.keys().contains(k) && same_service(
                service(a, k),
                service(b, k),
            ))
        },
        b.services.keys().contains(k) ==> strs(d.added@).contains(k)
            == !a.services.keys().contains(k),
{
    let ka = a.services.keys();
    let kb = b.services.keys();
    if ka.contains(k) {
        lemma_filter_member(ka, |q: Seq<char>| !kb.contains(q), k);
        lemma_filter_member(
            ka,
            |q: Seq<char>| kb.contains(q) && !same_service(service(a, q), service(b, q)),
            k,
        );
        lemma_filter_member(
            ka,
            |q: Seq<char>| kb.contains(q) && same_service(service(a, q), service(b, q)),
            k,
        );
    }
    if kb.contains(k) {
        lemma_filter_member(kb, |q: Seq<char>| !ka.contains(q), k);
    }
}

proof fn lemma_filter_distinct(s: Seq<Seq<char>>, p: spec_fn(Seq<char>) -> bool)
    requires
        s.no_duplicates(),
    ensures
        s.filter(p).no_duplicates(),
    decreases s.len(),
{
    if s.len() == 0 {
        s.lemma_filter_len(p);
    } else {
        let t = s.drop_last();
        let x = s.last();
        assert(t.no_duplicates()) by {
            assert forall|i: int, j: int| 0 <= i < t.len() && 0 <= j < t.len() && i != j implies t[i]
                != t[j] by {
                assert(t[i] == s[i] && t[j] == s[j]);
            }
        }
        lemma_filter_distinct(t, p);
        t.lemma_filter_push(x, p);
        assert(t.push(x) =~= s);
        if p(x) {
            let f = t.filter(p);
            if f.contains(x) {
                t.lemma_filter_contains_rev(p, x);
                let i = t.index_of(x);
                assert(s[i] == s[s.len() - 1]);
            }
            let g = f.push(x);
            assert forall|i: int, j: int| 0 <= i < g.len() && 0 <= j < g.len() && i != j implies g[i]
                != g[j] by {
                if i < f.len() && j < f.len() {
                    assert(g[i] == f[i] && g[j] == f[j]);
                } else if i == f.len() {
                    assert(g[j] == f[j]);
                    assert(f.contains(f[j]));
                } else {
                    assert(g[i] == f[i]);
                    assert(f.contains(f[i]));
                }
            }
        }
    }
}

/// No service is listed twice in any part of a diff.
pub proof fn lemma_diff_distinct(a: &DevxConfig, b: &DevxConfig, d: ConfigDiff)
    requires
        diff_of(a, b, d),
        a.services.inv(),
        b.services.inv(),
    ensures
        strs(d.added@).no_duplicates(),
        strs(d.removed@).no_duplicates(),
        strs(d.changed@).no_duplicates(),
        strs(d.unchanged@).no_duplicates(),
{
    let ka = a.services.keys();
    let kb = b.services.keys();
    a.services.lemma_inv();
    b.services.lemma_inv();
    lemma_filter_distinct(ka, |q: Seq<char>| !kb.contains(q));
    lemma_filter_distinct(
        ka,
        |q: Seq<char>| kb.contains(q) && !same_service(service(a, q), service(b, q)),
    );
    lemma_filter_distinct(
        ka,
        |q: Seq<char>| kb.contains(q) && same_service(service(a, q), service(b, q)),
    );
    lemma_filter_distinct(kb, |q: Seq<char>| !ka.contains(q));
}

/// Two service tables count as the same exactly when every field agrees:
/// the command, directory, port, health URL, domain, environment (as a map),
/// dependencies, watch flag, env file and managed flag.
pub proof fn lemma_same_service_fields(a: ServiceConfig, b: ServiceConfig)
    ensures
        same_service(a, b) <==> (a.cmd@ == b.cmd@ && opt_str(a.dir) == opt_str(b.dir) && a.port
            == b.port && opt_str(a.health) == opt_str(b.health) && opt_str(a.domain) == opt_str(
            b.domain,
        ) && str_map(a.env) == str_map(b.env) && strs(a.depends_on@) == strs(b.depends_on@)
            && a.watch == b.watch && opt_str(a.env_file) == opt_str(b.env_file) && a.managed
            == b.managed),
{
}

/// A service kept across a reload whose table differs in any field (its
/// port, say) is reported changed, never unchanged; one whose fields all
/// agree is reported unchanged, never changed.
pub proof fn lemma_diff_field_change(a: &DevxConfig, b: &DevxConfig, d: ConfigDiff, k: Seq<char>)
    requires
        diff_of(a, b, d),
        a.services.keys().contains(k),
        b.services.keys().contains(k),
    ensures
        ({
            let x = service(a, k);
            let y = service(b, k);
            let equal = x.cmd@ == y.cmd@ && opt_str(x.dir) == opt_str(y.dir) && x.port == y.port
                && opt_str(x.health) == opt_str(y.health) && opt_str(x.domain) == opt_str(y.domain)
                && str_map(x.env) == str_map(y.env) && strs(x.depends_on@) == strs(y.depends_on@)
                && x.watch == y.watch && opt_str(x.env_file) == opt_str(y.env_file) && x.managed
                == y.managed;
            &&& !equal ==> strs(d.changed@).contains(k) && !strs(d.unchanged@).contains(k)
            &&& equal ==> strs(d.unchanged@).contains(k) && !strs(d.changed@).contains(k)
        }),
{
    lemma_diff_partition(a, b, d, k);
    lemma_same_service_fields(service(a, k), service(b, k));
}

/// Comparing a configuration with one that has the same services, with
/// equal tables, finds nothing added, removed or changed: every service is
/// unchanged.
pub proof fn lemma_diff_same(a: &DevxConfig, b: &DevxConfig, d: ConfigDiff)
    requires
        diff_of(a, b, d),
        a.services.keys() == b.services.keys(),
        forall|k: Seq<char>|
            a.services.keys().contains(k) ==> #[trigger] same_service(service(a, k), service(b, k)),
    ensures
        d.added@.len() == 0,
        d.removed@.len() == 0,
        d.changed@.len() == 0,
        strs(d.unchanged@) == a.services.keys(),
{
    let ka = a.services.keys();
    let kb = b.services.keys();
    assert forall|i: int| 0 <= i < ka.len() implies kb.contains(#[trigger] ka[i]) by {
        assert(kb[i] == ka[i]);
    }
    lemma_filter_none(ka, |k: Seq<char>| !kb.contains(k));
    lemma_filter_none(ka, |k: Seq<char>| kb.contains(k) && !same_service(service(a, k), service(b, k)));
    lemma_filter_all(ka, |k: Seq<char>| kb.contains(k) && same_service(service(a, k), service(b, k)));
    assert forall|i: int| 0 <= i < kb.len() implies ka.contains(#[trigger] kb[i]) by {
        assert(ka[i] == kb[i]);
    }
    lemma_filter_none(kb, |k: Seq<char>| !ka.contains(k));
}

impl DevxConfig {
    /// Whether the proxies serve TLS (on unless `[proxy] tls = false`).
    pub fn tls_enabled(&self) -> (r: bool)
        ensures
            r == tls_on(self),
    {
        match &self.proxy {
            Some(p) => p.tls,
            None => true,
        }
    }

    /// Checks the rules of a configuration: at least one service, no blank
    /// command, no dependency on a service that does not exist. Services are
    /// checked in order and the first fault found is reported.
    pub fn validate(&self) -> (r: Result<(), ConfigError>)
        ensures
            r is Ok <==> self.services.keys().len() > 0 && valid_before(
                self,
                self.services.keys().len() as int,
            ),
            (r matches Err(ConfigError::NoServices)) <==> self.services.keys().len() == 0,
            r matches Err(ConfigError::EmptyCmd { service }) ==> exists|i: int|
                0 <= i < self.services.keys().len() && valid_before(self, i) && service@
                    == self.services.keys()[i] && all_ws(self.services.vals()[i].cmd@),
            r matches Err(ConfigError::MissingDependency { service, dependency }) ==> exists|
                i: int,
                t: int,
            |
                0 <= i < self.services.keys().len() && valid_before(self, i) && service@
                    == self.services.keys()[i] && !all_ws(self.services.vals()[i].cmd@) && 0 <= t
                    < self.services.vals()[i].depends_on@.len() && dependency@ == strs(
                    self.services.vals()[i].depends_on@,
                )[t] && !self.services.keys().contains(dependency@) && forall|u: int|
                    0 <= u < t ==> self.services.keys().contains(
                        #[trigger] strs(self.services.vals()[i].depends_on@)[u],
                    ),
    {
        let n = self.services.len();
        if n == 0 {
            return Err(ConfigError::NoServices);
        }
        let mut i: usize = 0;
        while i < n
            invariant
                n == self.services.keys().len(),
                n == self.services.vals().len(),
                n > 0,
                i <= n,
                valid_before(self, i as int),
            decreases n - i,
        {
            let name = self.services.key_at(i);
            let svc = self.services.value_at(i);
            if is_blank(svc.cmd.as_str()) {
                proof {
                    assert(!service_valid(self, i as int));
                }
                return Err(ConfigError::EmptyCmd { service: name.clone() });
            }
            let mut t: usize = 0;
            while t < svc.depends_on.len()
                invariant
                    n == self.services.keys().len(),
                    n == self.services.vals().len(),
                    i < n,
                    *svc == self.services.vals()[i as int],
                    name@ == self.services.keys()[i as int],
                    valid_before(self, i as int),
                    !all_ws(svc.cmd@),
                    t <= svc.depends_on.len(),
                    forall|u: int|
                        0 <= u < t ==> self.services.keys().contains(
                            #[trigger] strs(svc.depends_on@)[u],
                        ),
                decreases svc.depends_on.len() - t,
            {
                let dep = &svc.depends_on[t];
                if !self.services.contains_key(dep.as_str()) {
                    proof {
                        assert(strs(svc.depends_on@)[t as int] == dep@);
                        assert(!service_valid(self, i as int));
                        assert(0 <= i < self.services.keys().len() && valid_before(self, i as int)
                            && name@ == self.services.keys()[i as int] && !all_ws(
                            self.services.vals()[i as int].cmd@,
                        ) && 0 <= t < self.services.vals()[i as int].depends_on@.len() && dep@ == strs(
                            self.services.vals()[i as int].depends_on@,
                        )[t as int] && !self.services.keys().contains(dep@));
                    }
                    return Err(
                        ConfigError::MissingDependency { service: name.clone(), dependency: dep.clone() },
                    );
                }
                proof {
                    assert(strs(svc.depends_on@)[t as int] == dep@);
                }
                t = t + 1;
            }
            proof {
                assert(service_valid(self, i as int));
                assert forall|j: int| 0 <= j < i + 1 implies #[trigger] service_valid(self, j) by {}
            }
            i = i + 1;
        }
        Ok(())
    }

    /// Compares the services of this configuration with those of `other`:
    /// `removed` are only here, `added` only there (each in the order of its
    /// configuration), and the names in both are `changed` or `unchanged`
    /// according to whether their tables are equal.
    pub fn diff(&self, other: &DevxConfig) -> (d: ConfigDiff)
        ensures
            strs(d.removed@) == self.services.keys().filter(
                |k: Seq<char>| !other.services.keys().contains(k),
            ),
            strs(d.changed@) == self.services.keys().filter(
                |k: Seq<char>|
                    other.services.keys().contains(k) && !same_service(
                        service(self, k),
                        service(other, k),
                    ),
            ),
            strs(d.unchanged@) == self.services.keys().filter(
                |k: Seq<char>|
                    other.services.keys().contains(k) && same_service(
                        service(self, k),
                        service(other, k),
                    ),
            ),
            strs(d.added@) == other.services.keys().filter(
                |k: Seq<char>| !self.services.keys().contains(k),
            ),
            diff_of(self, other, d),
    {
        let ghost ks = self.services.keys();
        let ghost ko = other.services.keys();
        let ghost p_removed = |k: Seq<char>| !ko.contains(k);
        let ghost p_changed = |k: Seq<char>|
            ko.contains(k) && !same_service(service(self, k), service(other, k));
        let ghost p_unchanged = |k: Seq<char>|
            ko.contains(k) && same_service(service(self, k), service(other, k));
        let ghost p_added = |k: Seq<char>| !ks.contains(k);
        proof {
            use_type_invariant(&self.services);
            self.services.lemma_inv();
            use_type_invariant(&other.services);
            other.services.lemma_inv();
        }
        let mut added: Vec<String> = Vec::new();
        let mut removed: Vec<String> = Vec::new();
        let mut changed: Vec<String> = Vec::new();
        let mut unchanged: Vec<String> = Vec::new();
        let n = self.services.len();
        let mut i: usize = 0;
        proof {
            reveal(Seq::filter);
            assert(ks.take(0) =~= Seq::<Seq<char>>::empty());
            assert(strs(removed@) =~= Seq::<Seq<char>>::empty());
            assert(strs(changed@) =~= Seq::<Seq<char>>::empty());
            assert(strs(unchanged@) =~= Seq::<Seq<char>>::empty());
        }
        while i < n
            invariant
                n == ks.len(),
                n == self.services.vals().len(),
                ks == self.services.keys(),
                ko == other.services.keys(),
                self.services.inv(),
                other.services.inv(),
                i <= n,
                strs(removed@) == ks.take(i as int).filter(p_removed),
                strs(changed@) == ks.take(i as int).filter(p_changed),
                strs(unchanged@) == ks.take(i as int).filter(p_unchanged),
                p_removed == (|k: Seq<char>| !ko.contains(k)),
                p_changed == (|k: Seq<char>|
                    ko.contains(k) && !same_service(service(self, k), service(other, k))),
                p_unchanged == (|k: Seq<char>|
                    ko.contains(k) && same_service(service(self, k), service(other, k))),
            decreases n - i,
        {
            let name = self.services.key_at(i);
            let old_svc = self.services.value_at(i);
            let ghost k = ks[i as int];
            proof {
                assert(ks.take(i + 1) == ks.take(i as int).push(k));
                ks.take(i as int).lemma_filter_push(k, p_removed);
                ks.take(i as int).lemma_filter_push(k, p_changed);
                ks.take(i as int).lemma_filter_push(k, p_unchanged);
                self.services.lemma_inv();
                assert(service(self, k) == *old_svc);
            }
            match other.services.get(name.as_str()) {
                Some(new_svc) => {
                    if old_svc.same_as(new_svc) {
                        let ghost before = unchanged@;
                        unchanged.push(name.clone());
                        proof {
                            assert(strs(unchanged@) =~= strs(before).push(k));
                        }
                    } else {
                        let ghost before = changed@;
                        changed.push(name.clone());
                        proof {
                            assert(strs(changed@) =~= strs(before).push(k));
                        }
                    }
                },
                None => {
                    let ghost before = removed@;
                    removed.push(name.clone());
                    proof {
                        assert(strs(removed@) =~= strs(before).push(k));
                    }
                },
            }
            i = i + 1;
        }
        let m = other.services.len();
        let mut j: usize = 0;
        proof {
            reveal(Seq::filter);
            assert(ks.take(n as int) =~= ks);
            assert(ko.take(0) =~= Seq::<Seq<char>>::empty());
            assert(strs(added@) =~= Seq::<Seq<char>>::empty());
        }
        while j < m
            invariant
                m == ko.len(),
                ks == self.services.keys(),
                ko == other.services.keys(),
                j <= m,
                strs(added@) == ko.take(j as int).filter(p_added),
                p_added == (|k: Seq<char>| !ks.contains(k)),
            decreases m - j,
        {
            let name = other.services.key_at(j);
            let ghost k = ko[j as int];
            proof {
                assert(ko.take(j + 1) == ko.take(j as int).push(k));
                ko.take(j as int).lemma_filter_push(k, p_added);
            }
            if !self.services.contains_key(name.as_str()) {
                let ghost before = added@;
                added.push(name.clone());
                proof {
                    assert(strs(added@) =~= strs(before).push(k));
                }
            }
            j = j + 1;
        }
        proof {
            assert(ko.take(m as int) =~= ko);
        }
        ConfigDiff { added, removed, changed, unchanged }
    }
}

impl ConfigError {
    /// The error's message.
    pub fn message(&self) -> (s: String)
        ensures
            s@ == match self {
                ConfigError::NoServices => "config must define at least one service"@,
                ConfigError::EmptyCmd { service } => "service '"@ + service@ + "' has an empty cmd"@,
                ConfigError::MissingDependency { service, dependency } => "service '"@ + service@
                    + "' depends_on '"@ + dependency@ + "' which does not exist"@,
            },
    {
        match self {
            ConfigError::NoServices => String::from_str("config must define at least one service"),
            ConfigError::EmptyCmd { service } => {
                let mut s = String::from_str("service '");
                s.append(service.as_str());
                s.append("' has an empty cmd");
                s
            },
            ConfigError::MissingDependency { service, dependency } => {
                let mut s = String::from_str("service '");
                s.append(service.as_str());
                s.append("' depends_on '");
                s.append(dependency.as_str());
                s.append("' which does not exist");
                s
            },
        }
    }
}

// ---------------------------------------------------------------------------
// Interpolation
// ---------------------------------------------------------------------------

/// Ports by service name.
pub type PortMap = StrMap<u16>;

/// `${port}`
pub open spec fn port_token() -> Seq<char> {
    seq!['$', '{', 'p', 'o', 'r', 't', '}']
}

/// `${proxy:`
pub open spec fn proxy_open() -> Seq<char> {
    seq!['$', '{', 'p', 'r', 'o', 'x', 'y', ':']
}

/// `}`
pub open spec fn close_brace() -> Seq<char> {
    seq!['}']
}

/// `t` with every `${port}` replaced by the service's actual port, when it
/// has one.
pub open spec fn with_port(t: Seq<char>, name: Seq<char>, actual: PortMap) -> Seq<char> {
    match actual.lookup(name) {
        Some(p) => replace_all(t, port_token(), dec(p as nat)),
        None => t,
    }
}

/// What `${proxy:NAME}` becomes: NAME's proxy port, or the placeholder
/// itself when NAME has none.
pub open spec fn proxy_text(name: Seq<char>, proxy: PortMap) -> Seq<char> {
    match proxy.lookup(name) {
        Some(p) => dec(p as nat),
        None => proxy_open() + name + close_brace(),
    }
}

/// `s` from index `pos` on, with each `${proxy:NAME}` replaced, scanning
/// left to right. A `${proxy:` without a closing `}` is kept as it is.
pub open spec fn expand_proxies(s: Seq<char>, proxy: PortMap, pos: nat) -> Seq<char>
    decreases s.len() + 1 - pos,
{
    if pos > s.len() {
        Seq::empty()
    } else {
        proof {
            lemma_find_from(s, proxy_open(), pos);
        }
        match find_from(s, proxy_open(), pos) {
            None => s.subrange(pos as int, s.len() as int),
            Some(st) => if st < pos {
                Seq::empty()
            } else {
                let a = st + 8;
                proof {
                    lemma_find_from(s, close_brace(), a);
                }
                match find_from(s, close_brace(), a) {
                    Some(e) => if e < a {
                        Seq::empty()
                    } else {
                        s.subrange(pos as int, st as int) + proxy_text(
                            s.subrange(a as int, e as int),
                            proxy,
                        ) + expand_proxies(s, proxy, e + 1)
                    },
                    None => s.subrange(pos as int, st as int) + proxy_open() + expand_proxies(
                        s,
                        proxy,
                        a,
                    ),
                }
            },
        }
    }
}

/// The result of interpolating `t` for service `name`.
pub open spec fn interpolated(
    t: Seq<char>,
    name: Seq<char>,
    actual: PortMap,
    proxy: PortMap,
) -> Seq<char> {
    expand_proxies(with_port(t, name, actual), proxy, 0)
}

/// Replaces `${port}` with the service's actual port and `${proxy:NAME}`
/// with the proxy port of NAME. Placeholders without a value are left as
/// they are.
pub fn interpolate(
    template: &str,
    service_name: &str,
    actual_ports: &PortMap,
    proxy_ports: &PortMap,
) -> (r: String)
    ensures
        r@ == interpolated(template@, service_name@, *actual_ports, *proxy_ports),
{
    let t = chars_of(template);
    let s: Vec<char> = match actual_ports.get(service_name) {
        Some(p) => {
            let tok: Vec<char> = vec!['$', '{', 'p', 'o', 'r', 't', '}'];
            proof {
                assert(tok@ =~= port_token());
            }
            let port = dec_chars(*p as u64);
            let r = replace_chars(&t, &tok, &port);
            proof {
                assert(r@ == with_port(template@, service_name@, *actual_ports));
            }
            r
        },
        None => t,
    };
    proof {
        assert(s@ == with_port(template@, service_name@, *actual_ports));
    }
    let open: Vec<char> = vec!['$', '{', 'p', 'r', 'o', 'x', 'y', ':'];
    let close: Vec<char> = vec!['}'];
    proof {
        assert(open@ =~= proxy_open());
        assert(close@ =~= close_brace());
    }
    let ghost full = expand_proxies(s@, *proxy_ports, 0);
    let mut out: Vec<char> = Vec::new();
    let mut pos: usize = 0;
    loop
        invariant
            pos <= s.len(),
            open@ == proxy_open(),
            close@ == close_brace(),
            out@ + expand_proxies(s@, *proxy_ports, pos as nat) == full,
            full == interpolated(template@, service_name@, *actual_ports, *proxy_ports),
        decreases s.len() - pos,
    {
        proof {
            lemma_find_from(s@, proxy_open(), pos as nat);
        }
        match find_chars(&s, &open, pos) {
            None => {
                let rest = slice_chars(&s, pos, s.len());
                extend_chars(&mut out, &rest);
                proof {
                    assert(out@ == full);
                }
                return string_from(&out);
            },
            Some(st) => {
                let ghost out0 = out@;
                let before = slice_chars(&s, pos, st);
                extend_chars(&mut out, &before);
                let a = st + 8;
                proof {
                    lemma_find_from(s@, close_brace(), a as nat);
                }
                match find_chars(&s, &close, a) {
                    Some(e) => {
                        let name = slice_chars(&s, a, e);
                        let name_str = string_from(&name);
                        match proxy_ports.get(name_str.as_str()) {
                            Some(p) => {
                                let port = dec_chars(*p as u64);
                                extend_chars(&mut out, &port);
                            },
                            None => {
                                extend_chars(&mut out, &open);
                                extend_chars(&mut out, &name);
                                out.push('}');
                            },
                        }
                        proof {
                            assert(out@ =~= out0 + s@.subrange(pos as int, st as int) + proxy_text(
                                s@.subrange(a as int, e as int),
                                *proxy_ports,
                            ));
                        }
                        pos = e + 1;
                    },
                    None => {
                        extend_chars(&mut out, &open);
                        pos = a;
                    },
                }
            },
        }
    }
}

/// A template with no `${port}` and no `${proxy:` comes out of
/// interpolation unchanged.
pub proof fn lemma_interpolate_plain(t: Seq<char>, name: Seq<char>, actual: PortMap, proxy: PortMap)
    requires
        !contains_seq(t, port_token()),
        !contains_seq(t, proxy_open()),
    ensures
        interpolated(t, name, actual, proxy) == t,
{
    lemma_contains_find(t, port_token());
    lemma_contains_find(t, proxy_open());
    assert(t.subrange(0, t.len() as int) =~= t);
    assert(with_port(t, name, actual) == t);
}

} // verus!
