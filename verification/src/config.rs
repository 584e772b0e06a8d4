//! The domain registry: durable store of domain provisioning records,
//! and the conventional filesystem locations of managed artifacts.

use vstd::prelude::*;
use vstd::string::{StrSliceExecFns, StringExecFns};
use crate::error::{Error, Result};
use crate::utils::str_eq;

verus! {

/// One provisioning record, uniquely keyed by `domain`.
#[derive(Debug, Clone)]
pub struct DomainConfig {
    pub domain: String,
    pub port: u16,
    pub service: Option<String>,
    pub ssl_cert_path: String,
    pub ssl_key_path: String,
    pub nginx_config_path: String,
    pub created_at: String,
    pub enabled: bool,
}

/// The mathematical shadow of a record: every string as a sequence of
/// characters.
#[verifier::ext_equal]
pub ghost struct DomainConfigView {
    pub domain: Seq<char>,
    pub port: u16,
    pub service: Option<Seq<char>>,
    pub ssl_cert_path: Seq<char>,
    pub ssl_key_path: Seq<char>,
    pub nginx_config_path: Seq<char>,
    pub created_at: Seq<char>,
    pub enabled: bool,
}

impl View for DomainConfig {
    type V = DomainConfigView;

    open spec fn view(&self) -> DomainConfigView {
        DomainConfigView {
            domain: self.domain@,
            port: self.port,
            service: match self.service {
                Some(s) => Some(s@),
                None => None,
            },
            ssl_cert_path: self.ssl_cert_path@,
            ssl_key_path: self.ssl_key_path@,
            nginx_config_path: self.nginx_config_path@,
            created_at: self.created_at@,
            enabled: self.enabled,
        }
    }
}

impl DomainConfig {
    /// A field-by-field copy whose view equals this record's view.
    pub fn duplicate(&self) -> (r: DomainConfig)
        ensures
            r@ == self@,
    {
        let r = DomainConfig {
            domain: self.domain.clone(),
            port: self.port,
            service: match &self.service {
                Some(s) => Some(s.clone()),
                None => None,
            },
            ssl_cert_path: self.ssl_cert_path.clone(),
            ssl_key_path: self.ssl_key_path.clone(),
            nginx_config_path: self.nginx_config_path.clone(),
            created_at: self.created_at.clone(),
            enabled: self.enabled,
        };
        assert(r@ == self@);
        r
    }
}

/// The first record in `s` whose domain is `name`, if any.
pub open spec fn find_rec(s: Seq<DomainConfigView>, name: Seq<char>) -> Option<DomainConfigView>
    decreases s.len(),
{
    if s.len() == 0 {
        None
    } else if s[0].domain == name {
        Some(s[0])
    } else {
        find_rec(s.drop_first(), name)
    }
}

/// No two records share a domain name.
pub open spec fn unique_domains(s: Seq<DomainConfigView>) -> bool {
    forall|i: int, j: int|
        0 <= i < s.len() && 0 <= j < s.len() && i != j ==> s[i].domain != s[j].domain
}

/// When no record carries `name`, the scan finds nothing.
pub proof fn lemma_find_none_if_absent(s: Seq<DomainConfigView>, name: Seq<char>)
    requires
        forall|k: int| 0 <= k < s.len() ==> s[k].domain != name,
    ensures
        find_rec(s, name) is None,
    decreases s.len(),
{
    if s.len() > 0 {
        lemma_find_none_if_absent(s.drop_first(), name);
    }
}

/// Scanning a sequence equals scanning its tail from position `i` when
/// the first `i` records do not carry `name`.
pub proof fn lemma_find_from(s: Seq<DomainConfigView>, name: Seq<char>, i: int)
    requires
        0 <= i <= s.len(),
        forall|j: int| 0 <= j < i ==> s[j].domain != name,
    ensures
        find_rec(s, name) == find_rec(s.skip(i), name),
    decreases i,
{
    if i > 0 {
        lemma_find_from(s.drop_first(), name, i - 1);
        assert(s.drop_first().skip(i - 1) =~= s.skip(i));
    } else {
        assert(s.skip(0) =~= s);
    }
}

/// What a successful scan yields: the record at the first matching
/// index.
pub proof fn lemma_find_at(s: Seq<DomainConfigView>, name: Seq<char>, k: int)
    requires
        0 <= k < s.len(),
        s[k].domain == name,
        forall|j: int| 0 <= j < k ==> s[j].domain != name,
    ensures
        find_rec(s, name) == Some(s[k]),
    decreases k,
{
    lemma_find_from(s, name, k);
    assert(s.skip(k)[0] == s[k]);
}

/// Appending a fresh record leaves every other lookup unchanged and
/// makes the new domain findable.
pub proof fn lemma_find_push(s: Seq<DomainConfigView>, rec: DomainConfigView, name: Seq<char>)
    ensures
        find_rec(s.push(rec), name) == (match find_rec(s, name) {
            Some(r) => Some(r),
            None => if rec.domain == name {
                Some(rec)
            } else {
                None
            },
        }),
    decreases s.len(),
{
    if s.len() == 0 {
        assert(s.push(rec)[0] == rec);
        if rec.domain != name {
            assert(s.push(rec).drop_first() =~= Seq::<DomainConfigView>::empty());
        }
    } else {
        assert(s.push(rec)[0] == s[0]);
        lemma_find_push(s.drop_first(), rec, name);
        assert(s.push(rec).drop_first() =~= s.drop_first().push(rec));
    }
}

/// Appending a record whose domain is absent keeps domains unique.
pub proof fn lemma_unique_after_push(s: Seq<DomainConfigView>, rec: DomainConfigView)
    requires
        unique_domains(s),
        find_rec(s, rec.domain) is None,
    ensures
        unique_domains(s.push(rec)),
{
    assert forall|i: int, j: int|
        0 <= i < s.push(rec).len() && 0 <= j < s.push(rec).len() && i != j implies s.push(
        rec,
    )[i].domain != s.push(rec)[j].domain by {
        if i < s.len() && j < s.len() {
        } else if i == s.len() {
            assert(s.push(rec)[j] == s[j]);
            if s[j].domain == rec.domain {
                lemma_find_at_exists(s, rec.domain, j);
            }
        } else {
            assert(s.push(rec)[i] == s[i]);
            if s[i].domain == rec.domain {
                lemma_find_at_exists(s, rec.domain, i);
            }
        }
    }
}

/// Removing the only record that carries `name` makes it absent and
/// leaves every other lookup unchanged.
pub proof fn lemma_find_remove(s: Seq<DomainConfigView>, name: Seq<char>, k: int)
    requires
        unique_domains(s),
        0 <= k < s.len(),
        s[k].domain == name,
        forall|j: int| 0 <= j < k ==> s[j].domain != name,
    ensures
        find_rec(s.remove(k), name) is None,
        forall|n: Seq<char>| n != name ==> find_rec(s.remove(k), n) == find_rec(s, n),
        unique_domains(s.remove(k)),
    decreases k,
{
    s.remove_ensures(k);
    assert forall|i: int, j: int|
        0 <= i < s.remove(k).len() && 0 <= j < s.remove(k).len() && i != j implies s.remove(
        k,
    )[i].domain != s.remove(k)[j].domain by {
        let i0: int = if i < k {
            i
        } else {
            i + 1
        };
        let j0: int = if j < k {
            j
        } else {
            j + 1
        };
        assert(s.remove(k)[i] == s[i0]);
        assert(s.remove(k)[j] == s[j0]);
    }
    if k == 0 {
        assert(s.remove(0) =~= s.drop_first());
        assert forall|i: int| 0 <= i < s.drop_first().len() implies s.drop_first()[i].domain
            != name by {
            assert(s.drop_first()[i] == s[i + 1]);
        }
        lemma_find_none_if_absent(s.drop_first(), name);
        assert forall|n: Seq<char>| n != name implies find_rec(s.remove(0), n) == find_rec(
            s,
            n,
        ) by {
            assert(find_rec(s, n) == find_rec(s.drop_first(), n));
        }
    } else {
        assert(s.remove(k)[0] == s[0]);
        lemma_find_remove(s.drop_first(), name, k - 1);
        assert(s.remove(k).drop_first() =~= s.drop_first().remove(k - 1));
        assert forall|n: Seq<char>| n != name implies find_rec(s.remove(k), n) == find_rec(
            s,
            n,
        ) by {
            if s[0].domain == n {
                assert(find_rec(s, n) == Some(s[0]));
                assert(s.remove(k)[0] == s[0]);
                assert(find_rec(s.remove(k), n) == Some(s[0]));
            } else {
                assert(find_rec(s, n) == find_rec(s.drop_first(), n));
                assert(s.remove(k)[0] == s[0]);
                assert(find_rec(s.remove(k), n) == find_rec(s.remove(k).drop_first(), n));
                assert(find_rec(s.remove(k).drop_first(), n) == find_rec(
                    s.drop_first().remove(k - 1),
                    n,
                ));
                assert(find_rec(s.drop_first().remove(k - 1), n) == find_rec(s.drop_first(), n));
            }
        }
    }
}

/// The durable registry: domain name to provisioning record, a domain
/// appearing at most once.
#[derive(Debug)]
pub struct ConfigManager {
    domains: Vec<DomainConfig>,
}

impl View for ConfigManager {
    type V = Seq<DomainConfigView>;

    closed spec fn view(&self) -> Seq<DomainConfigView> {
        self.domains@.map_values(|d: DomainConfig| d@)
    }
}

impl ConfigManager {
    /// The registry invariant: no duplicate domain names.
    pub open spec fn wf(&self) -> bool {
        unique_domains(self@)
    }

    /// An empty registry.
    pub fn new() -> (r: ConfigManager)
        ensures
            r.wf(),
            r@.len() == 0,
    {
        let r = ConfigManager { domains: Vec::new() };
        assert(r@ =~= Seq::<DomainConfigView>::empty());
        r
    }

    /// The number of records held.
    pub fn len(&self) -> (r: usize)
        ensures
            r == self@.len(),
    {
        self.domains.len()
    }

    /// The index of the record carrying `domain`, scanning from the
    /// front.
    fn find_index(&self, domain: &str) -> (r: Option<usize>)
        ensures
            match r {
                Some(k) => k < self@.len() && self@[k as int].domain == domain@ && forall|j: int|
                    0 <= j < k ==> self@[j].domain != domain@,
                None => forall|j: int| 0 <= j < self@.len() ==> self@[j].domain != domain@,
            },
    {
        let n = self.domains.len();
        let mut i: usize = 0;
        while i < n
            invariant
                n == self@.len(),
                0 <= i <= n,
                n == self.domains@.len(),
                self@ == self.domains@.map_values(|d: DomainConfig| d@),
                forall|j: int| 0 <= j < i ==> self@[j].domain != domain@,
            decreases n - i,
        {
            if str_eq(self.domains[i].domain.as_str(), domain) {
                return Some(i);
            }
            i = i + 1;
        }
        None
    }

    /// Looks a domain up; `None` when no record carries it.
    pub fn get_domain(&self, domain: &str) -> (r: Option<&DomainConfig>)
        ensures
            match r {
                Some(rec) => find_rec(self@, domain@) == Some(rec@),
                None => find_rec(self@, domain@) is None,
            },
    {
        match self.find_index(domain) {
            Some(k) => {
                proof {
                    lemma_find_at(self@, domain@, k as int);
                }
                Some(&self.domains[k])
            },
            None => {
                proof {
                    lemma_find_none_if_absent(self@, domain@);
                }
                None
            },
        }
    }

    /// Adds a record under a fresh domain; a duplicate is rejected and
    /// leaves the registry as it was.
    pub fn add_domain(&mut self, config: DomainConfig) -> (r: Result<()>)
        requires
            old(self).wf(),
        ensures
            final(self).wf(),
            match r {
                Ok(()) => {
                    &&& find_rec(old(self)@, config.domain@) is None
                    &&& final(self)@ == old(self)@.push(config@)
                    &&& find_rec(final(self)@, config.domain@) == Some(config@)
                    &&& forall|n: Seq<char>|
                        n != config.domain@ ==> find_rec(final(self)@, n) == find_rec(old(self)@, n)
                },
                Err(e) => {
                    &&& e is Already
                    &&& find_rec(old(self)@, config.domain@) is Some
                    &&& final(self)@ == old(self)@
                },
            },
    {
        match self.find_index(config.domain.as_str()) {
            Some(k) => {
                proof {
                    lemma_find_at(self@, config.domain@, k as int);
                }
                let mut msg = "Domain '".to_owned();
                msg.append(config.domain.as_str());
                msg.append("' already exists in configuration");
                Err(Error::Already(msg))
            },
            None => {
                proof {
                    lemma_find_none_if_absent(self@, config.domain@);
                }
                let ghost pre = self@;
                let ghost c = config@;
                self.domains.push(config);
                proof {
                    assert(self@ =~= pre.push(c));
                    assert forall|n: Seq<char>| true implies find_rec(self@, n) == find_rec(
                        pre.push(c),
                        n,
                    ) by {}
                    lemma_find_push(pre, c, c.domain);
                    assert forall|n: Seq<char>| n != c.domain implies find_rec(self@, n)
                        == find_rec(pre, n) by {
                        lemma_find_push(pre, c, n);
                    }
                    lemma_unique_after_push(pre, c);
                }
                Ok(())
            },
        }
    }

    /// Inserts or replaces the record for `config.domain`; the result
    /// says whether an existing record was replaced.
    pub fn upsert_domain(&mut self, config: DomainConfig) -> (r: bool)
        requires
            old(self).wf(),
        ensures
            final(self).wf(),
            r == (find_rec(old(self)@, config.domain@) is Some),
            find_rec(final(self)@, config.domain@) == Some(config@),
            forall|n: Seq<char>|
                n != config.domain@ ==> find_rec(final(self)@, n) == find_rec(old(self)@, n),
    {
        let was_present = match self.remove_domain(config.domain.as_str()) {
            Ok(_) => true,
            Err(_) => false,
        };
        let ghost mid = self@;
        let ghost c = config@;
        proof {
            lemma_find_none_if_absent_converse(mid, c.domain);
        }
        self.domains.push(config);
        proof {
            assert(self@ =~= mid.push(c));
            lemma_find_push(mid, c, c.domain);
            assert(find_rec(mid, c.domain) is None);
            assert forall|n: Seq<char>| n != c.domain implies find_rec(self@, n) == find_rec(
                mid,
                n,
            ) by {
                lemma_find_push(mid, c, n);
            }
            lemma_unique_after_push(mid, c);
        }
        was_present
    }

    /// Removes and returns the record for `domain`; an unknown domain
    /// is a `NotFound` error and leaves the registry as it was.
    pub fn remove_domain(&mut self, domain: &str) -> (r: Result<DomainConfig>)
        requires
            old(self).wf(),
        ensures
            final(self).wf(),
            match r {
                Ok(rec) => {
                    &&& find_rec(old(self)@, domain@) == Some(rec@)
                    &&& find_rec(final(self)@, domain@) is None
                    &&& forall|n: Seq<char>|
                        n != domain@ ==> find_rec(final(self)@, n) == find_rec(old(self)@, n)
                    &&& final(self)@.len() == old(self)@.len() - 1
                },
                Err(e) => {
                    &&& e is NotFound
                    &&& find_rec(old(self)@, domain@) is None
                    &&& final(self)@ == old(self)@
                },
            },
    {
        match self.find_index(domain) {
            Some(k) => {
                proof {
                    lemma_find_at(self@, domain@, k as int);
                }
                let ghost pre = self@;
                let rec = self.domains.remove(k);
                proof {
                    assert(self@ =~= pre.remove(k as int));
                    lemma_find_remove(pre, domain@, k as int);
                }
                Ok(rec)
            },
            None => {
                proof {
                    lemma_find_none_if_absent(self@, domain@);
                }
                let mut msg = "Domain '".to_owned();
                msg.append(domain);
                msg.append("' not found in configuration");
                Err(Error::NotFound(msg))
            },
        }
    }

    /// Every record held, in storage order.
    pub fn list_domains(&self) -> (r: Vec<&DomainConfig>)
        ensures
            r@.len() == self@.len(),
            forall|i: int| 0 <= i < r@.len() ==> r@[i]@ == self@[i],
    {
        let n = self.domains.len();
        let mut out: Vec<&DomainConfig> = Vec::new();
        let mut i: usize = 0;
        while i < n
            invariant
                n == self.domains@.len(),
                self@ == self.domains@.map_values(|d: DomainConfig| d@),
                0 <= i <= n,
                out@.len() == i,
                forall|j: int| 0 <= j < i ==> out@[j]@ == self@[j],
            decreases n - i,
        {
            out.push(&self.domains[i]);
            i = i + 1;
        }
        out
    }
}

/// A record with `name` at index `k` contradicts `find_rec` returning
/// `None`.
pub proof fn lemma_find_at_exists(s: Seq<DomainConfigView>, name: Seq<char>, k: int)
    requires
        0 <= k < s.len(),
        s[k].domain == name,
    ensures
        find_rec(s, name) is Some,
    decreases k,
{
    if s[0].domain == name {
    } else {
        assert(s.drop_first()[k - 1] == s[k]);
        lemma_find_at_exists(s.drop_first(), name, k - 1);
    }
}

/// The converse direction: a `None` scan means no record carries the
/// name.
pub proof fn lemma_find_none_if_absent_converse(s: Seq<DomainConfigView>, name: Seq<char>)
    requires
        find_rec(s, name) is None,
    ensures
        forall|k: int| 0 <= k < s.len() ==> s[k].domain != name,
{
    assert forall|k: int| 0 <= k < s.len() implies s[k].domain != name by {
        if s[k].domain == name {
            lemma_find_at_exists(s, name, k);
        }
    }
}

/// Conventional locations of managed artifacts.
pub struct Paths;

impl Paths {
    /// Directory holding the registry's backing store.
    pub fn config_dir() -> (r: &'static str)
        ensures
            r@ == "/etc/localstacker"@,
    {
        "/etc/localstacker"
    }

    /// The registry's backing document.
    pub fn config_file() -> (r: &'static str)
        ensures
            r@ == "/etc/localstacker/domains.json"@,
    {
        "/etc/localstacker/domains.json"
    }

    /// Directory holding managed certificate material.
    pub fn ssl_dir() -> (r: &'static str)
        ensures
            r@ == "/etc/nginx/ssl"@,
    {
        "/etc/nginx/ssl"
    }

    /// Directory of available virtual-host configurations.
    pub fn nginx_sites_available() -> (r: &'static str)
        ensures
            r@ == "/etc/nginx/sites-available"@,
    {
        "/etc/nginx/sites-available"
    }

    /// Directory of enabled virtual-host references.
    pub fn nginx_sites_enabled() -> (r: &'static str)
        ensures
            r@ == "/etc/nginx/sites-enabled"@,
    {
        "/etc/nginx/sites-enabled"
    }

    /// Managed certificate location for a domain.
    pub fn ssl_cert(domain: &str) -> (r: String)
        ensures
            r@ == "/etc/nginx/ssl/"@ + domain@ + ".pem"@,
    {
        let mut out = "/etc/nginx/ssl/".to_owned();
        out.append(domain);
        out.append(".pem");
        out
    }

    /// Managed key location for a domain.
    pub fn ssl_key(domain: &str) -> (r: String)
        ensures
            r@ == "/etc/nginx/ssl/"@ + domain@ + "-key.pem"@,
    {
        let mut out = "/etc/nginx/ssl/".to_owned();
        out.append(domain);
        out.append("-key.pem");
        out
    }

    /// Available-configuration location for a domain.
    pub fn nginx_config(domain: &str) -> (r: String)
        ensures
            r@ == "/etc/nginx/sites-available/"@ + domain@,
    {
        let mut out = "/etc/nginx/sites-available/".to_owned();
        out.append(domain);
        out
    }

    /// Enabled-reference location for a domain.
    pub fn nginx_enabled(domain: &str) -> (r: String)
        ensures
            r@ == "/etc/nginx/sites-enabled/"@ + domain@,
    {
        let mut out = "/etc/nginx/sites-enabled/".to_owned();
        out.append(domain);
        out
    }
}

} // verus!
