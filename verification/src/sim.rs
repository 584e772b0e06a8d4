//! In-memory doubles of the capability interfaces.  Each one is
//! verified against the same contracts the production gateways are
//! held to, so the orchestrator's workflow logic can be exercised
//! without touching a real system.

use vstd::prelude::*;
use vstd::string::StringExecFns;
use crate::error::{Error, Result};
use crate::render::render_config;
use crate::services::{CertificateProvider, FileOperations, SystemService, WebServerConfig};
use crate::utils::str_eq;

verus! {

/// The set of names a vector of strings holds.
pub open spec fn name_set(v: Seq<String>) -> Set<Seq<char>> {
    v.map_values(|s: String| s@).to_set()
}

/// Membership in `name_set` is having some element with that view.
proof fn lemma_name_set_contains(v: Seq<String>, x: Seq<char>)
    ensures
        name_set(v).contains(x) <==> exists|i: int| 0 <= i < v.len() && v[i]@ == x,
{
    let mapped = v.map_values(|s: String| s@);
    assert(name_set(v).contains(x) <==> mapped.contains(x));
    if exists|i: int| 0 <= i < v.len() && v[i]@ == x {
        let i = choose|i: int| 0 <= i < v.len() && v[i]@ == x;
        assert(mapped[i] == x);
        assert(mapped.contains(x));
    }
    if mapped.contains(x) {
        let i = choose|i: int| 0 <= i < mapped.len() && mapped[i] == x;
        assert(v[i]@ == x);
    }
}

/// Appending a name adds it to the set.
proof fn lemma_name_set_push(v: Seq<String>, x: String)
    ensures
        name_set(v.push(x)) == name_set(v).insert(x@),
{
    assert forall|e: Seq<char>| name_set(v.push(x)).contains(e) <==> name_set(v).insert(
        x@,
    ).contains(e) by {
        lemma_name_set_contains(v.push(x), e);
        lemma_name_set_contains(v, e);
        if name_set(v.push(x)).contains(e) {
            let i = choose|i: int| 0 <= i < v.push(x).len() && v.push(x)[i]@ == e;
            if i < v.len() {
                assert(v[i]@ == e);
            } else {
                assert(v.push(x)[i] == x);
            }
        }
        if name_set(v).contains(e) {
            let i = choose|i: int| 0 <= i < v.len() && v[i]@ == e;
            assert(v.push(x)[i]@ == e);
        }
        if e == x@ {
            assert(v.push(x)[v.len() as int]@ == e);
        }
    }
    assert(name_set(v.push(x)) =~= name_set(v).insert(x@));
}

/// Whether some element of `v` views as `x`.
fn vec_has(v: &Vec<String>, x: &str) -> (r: bool)
    ensures
        r == name_set(v@).contains(x@),
{
    let n = v.len();
    let mut i: usize = 0;
    while i < n
        invariant
            n == v@.len(),
            0 <= i <= n,
            forall|j: int| 0 <= j < i ==> v@[j]@ != x@,
        decreases n - i,
    {
        if str_eq(v[i].as_str(), x) {
            proof {
                lemma_name_set_contains(v@, x@);
            }
            return true;
        }
        i = i + 1;
    }
    proof {
        lemma_name_set_contains(v@, x@);
    }
    false
}

/// Adds `x` when missing; the set gains the name either way.
fn vec_insert(v: &mut Vec<String>, x: &str)
    ensures
        name_set(final(v)@) == name_set(old(v)@).insert(x@),
{
    if vec_has(v, x) {
        proof {
            assert(name_set(v@).insert(x@) =~= name_set(v@));
        }
    } else {
        let ghost pre = v@;
        v.push(x.to_owned());
        proof {
            let ghost pushed = v@;
            assert(pushed == pre.push(pushed.last()));
            lemma_name_set_push(pre, pushed.last());
            assert(name_set(pushed) =~= name_set(pre).insert(x@));
        }
    }
}

/// Removes every element viewing as `x`.
fn vec_remove_all(v: &mut Vec<String>, x: &str)
    ensures
        name_set(final(v)@) == name_set(old(v)@).remove(x@),
{
    let n = v.len();
    let mut kept: Vec<String> = Vec::new();
    let mut i: usize = 0;
    while i < n
        invariant
            n == v@.len(),
            0 <= i <= n,
            forall|j: int|
                0 <= j < kept@.len() ==> #[trigger] kept@[j]@ != x@,
            forall|j: int|
                0 <= j < kept@.len() ==> exists|l: int| 0 <= l < i && v@[l]@ == #[trigger] kept@[j]@,
            forall|l: int|
                0 <= l < i && v@[l]@ != x@ ==> name_set(kept@).contains(#[trigger] v@[l]@),
        decreases n - i,
    {
        proof {
            lemma_name_set_contains(kept@, v@[i as int]@);
        }
        let ghost pre = kept@;
        if !str_eq(v[i].as_str(), x) {
            kept.push(v[i].clone());
            proof {
                assert(kept@ == pre.push(kept@.last()));
                lemma_name_set_push(pre, kept@.last());
                assert forall|l: int| 0 <= l < i + 1 && v@[l]@ != x@ implies name_set(
                    kept@,
                ).contains(#[trigger] v@[l]@) by {
                    if l < i {
                        assert(name_set(pre).contains(v@[l]@));
                    }
                }
            }
        } else {
            proof {
                assert forall|l: int| 0 <= l < i + 1 && v@[l]@ != x@ implies name_set(
                    kept@,
                ).contains(#[trigger] v@[l]@) by {}
            }
        }
        i = i + 1;
    }
    proof {
        assert forall|e: Seq<char>| name_set(kept@).contains(e) <==> name_set(v@).remove(
            x@,
        ).contains(e) by {
            lemma_name_set_contains(kept@, e);
            lemma_name_set_contains(v@, e);
            if name_set(kept@).contains(e) {
                let j = choose|j: int| 0 <= j < kept@.len() && kept@[j]@ == e;
                assert(kept@[j]@ != x@);
                let l = choose|l: int| 0 <= l < n && v@[l]@ == kept@[j]@;
                assert(v@[l]@ == e);
            }
            if name_set(v@).contains(e) && e != x@ {
                let l = choose|l: int| 0 <= l < v@.len() && v@[l]@ == e;
                assert(name_set(kept@).contains(v@[l]@));
            }
        }
        assert(name_set(kept@) =~= name_set(v@).remove(x@));
    }
    *v = kept;
}

/// In-memory certificate gateway.
pub struct SimCertAuthority {
    tool: bool,
    ca: bool,
    issued_names: Vec<String>,
}

impl SimCertAuthority {
    /// A fresh double: no tool, no CA, nothing issued.
    pub fn new() -> (r: SimCertAuthority)
        ensures
            !r.tool_ready(),
            !r.ca_ready(),
            r.issued() == Set::<Seq<char>>::empty(),
    {
        let r = SimCertAuthority { tool: false, ca: false, issued_names: Vec::new() };
        proof {
            assert(r.issued() =~= Set::<Seq<char>>::empty());
        }
        r
    }

    /// Whether the double saw an issuance for the domain.
    pub fn has_issued(&self, domain: &str) -> (r: bool)
        ensures
            r == self.issued().contains(domain@),
    {
        vec_has(&self.issued_names, domain)
    }

    /// Whether the tool is marked installed.
    pub fn tool_installed(&self) -> (r: bool)
        ensures
            r == self.tool_ready(),
    {
        self.tool
    }

    /// Whether the CA is marked installed.
    pub fn ca_installed(&self) -> (r: bool)
        ensures
            r == self.ca_ready(),
    {
        self.ca
    }
}

impl CertificateProvider for SimCertAuthority {
    closed spec fn tool_ready(&self) -> bool {
        self.tool
    }

    closed spec fn ca_ready(&self) -> bool {
        self.ca
    }

    closed spec fn issued(&self) -> Set<Seq<char>> {
        name_set(self.issued_names@)
    }

    fn is_installed(&self) -> (r: Result<bool>)
        ensures
            r is Ok,
    {
        Ok(self.tool)
    }

    fn install(&mut self) -> (r: Result<()>)
        ensures
            r is Ok,
    {
        self.tool = true;
        Ok(())
    }

    fn install_ca(&mut self) -> (r: Result<()>)
        ensures
            r is Ok,
    {
        self.ca = true;
        Ok(())
    }

    fn generate_cert(&mut self, domain: &str) -> (r: Result<()>)
        ensures
            r is Ok,
    {
        vec_insert(&mut self.issued_names, domain);
        Ok(())
    }

    fn get_cert_paths(&self, domain: &str) -> (r: (String, String)) {
        let mut cert = domain.to_owned();
        cert.append(".pem");
        let mut key = domain.to_owned();
        key.append("-key.pem");
        (cert, key)
    }
}

/// In-memory service manager.
pub struct SimServiceManager {
    unit_names: Vec<String>,
    running_names: Vec<String>,
}

impl SimServiceManager {
    /// A fresh double with no units.
    pub fn new() -> (r: SimServiceManager)
        ensures
            r.units() == Set::<Seq<char>>::empty(),
            r.running() == Set::<Seq<char>>::empty(),
    {
        let r = SimServiceManager { unit_names: Vec::new(), running_names: Vec::new() };
        proof {
            assert(r.units() =~= Set::<Seq<char>>::empty());
            assert(r.running() =~= Set::<Seq<char>>::empty());
        }
        r
    }

    /// Registers a unit name with the double.
    pub fn add_unit(&mut self, name: &str)
        ensures
            final(self).units() == old(self).units().insert(name@),
            final(self).running() == old(self).running(),
    {
        vec_insert(&mut self.unit_names, name);
    }
}

impl SystemService for SimServiceManager {
    closed spec fn units(&self) -> Set<Seq<char>> {
        name_set(self.unit_names@)
    }

    closed spec fn running(&self) -> Set<Seq<char>> {
        name_set(self.running_names@)
    }

    fn service_exists(&self, service: &str) -> (r: Result<bool>)
        ensures
            r is Ok,
    {
        Ok(vec_has(&self.unit_names, service))
    }

    fn is_running(&self, service: &str) -> (r: Result<bool>)
        ensures
            r is Ok,
    {
        Ok(vec_has(&self.running_names, service))
    }

    fn restart(&mut self, service: &str) -> (r: Result<()>)
        ensures
            r is Ok,
    {
        vec_insert(&mut self.running_names, service);
        Ok(())
    }
}

/// In-memory filesystem.
pub struct SimFileSystem {
    paths: Vec<String>,
    dir_names: Vec<String>,
}

impl SimFileSystem {
    /// A fresh double with no files.
    pub fn new() -> (r: SimFileSystem)
        ensures
            r.files() == Set::<Seq<char>>::empty(),
            r.dirs() == Set::<Seq<char>>::empty(),
    {
        let r = SimFileSystem { paths: Vec::new(), dir_names: Vec::new() };
        proof {
            assert(r.files() =~= Set::<Seq<char>>::empty());
            assert(r.dirs() =~= Set::<Seq<char>>::empty());
        }
        r
    }

    /// Whether the directory exists.
    pub fn dir_exists(&self, path: &str) -> (r: bool)
        ensures
            r == self.dirs().contains(path@),
    {
        vec_has(&self.dir_names, path)
    }

    /// Creates a file, as outside work would.
    pub fn touch(&mut self, path: &str)
        ensures
            final(self).files() == old(self).files().insert(path@),
    {
        vec_insert(&mut self.paths, path);
    }

}

impl FileOperations for SimFileSystem {
    closed spec fn files(&self) -> Set<Seq<char>> {
        name_set(self.paths@)
    }

    closed spec fn dirs(&self) -> Set<Seq<char>> {
        name_set(self.dir_names@)
    }

    fn ensure_directory(&mut self, path: &str) -> (r: Result<()>)
        ensures
            r is Ok,
    {
        vec_insert(&mut self.dir_names, path);
        Ok(())
    }

    fn copy_file(&mut self, from: &str, to: &str) -> (r: Result<()>)
        ensures
            r is Ok <==> old(self).files().contains(from@),
    {
        if !vec_has(&self.paths, from) {
            let mut msg = "missing source ".to_owned();
            msg.append(from);
            return Err(Error::Io(msg));
        }
        vec_insert(&mut self.paths, to);
        Ok(())
    }

    fn remove_file(&mut self, path: &str) -> (r: Result<()>)
        ensures
            r is Ok,
    {
        vec_remove_all(&mut self.paths, path);
        Ok(())
    }

    fn file_exists(&self, path: &str) -> (r: bool) {
        vec_has(&self.paths, path)
    }
}

/// The ghost image of a site table: each pair as its views.
pub open spec fn vmap(v: Seq<(String, String)>) -> Seq<(Seq<char>, Seq<char>)> {
    v.map_values(|p: (String, String)| (p.0@, p.1@))
}

/// The set of keys a table of pairs holds.
pub open spec fn key_set(g: Seq<(Seq<char>, Seq<char>)>) -> Set<Seq<char>> {
    g.map_values(|p: (Seq<char>, Seq<char>)| p.0).to_set()
}

/// The text stored under the first pair carrying `d`.
pub open spec fn text_of(g: Seq<(Seq<char>, Seq<char>)>, d: Seq<char>) -> Seq<char>
    decreases g.len(),
{
    if g.len() == 0 {
        arbitrary()
    } else if g[0].0 == d {
        g[0].1
    } else {
        text_of(g.drop_first(), d)
    }
}

/// `g` without the pairs carrying `d`, order kept.
pub open spec fn pair_filter(g: Seq<(Seq<char>, Seq<char>)>, d: Seq<char>) -> Seq<
    (Seq<char>, Seq<char>),
>
    decreases g.len(),
{
    if g.len() == 0 {
        g
    } else if g[0].0 == d {
        pair_filter(g.drop_first(), d)
    } else {
        seq![g[0]] + pair_filter(g.drop_first(), d)
    }
}

/// Membership in `key_set` is having some pair with that key.
proof fn lemma_key_set_contains(g: Seq<(Seq<char>, Seq<char>)>, x: Seq<char>)
    ensures
        key_set(g).contains(x) <==> exists|i: int| 0 <= i < g.len() && g[i].0 == x,
{
    let mapped = g.map_values(|p: (Seq<char>, Seq<char>)| p.0);
    if exists|i: int| 0 <= i < g.len() && g[i].0 == x {
        let i = choose|i: int| 0 <= i < g.len() && g[i].0 == x;
        assert(mapped[i] == x);
        assert(mapped.contains(x));
    }
    if mapped.contains(x) {
        let i = choose|i: int| 0 <= i < mapped.len() && mapped[i] == x;
        assert(g[i].0 == x);
    }
}

/// Filtering at the end commutes with appending one pair.
proof fn lemma_pair_filter_push(
    g: Seq<(Seq<char>, Seq<char>)>,
    p: (Seq<char>, Seq<char>),
    d: Seq<char>,
)
    ensures
        pair_filter(g.push(p), d) == (if p.0 == d {
            pair_filter(g, d)
        } else {
            pair_filter(g, d).push(p)
        }),
    decreases g.len(),
{
    if g.len() == 0 {
        reveal_with_fuel(pair_filter, 3);
        assert(g.push(p)[0] == p);
        assert(g.push(p).drop_first() =~= g);
        if p.0 == d {
            assert(pair_filter(g.push(p), d) =~= pair_filter(g, d));
        } else {
            assert(pair_filter(g.push(p), d) =~= pair_filter(g, d).push(p));
        }
    } else {
        assert(g.push(p)[0] == g[0]);
        lemma_pair_filter_push(g.drop_first(), p, d);
        assert(g.push(p).drop_first() =~= g.drop_first().push(p));
        if g[0].0 == d {
        } else {
            if p.0 == d {
            } else {
                assert(pair_filter(g.push(p), d) =~= pair_filter(g, d).push(p));
            }
        }
    }
}

/// What filtering does to the key set, and that no filtered pair
/// carries the key.
proof fn lemma_pair_filter_keys(g: Seq<(Seq<char>, Seq<char>)>, d: Seq<char>)
    ensures
        key_set(pair_filter(g, d)) == key_set(g).remove(d),
        forall|i: int| 0 <= i < pair_filter(g, d).len() ==> pair_filter(g, d)[i].0 != d,
    decreases g.len(),
{
    if g.len() == 0 {
        assert(key_set(pair_filter(g, d)) =~= key_set(g).remove(d));
    } else {
        lemma_pair_filter_keys(g.drop_first(), d);
        assert forall|e: Seq<char>| key_set(pair_filter(g, d)).contains(e) <==> key_set(
            g,
        ).remove(d).contains(e) by {
            lemma_key_set_contains(pair_filter(g, d), e);
            lemma_key_set_contains(pair_filter(g.drop_first(), d), e);
            lemma_key_set_contains(g, e);
            lemma_key_set_contains(g.drop_first(), e);
            if g[0].0 == d {
                assert(pair_filter(g, d) == pair_filter(g.drop_first(), d));
                if e != d && (exists|i: int| 0 <= i < g.len() && g[i].0 == e) {
                    let i = choose|i: int| 0 <= i < g.len() && g[i].0 == e;
                    assert(i > 0);
                    assert(g.drop_first()[i - 1].0 == e);
                }
            } else {
                assert(pair_filter(g, d) == seq![g[0]] + pair_filter(g.drop_first(), d));
                if e != d && (exists|i: int| 0 <= i < g.len() && g[i].0 == e) {
                    let i = choose|i: int| 0 <= i < g.len() && g[i].0 == e;
                    if i > 0 {
                        assert(g.drop_first()[i - 1].0 == e);
                        let j = choose|j: int|
                            0 <= j < pair_filter(g.drop_first(), d).len() && pair_filter(
                                g.drop_first(),
                                d,
                            )[j].0 == e;
                        assert(pair_filter(g, d)[j + 1].0 == e);
                    } else {
                        assert(pair_filter(g, d)[0].0 == e);
                    }
                }
                if exists|i: int| 0 <= i < pair_filter(g, d).len() && pair_filter(g, d)[i].0
                    == e {
                    let i = choose|i: int|
                        0 <= i < pair_filter(g, d).len() && pair_filter(g, d)[i].0 == e;
                    if i > 0 {
                        assert(pair_filter(g, d)[i] == pair_filter(g.drop_first(), d)[i - 1]);
                        assert(e != d);
                        let j = choose|j: int|
                            0 <= j < g.drop_first().len() && g.drop_first()[j].0 == e;
                        assert(g[j + 1].0 == e);
                    } else {
                        assert(pair_filter(g, d)[0] == g[0]);
                    }
                }
            }
        }
        assert(key_set(pair_filter(g, d)) =~= key_set(g).remove(d));
        assert forall|i: int| 0 <= i < pair_filter(g, d).len() implies pair_filter(g, d)[i].0
            != d by {
            if g[0].0 != d && i > 0 {
                assert(pair_filter(g, d)[i] == pair_filter(g.drop_first(), d)[i - 1]);
            }
        }
    }
}

/// Filtering one key leaves every other key's text alone.
proof fn lemma_pair_filter_text(g: Seq<(Seq<char>, Seq<char>)>, d: Seq<char>, other: Seq<char>)
    requires
        other != d,
    ensures
        text_of(pair_filter(g, d), other) == text_of(g, other),
    decreases g.len(),
{
    if g.len() > 0 {
        lemma_pair_filter_text(g.drop_first(), d, other);
        if g[0].0 == d {
        } else {
            assert(pair_filter(g, d)[0] == g[0]);
            if g[0].0 == other {
            } else {
                assert(pair_filter(g, d).drop_first() =~= pair_filter(g.drop_first(), d));
            }
        }
    }
}

/// Appending a pair with a fresh key stores its text under that key.
proof fn lemma_text_of_push_same(g: Seq<(Seq<char>, Seq<char>)>, p: (Seq<char>, Seq<char>))
    requires
        forall|i: int| 0 <= i < g.len() ==> g[i].0 != p.0,
    ensures
        text_of(g.push(p), p.0) == p.1,
    decreases g.len(),
{
    if g.len() == 0 {
        assert(g.push(p)[0] == p);
    } else {
        assert(g.push(p)[0] == g[0]);
        assert(g.push(p).drop_first() =~= g.drop_first().push(p));
        assert forall|i: int| 0 <= i < g.drop_first().len() implies g.drop_first()[i].0
            != p.0 by {
            assert(g.drop_first()[i] == g[i + 1]);
        }
        lemma_text_of_push_same(g.drop_first(), p);
    }
}

/// Appending a pair leaves other keys' texts alone.
proof fn lemma_text_of_push_other(
    g: Seq<(Seq<char>, Seq<char>)>,
    p: (Seq<char>, Seq<char>),
    other: Seq<char>,
)
    requires
        p.0 != other,
    ensures
        text_of(g.push(p), other) == text_of(g, other),
    decreases g.len(),
{
    if g.len() == 0 {
        reveal_with_fuel(text_of, 3);
        assert(g.push(p)[0] == p);
        assert(g.push(p).drop_first() =~= g);
    } else {
        assert(g.push(p)[0] == g[0]);
        assert(g.push(p).drop_first() =~= g.drop_first().push(p));
        lemma_text_of_push_other(g.drop_first(), p, other);
    }
}

/// Appending a pair adds its key to the key set.
proof fn lemma_key_set_push(g: Seq<(Seq<char>, Seq<char>)>, p: (Seq<char>, Seq<char>))
    ensures
        key_set(g.push(p)) == key_set(g).insert(p.0),
{
    assert forall|e: Seq<char>| key_set(g.push(p)).contains(e) <==> key_set(g).insert(
        p.0,
    ).contains(e) by {
        lemma_key_set_contains(g.push(p), e);
        lemma_key_set_contains(g, e);
        if exists|i: int| 0 <= i < g.push(p).len() && g.push(p)[i].0 == e {
            let i = choose|i: int| 0 <= i < g.push(p).len() && g.push(p)[i].0 == e;
            if i < g.len() {
                assert(g[i].0 == e);
            } else {
                assert(g.push(p)[i] == p);
            }
        }
        if exists|i: int| 0 <= i < g.len() && g[i].0 == e {
            let i = choose|i: int| 0 <= i < g.len() && g[i].0 == e;
            assert(g.push(p)[i].0 == e);
        }
        if e == p.0 {
            assert(g.push(p)[g.len() as int].0 == e);
        }
    }
    assert(key_set(g.push(p)) =~= key_set(g).insert(p.0));
}

/// The text at the first index carrying `d` is what `text_of` yields.
proof fn lemma_text_of_at(g: Seq<(Seq<char>, Seq<char>)>, d: Seq<char>, k: int)
    requires
        0 <= k < g.len(),
        g[k].0 == d,
        forall|j: int| 0 <= j < k ==> g[j].0 != d,
    ensures
        text_of(g, d) == g[k].1,
    decreases k,
{
    if k > 0 {
        assert(g.drop_first()[k - 1] == g[k]);
        assert forall|j: int| 0 <= j < k - 1 implies g.drop_first()[j].0 != d by {
            assert(g.drop_first()[j] == g[j + 1]);
        }
        lemma_text_of_at(g.drop_first(), d, k - 1);
    }
}

/// Removes every pair carrying `d`, keeping order.
fn pairs_remove_all(v: &mut Vec<(String, String)>, d: &str)
    ensures
        vmap(final(v)@) == pair_filter(vmap(old(v)@), d@),
{
    let n = v.len();
    let mut kept: Vec<(String, String)> = Vec::new();
    let mut i: usize = 0;
    proof {
        assert(vmap(v@).take(0) =~= Seq::<(Seq<char>, Seq<char>)>::empty());
        assert(vmap(kept@) =~= pair_filter(vmap(v@).take(0), d@));
    }
    while i < n
        invariant
            n == v@.len(),
            0 <= i <= n,
            vmap(kept@) == pair_filter(vmap(v@).take(i as int), d@),
        decreases n - i,
    {
        let ghost pre = vmap(kept@);
        let ghost cur = vmap(v@)[i as int];
        if !str_eq(v[i].0.as_str(), d) {
            kept.push((v[i].0.clone(), v[i].1.clone()));
            proof {
                assert(vmap(kept@) =~= pre.push(cur));
            }
        }
        proof {
            assert(vmap(v@).take(i + 1) =~= vmap(v@).take(i as int).push(cur));
            lemma_pair_filter_push(vmap(v@).take(i as int), cur, d@);
            assert(vmap(kept@) =~= pair_filter(vmap(v@).take(i + 1), d@));
        }
        i = i + 1;
    }
    proof {
        assert(vmap(v@).take(n as int) =~= vmap(v@));
    }
    *v = kept;
}

/// In-memory web server.
pub struct SimWebServer {
    sites: Vec<(String, String)>,
    enabled_names: Vec<String>,
    validated_flag: bool,
}

impl SimWebServer {
    /// A fresh double: nothing written, nothing enabled, nothing
    /// validated.
    pub fn new() -> (r: SimWebServer)
        ensures
            r.available_domains() == Set::<Seq<char>>::empty(),
            r.enabled() == Set::<Seq<char>>::empty(),
            !r.validated(),
    {
        let r = SimWebServer {
            sites: Vec::new(),
            enabled_names: Vec::new(),
            validated_flag: false,
        };
        proof {
            assert(vmap(r.sites@) =~= Seq::<(Seq<char>, Seq<char>)>::empty());
            assert(r.available_domains() =~= Set::<Seq<char>>::empty());
            assert(r.enabled() =~= Set::<Seq<char>>::empty());
        }
        r
    }

    /// Whether a configuration is written for the domain.
    pub fn has_config(&self, domain: &str) -> (r: bool)
        ensures
            r == self.available_domains().contains(domain@),
    {
        let n = self.sites.len();
        let mut i: usize = 0;
        while i < n
            invariant
                n == self.sites@.len(),
                0 <= i <= n,
                forall|j: int| 0 <= j < i ==> self.sites@[j].0@ != domain@,
            decreases n - i,
        {
            if str_eq(self.sites[i].0.as_str(), domain) {
                proof {
                    assert(vmap(self.sites@)[i as int].0 == domain@);
                    lemma_key_set_contains(vmap(self.sites@), domain@);
                }
                return true;
            }
            i = i + 1;
        }
        proof {
            assert forall|j: int| 0 <= j < vmap(self.sites@).len() implies vmap(
                self.sites@,
            )[j].0 != domain@ by {
                assert(vmap(self.sites@)[j].0 == self.sites@[j].0@);
            }
            lemma_key_set_contains(vmap(self.sites@), domain@);
        }
        false
    }

    /// The configuration text written for the domain, if any.
    pub fn config_text(&self, domain: &str) -> (r: Option<String>)
        ensures
            match r {
                Some(t) => self.available_domains().contains(domain@) && t@
                    == self.available_text(domain@),
                None => !self.available_domains().contains(domain@),
            },
    {
        let n = self.sites.len();
        let mut i: usize = 0;
        while i < n
            invariant
                n == self.sites@.len(),
                0 <= i <= n,
                forall|j: int| 0 <= j < i ==> vmap(self.sites@)[j].0 != domain@,
            decreases n - i,
        {
            if str_eq(self.sites[i].0.as_str(), domain) {
                proof {
                    assert(vmap(self.sites@)[i as int].0 == domain@);
                    lemma_key_set_contains(vmap(self.sites@), domain@);
                    lemma_text_of_at(vmap(self.sites@), domain@, i as int);
                }
                return Some(self.sites[i].1.clone());
            }
            proof {
                assert(vmap(self.sites@)[i as int].0 == self.sites@[i as int].0@);
            }
            i = i + 1;
        }
        proof {
            assert forall|j: int| 0 <= j < vmap(self.sites@).len() implies vmap(
                self.sites@,
            )[j].0 != domain@ by {}
            lemma_key_set_contains(vmap(self.sites@), domain@);
        }
        None
    }

    /// Whether the domain is enabled.
    pub fn is_enabled(&self, domain: &str) -> (r: bool)
        ensures
            r == self.enabled().contains(domain@),
    {
        vec_has(&self.enabled_names, domain)
    }

    /// Whether the configuration has passed the syntax check since the
    /// last mutation.
    pub fn is_validated(&self) -> (r: bool)
        ensures
            r == self.validated(),
    {
        self.validated_flag
    }
}

impl WebServerConfig for SimWebServer {
    closed spec fn available_domains(&self) -> Set<Seq<char>> {
        key_set(vmap(self.sites@))
    }

    closed spec fn available_text(&self, domain: Seq<char>) -> Seq<char> {
        text_of(vmap(self.sites@), domain)
    }

    closed spec fn enabled(&self) -> Set<Seq<char>> {
        name_set(self.enabled_names@)
    }

    closed spec fn validated(&self) -> bool {
        self.validated_flag
    }

    fn generate_config(&self, domain: &str, port: u16, template: Option<&str>) -> (r: Result<
        String,
    >) {
        render_config(domain, port, template)
    }

    fn write_config(&mut self, domain: &str, config: &str) -> (r: Result<()>)
        ensures
            r is Ok,
    {
        let ghost pre = vmap(self.sites@);
        pairs_remove_all(&mut self.sites, domain);
        let ghost mid = vmap(self.sites@);
        self.sites.push((domain.to_owned(), config.to_owned()));
        self.validated_flag = false;
        proof {
            let p = (domain@, config@);
            assert(vmap(self.sites@) =~= mid.push(p));
            lemma_pair_filter_keys(pre, domain@);
            lemma_key_set_push(mid, p);
            assert(key_set(vmap(self.sites@)) =~= key_set(pre).insert(domain@));
            lemma_text_of_push_same(mid, p);
            assert forall|d: Seq<char>| d != domain@ implies text_of(vmap(self.sites@), d)
                == text_of(pre, d) by {
                lemma_text_of_push_other(mid, p, d);
                lemma_pair_filter_text(pre, domain@, d);
            }
        }
        Ok(())
    }

    fn enable_site(&mut self, domain: &str) -> (r: Result<()>)
        ensures
            r is Ok,
    {
        vec_insert(&mut self.enabled_names, domain);
        self.validated_flag = false;
        Ok(())
    }

    fn disable_site(&mut self, domain: &str) -> (r: Result<()>)
        ensures
            r is Ok,
    {
        vec_remove_all(&mut self.enabled_names, domain);
        self.validated_flag = false;
        Ok(())
    }

    fn remove_config(&mut self, domain: &str) -> (r: Result<()>)
        ensures
            r is Ok,
    {
        let ghost pre = vmap(self.sites@);
        pairs_remove_all(&mut self.sites, domain);
        self.validated_flag = false;
        proof {
            lemma_pair_filter_keys(pre, domain@);
            assert forall|d: Seq<char>| d != domain@ implies text_of(vmap(self.sites@), d)
                == text_of(pre, d) by {
                lemma_pair_filter_text(pre, domain@, d);
            }
        }
        Ok(())
    }

    fn test_config(&mut self) -> (r: Result<()>)
        ensures
            r is Ok,
    {
        self.validated_flag = true;
        Ok(())
    }

    fn reload(&mut self) -> (r: Result<()>)
        ensures
            r is Ok,
    {
        Ok(())
    }
}

} // verus!
