//! Input validation and small shared helpers.

use vstd::prelude::*;
use vstd::string::{StrSliceExecFns, StringExecFns};
use crate::error::{Error, Result};

verus! {

/// Characters a domain name may contain: ASCII letters, digits,
/// `.` and `-`.  Alphanumeric is read as ASCII, the DNS-label-like
/// reading; accented or non-Latin letters are rejected.
pub open spec fn is_domain_char(c: char) -> bool {
    ('a' <= c && c <= 'z') || ('A' <= c && c <= 'Z') || ('0' <= c && c <= '9') || c == '.'
        || c == '-'
}

/// A valid domain is non-empty, contains only domain characters, and
/// neither starts nor ends with a dot.
pub open spec fn spec_valid_domain(s: Seq<char>) -> bool {
    &&& s.len() > 0
    &&& forall|i: int| 0 <= i < s.len() ==> is_domain_char(#[trigger] s[i])
    &&& s[0] != '.'
    &&& s[s.len() - 1] != '.'
}

/// Checks domain syntax: non-empty, only alphanumerics, dots and
/// hyphens, and no leading or trailing dot.
pub fn validate_domain(domain: &str) -> (r: Result<()>)
    ensures
        r is Ok <==> spec_valid_domain(domain@),
        r matches Err(e) ==> e is Validation,
{
    let n = domain.unicode_len();
    if n == 0 {
        return Err(Error::Validation("Domain cannot be empty".to_owned()));
    }
    let mut i: usize = 0;
    while i < n
        invariant
            0 < n == domain@.len(),
            0 <= i <= n,
            forall|j: int| 0 <= j < i ==> is_domain_char(#[trigger] domain@[j]),
        decreases n - i,
    {
        let c = domain.get_char(i);
        let ok = ('a' <= c && c <= 'z') || ('A' <= c && c <= 'Z') || ('0' <= c && c <= '9')
            || c == '.' || c == '-';
        if !ok {
            return Err(Error::Validation("Domain contains invalid characters".to_owned()));
        }
        i = i + 1;
    }
    if domain.get_char(0) == '.' || domain.get_char(n - 1) == '.' {
        return Err(Error::Validation("Domain cannot start or end with a dot".to_owned()));
    }
    Ok(())
}

/// A port is acceptable when it is non-zero, and ports below 1024 only
/// under elevated privilege.
pub open spec fn spec_valid_port(port: u16, elevated: bool) -> bool {
    port != 0 && (port >= 1024 || elevated)
}

/// Checks the backend port.  `elevated` says whether the caller runs
/// with administrator privilege; binding below 1024 requires it.
pub fn validate_port(port: u16, elevated: bool) -> (r: Result<()>)
    ensures
        r is Ok <==> spec_valid_port(port, elevated),
        r matches Err(e) ==> e is Validation,
{
    if port == 0 {
        return Err(Error::Validation("Port cannot be 0".to_owned()));
    }
    if port < 1024 && !elevated {
        return Err(Error::Validation("Ports below 1024 require root privileges".to_owned()));
    }
    Ok(())
}

/// Turns the privilege answer into the workflow-entry authorization
/// check: elevated callers pass, others get a permission error.
pub fn check_root(elevated: bool) -> (r: Result<()>)
    ensures
        r is Ok <==> elevated,
        r matches Err(e) ==> e is Permission,
{
    if elevated {
        Ok(())
    } else {
        Err(
            Error::Permission(
                "This command requires root privileges. Run with sudo.".to_owned(),
            ),
        )
    }
}

/// Character-wise string equality; `true` exactly when the two views
/// agree.
pub fn str_eq(a: &str, b: &str) -> (r: bool)
    ensures
        r <==> a@ == b@,
{
    let an = a.unicode_len();
    let bn = b.unicode_len();
    if an != bn {
        assert(a@ != b@);
        return false;
    }
    let mut i: usize = 0;
    while i < an
        invariant
            an == a@.len() == b@.len(),
            0 <= i <= an,
            forall|j: int| 0 <= j < i ==> a@[j] == b@[j],
        decreases an - i,
    {
        if a.get_char(i) != b.get_char(i) {
            assert(a@ != b@);
            return false;
        }
        i = i + 1;
    }
    assert(a@ =~= b@);
    true
}

/// Whether `pat` occurs in `s` starting at position `i`.
pub(crate) fn matches_at(s: &str, n: usize, pat: &str, m: usize, i: usize) -> (r: bool)
    requires
        n == s@.len(),
        m == pat@.len(),
        m > 0,
        i <= n,
    ensures
        r <==> (i + m <= n && s@.skip(i as int).subrange(0, m as int) == pat@),
{
    if m > n - i {
        return false;
    }
    let mut j: usize = 0;
    while j < m
        invariant
            n == s@.len(),
            m == pat@.len(),
            0 < m,
            i + m <= n,
            0 <= j <= m,
            forall|l: int| 0 <= l < j ==> s@[i + l] == pat@[l],
        decreases m - j,
    {
        if s.get_char(i + j) != pat.get_char(j) {
            assert(s@.skip(i as int).subrange(0, m as int)[j as int] == s@[i + j]);
            assert(s@.skip(i as int).subrange(0, m as int) != pat@);
            return false;
        }
        j = j + 1;
    }
    assert(s@.skip(i as int).subrange(0, m as int) =~= pat@);
    true
}

/// Whether `sub` occurs somewhere in `s`.
pub open spec fn spec_contains(s: Seq<char>, sub: Seq<char>) -> bool {
    exists|k: int| 0 <= k && k + sub.len() <= s.len() && #[trigger] s.subrange(k, k + sub.len())
        == sub
}

/// Substring search; `true` exactly when `sub` occurs in `s`.
pub fn str_contains(s: &str, sub: &str) -> (r: bool)
    ensures
        r <==> spec_contains(s@, sub@),
{
    let n = s.unicode_len();
    let m = sub.unicode_len();
    if m == 0 {
        proof {
            assert(s@.subrange(0, 0 + sub@.len() as int) =~= sub@);
        }
        return true;
    }
    if m > n {
        return false;
    }
    let mut k: usize = 0;
    while k <= n - m
        invariant
            n == s@.len(),
            m == sub@.len(),
            0 < m <= n,
            0 <= k <= n - m + 1,
            forall|k2: int|
                0 <= k2 < k ==> #[trigger] s@.subrange(k2, k2 + sub@.len()) != sub@,
        decreases n - m - k + 1,
    {
        if matches_at(s, n, sub, m, k) {
            proof {
                assert(s@.skip(k as int).subrange(0, m as int) =~= s@.subrange(
                    k as int,
                    k as int + m as int,
                ));
            }
            return true;
        }
        proof {
            assert(s@.skip(k as int).subrange(0, m as int) =~= s@.subrange(
                k as int,
                k as int + m as int,
            ));
        }
        k = k + 1;
    }
    proof {
        assert forall|k2: int| 0 <= k2 && k2 + sub@.len() <= s@.len() implies #[trigger] s@.subrange(
            k2,
            k2 + sub@.len(),
        ) != sub@ by {}
    }
    false
}

/// A space, tab, newline or carriage return.
pub open spec fn is_space(c: char) -> bool {
    c == ' ' || c == '\t' || c == '\n' || c == '\r'
}

/// How many leading space characters `s` has.
pub open spec fn ltrim_idx(s: Seq<char>) -> int
    decreases s.len(),
{
    if s.len() == 0 || !is_space(s[0]) {
        0
    } else {
        1 + ltrim_idx(s.drop_first())
    }
}

/// Where the trailing run of space characters in `s` begins.
pub open spec fn rtrim_idx(s: Seq<char>) -> int
    decreases s.len(),
{
    if s.len() == 0 || !is_space(s[s.len() - 1]) {
        s.len() as int
    } else {
        rtrim_idx(s.drop_last())
    }
}

/// `s` with leading and trailing space characters removed.
pub open spec fn spec_trim(s: Seq<char>) -> Seq<char> {
    if ltrim_idx(s) <= rtrim_idx(s) {
        s.subrange(ltrim_idx(s), rtrim_idx(s))
    } else {
        Seq::empty()
    }
}

/// A position with only spaces before it and a non-space (or the end)
/// at it is exactly the leading-space count.
proof fn lemma_ltrim_at(s: Seq<char>, a: int)
    requires
        0 <= a <= s.len(),
        forall|j: int| 0 <= j < a ==> is_space(#[trigger] s[j]),
        a == s.len() || !is_space(s[a]),
    ensures
        ltrim_idx(s) == a,
    decreases a,
{
    if a > 0 {
        assert(is_space(s[0]));
        assert forall|j: int| 0 <= j < a - 1 implies is_space(#[trigger] s.drop_first()[j]) by {
            assert(s.drop_first()[j] == s[j + 1]);
        }
        if a - 1 < s.drop_first().len() {
            assert(s.drop_first()[a - 1] == s[a]);
        }
        lemma_ltrim_at(s.drop_first(), a - 1);
    }
}

/// The mirrored fact for the trailing-space run.
proof fn lemma_rtrim_at(s: Seq<char>, b: int)
    requires
        0 <= b <= s.len(),
        forall|j: int| b <= j < s.len() ==> is_space(#[trigger] s[j]),
        b == 0 || !is_space(s[b - 1]),
    ensures
        rtrim_idx(s) == b,
    decreases s.len() - b,
{
    if b < s.len() {
        assert(is_space(s[s.len() - 1]));
        assert forall|j: int| b <= j < s.drop_last().len() implies is_space(
            #[trigger] s.drop_last()[j],
        ) by {
            assert(s.drop_last()[j] == s[j]);
        }
        if b > 0 {
            assert(s.drop_last()[b - 1] == s[b - 1]);
        }
        lemma_rtrim_at(s.drop_last(), b);
    }
}

/// Executable test for a space character.
pub fn is_space_char(c: char) -> (r: bool)
    ensures
        r == is_space(c),
{
    c == ' ' || c == '\t' || c == '\n' || c == '\r'
}

/// `s` with leading and trailing whitespace removed.
pub fn str_trim(s: &str) -> (r: String)
    ensures
        r@ == spec_trim(s@),
{
    let n = s.unicode_len();
    let mut a: usize = 0;
    while a < n && is_space_char(s.get_char(a))
        invariant
            n == s@.len(),
            0 <= a <= n,
            forall|j: int| 0 <= j < a ==> is_space(#[trigger] s@[j]),
        decreases n - a,
    {
        a = a + 1;
    }
    let mut b: usize = n;
    while b > a && is_space_char(s.get_char(b - 1))
        invariant
            n == s@.len(),
            0 <= a <= b <= n,
            forall|j: int| b <= j < n ==> is_space(#[trigger] s@[j]),
        decreases b,
    {
        b = b - 1;
    }
    let out = s.substring_char(a, b).to_owned();
    proof {
        if a == n {
            lemma_ltrim_at(s@, a as int);
            lemma_rtrim_le_ltrim_all_space(s@, a as int);
            assert(out@ =~= spec_trim(s@));
        } else if b == a {
            assert(!is_space(s@[a as int]));
            lemma_ltrim_at(s@, a as int);
            lemma_rtrim_at(s@, a as int);
            assert(out@ =~= spec_trim(s@));
        } else {
            assert(!is_space(s@[a as int]));
            assert(!is_space(s@[b - 1]));
            lemma_ltrim_at(s@, a as int);
            lemma_rtrim_at(s@, b as int);
            assert(out@ =~= spec_trim(s@));
        }
    }
    out
}

/// With every character a space, the trailing run begins at or before
/// the leading run ends.
proof fn lemma_rtrim_le_ltrim_all_space(s: Seq<char>, a: int)
    requires
        a == s.len(),
        forall|j: int| 0 <= j < a ==> is_space(#[trigger] s[j]),
    ensures
        rtrim_idx(s) == 0,
    decreases s.len(),
{
    if s.len() > 0 {
        assert(is_space(s[s.len() - 1]));
        assert forall|j: int| 0 <= j < s.drop_last().len() implies is_space(
            #[trigger] s.drop_last()[j],
        ) by {
            assert(s.drop_last()[j] == s[j]);
        }
        lemma_rtrim_le_ltrim_all_space(s.drop_last(), a - 1);
    }
}

/// The mkcert CA root directory for a given home directory.
pub fn get_mkcert_caroot(home: Option<&str>) -> (r: Option<String>)
    ensures
        match r {
            Some(p) => home matches Some(h) && p@ == h@ + "/.local/share/mkcert"@,
            None => home is None,
        },
{
    match home {
        Some(h) => {
            let mut out = h.to_owned();
            out.append("/.local/share/mkcert");
            Some(out)
        },
        None => None,
    }
}

/// The colon-separated fields of a line; an empty line is one empty
/// field.
pub open spec fn colon_fields(s: Seq<char>) -> Seq<Seq<char>>
    decreases s.len(),
{
    if s.len() == 0 {
        seq![Seq::<char>::empty()]
    } else if s[0] == ':' {
        seq![Seq::<char>::empty()] + colon_fields(s.drop_first())
    } else {
        seq![seq![s[0]] + colon_fields(s.drop_first())[0]] + colon_fields(s.drop_first()).drop_first()
    }
}

/// A line always splits into at least one field.
pub proof fn lemma_colon_fields_nonempty(s: Seq<char>)
    ensures
        colon_fields(s).len() >= 1,
    decreases s.len(),
{
    if s.len() > 0 {
        lemma_colon_fields_nonempty(s.drop_first());
    }
}

/// Parses one `getent passwd` line (`name:x:uid:gid:gecos:home:shell`)
/// and returns the home-directory field when the line has at least six
/// fields.
pub fn parse_passwd_home(entry: &str) -> (r: Option<String>)
    ensures
        match r {
            Some(h) => colon_fields(entry@).len() >= 6 && h@ == colon_fields(entry@)[5],
            None => colon_fields(entry@).len() < 6,
        },
{
    let n = entry.unicode_len();
    let ghost whole = colon_fields(entry@);
    let mut field: usize = 0;
    let mut i: usize = 0;
    let mut home = String::new();
    proof {
        assert(entry@.skip(0) =~= entry@);
    }
    while i < n
        invariant
            n == entry@.len(),
            whole == colon_fields(entry@),
            0 <= i <= n,
            field <= 5,
            whole.len() == field + colon_fields(entry@.skip(i as int)).len(),
            field == 5 ==> whole[5] == home@ + colon_fields(entry@.skip(i as int))[0],
            forall|j: int|
                1 <= j < colon_fields(entry@.skip(i as int)).len() ==> whole[field + j]
                    == #[trigger] colon_fields(entry@.skip(i as int))[j],
        decreases n - i,
    {
        let c = entry.get_char(i);
        let ghost cur = colon_fields(entry@.skip(i as int));
        let ghost rest = colon_fields(entry@.skip(i as int + 1));
        proof {
            lemma_colon_fields_nonempty(entry@.skip(i as int + 1));
            assert(entry@.skip(i as int)[0] == entry@[i as int]);
            assert(entry@.skip(i as int).drop_first() =~= entry@.skip(i as int + 1));
            if c == ':' {
                assert(cur == seq![Seq::<char>::empty()] + rest);
            } else {
                assert(cur == seq![seq![c] + rest[0]] + rest.drop_first());
            }
        }
        if c == ':' {
            if field == 5 {
                proof {
                    assert(whole.len() >= 6);
                    assert(cur[0] =~= Seq::<char>::empty());
                    assert(whole[5] =~= home@);
                }
                return Some(home);
            }
            field = field + 1;
            home = String::new();
            proof {
                assert(cur[1] == rest[0]);
                if field == 5 {
                    assert(whole[5] == cur[1]);
                    assert(whole[5] =~= home@ + colon_fields(entry@.skip(i as int + 1))[0]);
                }
                assert forall|j: int|
                    1 <= j < colon_fields(entry@.skip(i as int + 1)).len() implies whole[field + j]
                    == #[trigger] colon_fields(entry@.skip(i as int + 1))[j] by {
                    assert(cur[j + 1] == rest[j]);
                }
            }
        } else {
            if field == 5 {
                let piece = entry.substring_char(i, i + 1);
                home.append(piece);
            }
            proof {
                assert(cur[0] == seq![c] + rest[0]);
                if field == 5 {
                    assert(whole[5] =~= home@ + rest[0]);
                }
                assert forall|j: int|
                    1 <= j < colon_fields(entry@.skip(i as int + 1)).len() implies whole[field + j]
                    == #[trigger] colon_fields(entry@.skip(i as int + 1))[j] by {
                    assert(cur[j] == rest.drop_first()[j - 1]);
                    assert(rest.drop_first()[j - 1] == rest[j]);
                }
            }
        }
        i = i + 1;
    }
    proof {
        assert(entry@.skip(n as int) =~= Seq::<char>::empty());
        assert(colon_fields(entry@.skip(n as int)).len() == 1);
        assert(whole.len() == field + 1);
    }
    if field == 5 {
        proof {
            assert(colon_fields(entry@.skip(n as int))[0] =~= Seq::<char>::empty());
            assert(whole[5] =~= home@);
        }
        Some(home)
    } else {
        None
    }
}

} // verus!
