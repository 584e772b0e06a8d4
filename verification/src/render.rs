//! Virtual-host configuration rendering: literal token substitution
//! over the built-in or a caller-supplied template.

use vstd::prelude::*;
use vstd::string::{StrSliceExecFns, StringExecFns};
use crate::error::Result;
use crate::utils::{matches_at, spec_contains};

verus! {

/// Decimal digit character for `d` in 0..9.
pub open spec fn spec_digit(d: nat) -> char {
    if d == 0 {
        '0'
    } else if d == 1 {
        '1'
    } else if d == 2 {
        '2'
    } else if d == 3 {
        '3'
    } else if d == 4 {
        '4'
    } else if d == 5 {
        '5'
    } else if d == 6 {
        '6'
    } else if d == 7 {
        '7'
    } else if d == 8 {
        '8'
    } else {
        '9'
    }
}

/// Decimal rendering of a natural number, most significant digit
/// first.
pub open spec fn spec_decimal(n: nat) -> Seq<char>
    decreases n,
{
    if n < 10 {
        seq![spec_digit(n)]
    } else {
        spec_decimal(n / 10).push(spec_digit(n % 10))
    }
}

/// The single-character string for a digit.
fn digit_str(d: u16) -> (r: &'static str)
    requires
        d < 10,
    ensures
        r@.len() == 1,
        r@[0] == spec_digit(d as nat),
{
    proof {
        reveal_strlit("0");
        reveal_strlit("1");
        reveal_strlit("2");
        reveal_strlit("3");
        reveal_strlit("4");
        reveal_strlit("5");
        reveal_strlit("6");
        reveal_strlit("7");
        reveal_strlit("8");
        reveal_strlit("9");
    }
    if d == 0 {
        "0"
    } else if d == 1 {
        "1"
    } else if d == 2 {
        "2"
    } else if d == 3 {
        "3"
    } else if d == 4 {
        "4"
    } else if d == 5 {
        "5"
    } else if d == 6 {
        "6"
    } else if d == 7 {
        "7"
    } else if d == 8 {
        "8"
    } else {
        "9"
    }
}

/// Decimal rendering of a port number.
pub fn u16_to_string(n: u16) -> (r: String)
    ensures
        r@ == spec_decimal(n as nat),
    decreases n,
{
    if n < 10 {
        let r = digit_str(n).to_owned();
        assert(r@ =~= seq![spec_digit(n as nat)]);
        r
    } else {
        let mut out = u16_to_string(n / 10);
        out.append(digit_str(n % 10));
        assert(out@ =~= spec_decimal(n as nat));
        out
    }
}

/// Every occurrence of `pat` in `s` replaced by `rep`, scanning left
/// to right without revisiting replaced text.
pub open spec fn spec_replace_all(s: Seq<char>, pat: Seq<char>, rep: Seq<char>) -> Seq<char>
    decreases s.len(),
{
    if pat.len() == 0 || s.len() == 0 {
        s
    } else if s.len() >= pat.len() && s.subrange(0, pat.len() as int) == pat {
        rep + spec_replace_all(s.skip(pat.len() as int), pat, rep)
    } else {
        seq![s[0]] + spec_replace_all(s.drop_first(), pat, rep)
    }
}

/// Replaces every occurrence of `pat` in `s` with `rep`.
pub fn replace_all(s: &str, pat: &str, rep: &str) -> (r: String)
    requires
        pat@.len() > 0,
    ensures
        r@ == spec_replace_all(s@, pat@, rep@),
{
    let n = s.unicode_len();
    let m = pat.unicode_len();
    let mut out = String::new();
    let mut i: usize = 0;
    proof {
        assert(s@.skip(0) =~= s@);
        assert(out@ + spec_replace_all(s@, pat@, rep@) =~= spec_replace_all(s@, pat@, rep@));
    }
    while i < n
        invariant
            n == s@.len(),
            m == pat@.len(),
            0 < m,
            0 <= i <= n,
            spec_replace_all(s@, pat@, rep@) == out@ + spec_replace_all(
                s@.skip(i as int),
                pat@,
                rep@,
            ),
        decreases n - i,
    {
        let ghost pre = out@;
        if matches_at(s, n, pat, m, i) {
            out.append(rep);
            proof {
                let tail = s@.skip(i as int);
                assert(tail.len() >= m);
                assert(tail.subrange(0, m as int) == pat@);
                assert(spec_replace_all(tail, pat@, rep@) == rep@ + spec_replace_all(
                    tail.skip(m as int),
                    pat@,
                    rep@,
                ));
                assert(tail.skip(m as int) =~= s@.skip(i as int + m as int));
            }
            i = i + m;
        } else {
            let piece = s.substring_char(i, i + 1);
            out.append(piece);
            proof {
                let tail = s@.skip(i as int);
                assert(tail.len() > 0);
                if tail.len() >= m {
                    assert(tail.subrange(0, m as int) != pat@);
                }
                assert(spec_replace_all(tail, pat@, rep@) == seq![tail[0]] + spec_replace_all(
                    tail.drop_first(),
                    pat@,
                    rep@,
                ));
                assert(piece@ =~= seq![tail[0]]);
                assert(tail.drop_first() =~= s@.skip(i as int + 1));
            }
            i = i + 1;
        }
    }
    proof {
        assert(s@.skip(n as int) =~= Seq::<char>::empty());
        assert(spec_replace_all(s@.skip(n as int), pat@, rep@) =~= Seq::<char>::empty());
        assert(out@ =~= out@ + Seq::<char>::empty());
    }
    out
}

/// Substituting a token that occurs in the text makes the
/// replacement text occur in the result: rendering a template that
/// holds a placeholder yields text holding what was substituted for
/// it.
pub proof fn lemma_replace_all_inserts(s: Seq<char>, pat: Seq<char>, rep: Seq<char>)
    requires
        pat.len() > 0,
        spec_contains(s, pat),
    ensures
        spec_contains(spec_replace_all(s, pat, rep), rep),
    decreases s.len(),
{
    let k = choose|k: int|
        0 <= k && k + pat.len() <= s.len() && #[trigger] s.subrange(k, k + pat.len()) == pat;
    if s.len() >= pat.len() && s.subrange(0, pat.len() as int) == pat {
        let out = rep + spec_replace_all(s.skip(pat.len() as int), pat, rep);
        assert(out.subrange(0, 0 + rep.len() as int) =~= rep);
        assert(spec_contains(out, rep));
    } else {
        assert(k != 0) by {
            if k == 0 {
                assert(s.len() >= pat.len());
                assert(s.subrange(0, pat.len() as int) == pat);
            }
        }
        assert(s.drop_first().subrange(k - 1, k - 1 + pat.len()) =~= s.subrange(
            k,
            k + pat.len(),
        ));
        assert(spec_contains(s.drop_first(), pat));
        lemma_replace_all_inserts(s.drop_first(), pat, rep);
        let inner = spec_replace_all(s.drop_first(), pat, rep);
        let k2 = choose|k2: int|
            0 <= k2 && k2 + rep.len() <= inner.len() && #[trigger] inner.subrange(
                k2,
                k2 + rep.len(),
            ) == rep;
        let out = seq![s[0]] + inner;
        assert(out.subrange(k2 + 1, k2 + 1 + rep.len()) =~= inner.subrange(k2, k2 + rep.len()));
        assert(spec_contains(out, rep));
    }
}

/// The built-in template's text, for use in contracts.
pub open spec fn spec_default_template() -> Seq<char> {
    "server {
    listen 443 ssl;
    server_name {{domain}};

    ssl_certificate /etc/nginx/ssl/{{domain}}.pem;
    ssl_certificate_key /etc/nginx/ssl/{{domain}}-key.pem;

    location / {
        proxy_pass http://127.0.0.1:{{port}};
        proxy_set_header Host $host;
        proxy_set_header X-Real-IP $remote_addr;
        proxy_set_header X-Forwarded-For $proxy_add_x_forwarded_for;
        proxy_set_header X-Forwarded-Proto $scheme;
    }
}

server {
    listen 80;
    server_name {{domain}};
    return 301 https://$server_name$request_uri;
}
"@
}

/// The built-in virtual host: TLS listener on 443 for the domain,
/// proxying to the backend, with an HTTP-to-HTTPS redirect on 80.
pub fn default_template() -> (r: &'static str)
    ensures
        r@ == spec_default_template(),
{
    "server {
    listen 443 ssl;
    server_name {{domain}};

    ssl_certificate /etc/nginx/ssl/{{domain}}.pem;
    ssl_certificate_key /etc/nginx/ssl/{{domain}}-key.pem;

    location / {
        proxy_pass http://127.0.0.1:{{port}};
        proxy_set_header Host $host;
        proxy_set_header X-Real-IP $remote_addr;
        proxy_set_header X-Forwarded-For $proxy_add_x_forwarded_for;
        proxy_set_header X-Forwarded-Proto $scheme;
    }
}

server {
    listen 80;
    server_name {{domain}};
    return 301 https://$server_name$request_uri;
}
"
}

/// The rendered text: `{{domain}}` and `{{port}}` substituted into the
/// template.
pub open spec fn spec_render(template: Seq<char>, domain: Seq<char>, port: u16) -> Seq<char> {
    spec_replace_all(
        spec_replace_all(template, "{{domain}}"@, domain),
        "{{port}}"@,
        spec_decimal(port as nat),
    )
}

/// Renders the virtual-host text for a domain and backend port.  With
/// `template` the caller supplies the template text; otherwise the
/// built-in template is used.
pub fn render_config(domain: &str, port: u16, template: Option<&str>) -> (r: Result<String>)
    ensures
        r matches Ok(text) && text@ == spec_render(
            match template {
                Some(t) => t@,
                None => spec_default_template(),
            },
            domain@,
            port,
        ),
{
    let text: &str = match template {
        Some(t) => t,
        None => default_template(),
    };
    proof {
        reveal_strlit("{{domain}}");
        reveal_strlit("{{port}}");
    }
    let step = replace_all(text, "{{domain}}", domain);
    let port_text = u16_to_string(port);
    let out = replace_all(step.as_str(), "{{port}}", port_text.as_str());
    Ok(out)
}

} // verus!
