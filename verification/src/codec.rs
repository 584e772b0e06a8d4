//! The registry's persistent document: a canonical JSON rendering of
//! the domain map, and its parser.  The emitter is verified against
//! the document specification; the parser accepts a document only if
//! re-emitting what it read reproduces the input exactly, so whatever
//! it returns is the canonical document of the returned registry.

use vstd::prelude::*;
use vstd::string::{StrSliceExecFns, StringExecFns};
use crate::config::{lemma_find_none_if_absent, unique_domains, ConfigManager, DomainConfig, DomainConfigView};
use crate::error::{Error, Result};
use crate::render::{spec_decimal, spec_digit, u16_to_string};
use crate::utils::{matches_at, str_eq};

verus! {

/// A string body with `"` and `\` escaped.
pub open spec fn spec_escape(s: Seq<char>) -> Seq<char>
    decreases s.len(),
{
    if s.len() == 0 {
        s
    } else if s[0] == '"' {
        seq!['\\', '"'] + spec_escape(s.drop_first())
    } else if s[0] == '\\' {
        seq!['\\', '\\'] + spec_escape(s.drop_first())
    } else {
        seq![s[0]] + spec_escape(s.drop_first())
    }
}

/// A JSON string: quoted, escaped body.
pub open spec fn spec_json_string(s: Seq<char>) -> Seq<char> {
    seq!['"'] + spec_escape(s) + seq!['"']
}

/// One record, rendered as a JSON object in fixed field order.
pub open spec fn spec_record_json(rec: DomainConfigView) -> Seq<char> {
    "{\"domain\":"@ + spec_json_string(rec.domain) + ",\"port\":"@ + spec_decimal(rec.port as nat)
        + ",\"service\":"@ + (match rec.service {
        Some(s) => spec_json_string(s),
        None => "null"@,
    }) + ",\"ssl_cert_path\":"@ + spec_json_string(rec.ssl_cert_path) + ",\"ssl_key_path\":"@
        + spec_json_string(rec.ssl_key_path) + ",\"nginx_config_path\":"@ + spec_json_string(
        rec.nginx_config_path,
    ) + ",\"created_at\":"@ + spec_json_string(rec.created_at) + ",\"enabled\":"@ + (
    if rec.enabled {
        "true"@
    } else {
        "false"@
    }) + "}"@
}

/// One map entry: the domain as key, the record as value.
pub open spec fn spec_entry_json(rec: DomainConfigView) -> Seq<char> {
    spec_json_string(rec.domain) + ":"@ + spec_record_json(rec)
}

/// The remaining entries, each preceded by a comma.
pub open spec fn spec_rest_json(s: Seq<DomainConfigView>) -> Seq<char>
    decreases s.len(),
{
    if s.len() == 0 {
        Seq::empty()
    } else {
        ","@ + spec_entry_json(s[0]) + spec_rest_json(s.drop_first())
    }
}

/// All entries, comma-separated.
pub open spec fn spec_entries_json(s: Seq<DomainConfigView>) -> Seq<char> {
    if s.len() == 0 {
        Seq::empty()
    } else {
        spec_entry_json(s[0]) + spec_rest_json(s.drop_first())
    }
}

/// The whole document.
pub open spec fn spec_registry_json(s: Seq<DomainConfigView>) -> Seq<char> {
    "{\"domains\":{"@ + spec_entries_json(s) + "}}"@
}

/// Escapes a string body for embedding in a JSON string.
fn escape_json(s: &str) -> (r: String)
    ensures
        r@ == spec_escape(s@),
{
    let n = s.unicode_len();
    let mut out = String::new();
    let mut i: usize = 0;
    proof {
        assert(s@.skip(0) =~= s@);
        assert(out@ + spec_escape(s@) =~= spec_escape(s@));
    }
    while i < n
        invariant
            n == s@.len(),
            0 <= i <= n,
            spec_escape(s@) == out@ + spec_escape(s@.skip(i as int)),
        decreases n - i,
    {
        let c = s.get_char(i);
        proof {
            reveal_strlit("\\\"");
            reveal_strlit("\\\\");
            let tail = s@.skip(i as int);
            assert(tail[0] == s@[i as int]);
            assert(tail.drop_first() =~= s@.skip(i as int + 1));
        }
        if c == '"' {
            out.append("\\\"");
            proof {
                assert("\\\""@ =~= seq!['\\', '"']);
            }
        } else if c == '\\' {
            out.append("\\\\");
            proof {
                assert("\\\\"@ =~= seq!['\\', '\\']);
            }
        } else {
            let piece = s.substring_char(i, i + 1);
            out.append(piece);
            proof {
                assert(piece@ =~= seq![s@.skip(i as int)[0]]);
            }
        }
        i = i + 1;
    }
    proof {
        assert(s@.skip(n as int) =~= Seq::<char>::empty());
        assert(out@ + Seq::<char>::empty() =~= out@);
    }
    out
}

/// Renders a JSON string.
fn json_string(s: &str) -> (r: String)
    ensures
        r@ == spec_json_string(s@),
{
    let mut out = "\"".to_owned();
    let body = escape_json(s);
    out.append(body.as_str());
    out.append("\"");
    proof {
        reveal_strlit("\"");
        assert(out@ =~= spec_json_string(s@));
    }
    out
}

/// Renders one record.
fn record_json(rec: &DomainConfig) -> (r: String)
    ensures
        r@ == spec_record_json(rec@),
{
    let mut out = "{\"domain\":".to_owned();
    let part = json_string(rec.domain.as_str());
    out.append(part.as_str());
    out.append(",\"port\":");
    let port_text = u16_to_string(rec.port);
    out.append(port_text.as_str());
    out.append(",\"service\":");
    match &rec.service {
        Some(s) => {
            let part = json_string(s.as_str());
            out.append(part.as_str());
        },
        None => {
            out.append("null");
        },
    }
    out.append(",\"ssl_cert_path\":");
    let part = json_string(rec.ssl_cert_path.as_str());
    out.append(part.as_str());
    out.append(",\"ssl_key_path\":");
    let part = json_string(rec.ssl_key_path.as_str());
    out.append(part.as_str());
    out.append(",\"nginx_config_path\":");
    let part = json_string(rec.nginx_config_path.as_str());
    out.append(part.as_str());
    out.append(",\"created_at\":");
    let part = json_string(rec.created_at.as_str());
    out.append(part.as_str());
    out.append(",\"enabled\":");
    if rec.enabled {
        out.append("true");
    } else {
        out.append("false");
    }
    out.append("}");
    out
}

/// Renders one entry.
fn entry_json(rec: &DomainConfig) -> (r: String)
    ensures
        r@ == spec_entry_json(rec@),
{
    let mut out = json_string(rec.domain.as_str());
    out.append(":");
    let body = record_json(rec);
    out.append(body.as_str());
    out
}

/// Renders the whole registry as its canonical document.
pub fn to_document(registry: &ConfigManager) -> (r: String)
    ensures
        r@ == spec_registry_json(registry@),
{
    let records = registry.list_domains();
    let n = records.len();
    let mut out = "{\"domains\":{".to_owned();
    if n > 0 {
        let entry = entry_json(records[0]);
        out.append(entry.as_str());
        let mut i: usize = 1;
        proof {
            assert(spec_rest_json(registry@.drop_first().skip(0)) == spec_rest_json(
                registry@.drop_first(),
            )) by {
                assert(registry@.drop_first().skip(0) =~= registry@.drop_first());
            }
        }
        while i < n
            invariant
                n == registry@.len(),
                records@.len() == n,
                forall|j: int| 0 <= j < n ==> records@[j]@ == registry@[j],
                1 <= i <= n,
                out@ + spec_rest_json(registry@.drop_first().skip(i - 1)) == "{\"domains\":{"@
                    + spec_entries_json(registry@),
            decreases n - i,
        {
            let ghost pre = out@;
            out.append(",");
            let entry = entry_json(records[i]);
            out.append(entry.as_str());
            proof {
                reveal_strlit(",");
                let rest = registry@.drop_first().skip(i - 1);
                assert(rest.len() > 0);
                assert(rest[0] == registry@[i as int]);
                assert(rest.drop_first() =~= registry@.drop_first().skip(i as int));
                assert(spec_rest_json(rest) == ","@ + spec_entry_json(registry@[i as int])
                    + spec_rest_json(registry@.drop_first().skip(i as int)));
                assert(out@ =~= pre + (","@ + spec_entry_json(registry@[i as int])));
                assert(out@ + spec_rest_json(registry@.drop_first().skip(i as int)) =~= pre
                    + spec_rest_json(rest));
            }
            i = i + 1;
        }
        out.append("}}");
        proof {
            assert(registry@.drop_first().skip(n - 1) =~= Seq::<DomainConfigView>::empty());
            assert(spec_rest_json(registry@.drop_first().skip(n - 1)) =~= Seq::<char>::empty());
            assert(out@ =~= spec_registry_json(registry@));
        }
        out
    } else {
        out.append("}}");
        proof {
            assert(spec_entries_json(registry@) =~= Seq::<char>::empty());
            assert(out@ =~= spec_registry_json(registry@));
        }
        out
    }
}

/// A decimal digit.
spec fn is_digit_char(c: char) -> bool {
    '0' <= c && c <= '9'
}

/// The value of a decimal digit character.
spec fn char_digit(c: char) -> nat {
    if c == '1' {
        1
    } else if c == '2' {
        2
    } else if c == '3' {
        3
    } else if c == '4' {
        4
    } else if c == '5' {
        5
    } else if c == '6' {
        6
    } else if c == '7' {
        7
    } else if c == '8' {
        8
    } else if c == '9' {
        9
    } else {
        0
    }
}

/// The number a digit string denotes, most significant digit first.
spec fn digits_val(ds: Seq<char>) -> nat
    decreases ds.len(),
{
    if ds.len() == 0 {
        0
    } else {
        digits_val(ds.drop_last()) * 10 + char_digit(ds.last())
    }
}

/// Every character of a decimal rendering is a digit.
proof fn lemma_decimal_digits(m: nat)
    ensures
        forall|idx: int|
            0 <= idx < spec_decimal(m).len() ==> is_digit_char(#[trigger] spec_decimal(m)[idx]),
    decreases m,
{
    if m >= 10 {
        lemma_decimal_digits(m / 10);
        assert forall|idx: int| 0 <= idx < spec_decimal(m).len() implies is_digit_char(
            #[trigger] spec_decimal(m)[idx],
        ) by {
            if idx < spec_decimal(m / 10).len() {
                assert(spec_decimal(m)[idx] == spec_decimal(m / 10)[idx]);
            } else {
                assert(spec_decimal(m)[idx] == spec_digit(m % 10));
            }
        }
    }
}

/// Reading the decimal rendering back yields the number.
proof fn lemma_decimal_value(m: nat)
    ensures
        digits_val(spec_decimal(m)) == m,
    decreases m,
{
    if m < 10 {
        assert(spec_decimal(m).drop_last() =~= Seq::<char>::empty());
        assert(digits_val(Seq::<char>::empty()) == 0);
        assert(spec_decimal(m).last() == spec_digit(m));
        assert(char_digit(spec_digit(m)) == m);
    } else {
        lemma_decimal_value(m / 10);
        assert(spec_decimal(m).drop_last() =~= spec_decimal(m / 10));
        assert(spec_decimal(m).last() == spec_digit(m % 10));
        assert(char_digit(spec_digit(m % 10)) == m % 10);
    }
}

/// A prefix of a digit string denotes no more than the whole.
proof fn lemma_digits_val_prefix_le(ds: Seq<char>, t: int)
    requires
        0 <= t <= ds.len(),
    ensures
        digits_val(ds.take(t)) <= digits_val(ds),
    decreases ds.len() - t,
{
    if t < ds.len() {
        lemma_digits_val_prefix_le(ds, t + 1);
        assert(ds.take(t + 1).drop_last() =~= ds.take(t));
        assert(ds.take(t + 1).last() == ds[t]);
        assert(digits_val(ds.take(t + 1)) == digits_val(ds.take(t)) * 10 + char_digit(ds[t]));
    } else {
        assert(ds.take(t) =~= ds);
    }
}

/// A digit character's numeric distance from `'0'` is its value.
proof fn lemma_char_digit_u32(c: char)
    requires
        is_digit_char(c),
    ensures
        c as u32 >= 48,
        (c as u32) - 48 == char_digit(c),
{
    if c == '0' {
    } else if c == '1' {
    } else if c == '2' {
    } else if c == '3' {
    } else if c == '4' {
    } else if c == '5' {
    } else if c == '6' {
    } else if c == '7' {
    } else if c == '8' {
    } else {
        assert(c == '9');
    }
}

/// Skipping past the first summand of a concatenation.
proof fn lemma_skip_concat(s: Seq<char>, i: int, a: Seq<char>, b: Seq<char>)
    requires
        0 <= i <= s.len(),
        s.skip(i) == a + b,
    ensures
        i + a.len() + b.len() == s.len(),
        s.skip(i + a.len()) == b,
        s.skip(i).subrange(0, a.len() as int) == a,
{
    assert(s.skip(i).len() == s.len() - i);
    assert(s.skip(i + a.len()) =~= b) by {
        assert forall|j: int| 0 <= j < b.len() implies s.skip(i + a.len())[j] == b[j] by {
            assert(s.skip(i + a.len())[j] == s[i + a.len() + j]);
            assert(s.skip(i)[a.len() + j] == s[i + a.len() + j]);
            assert((a + b)[a.len() + j] == b[j]);
        }
    }
    assert(s.skip(i).subrange(0, a.len() as int) =~= a);
}

/// Consumes the literal at position `i`, when it is there.
fn expect_lit(s: &str, n: usize, i: usize, lit: &str) -> (r: Option<usize>)
    requires
        n == s@.len(),
        i <= n,
    ensures
        r matches Some(j) ==> i <= j <= n && j == i + lit@.len(),
        lit@.len() > 0 ==> (r matches Some(j) ==> i < j),
        r is Some <==> (i + lit@.len() <= n && s@.skip(i as int).subrange(0, lit@.len() as int)
            == lit@),
{
    let m = lit.unicode_len();
    if m == 0 {
        proof {
            assert(s@.skip(i as int).subrange(0, 0) =~= lit@);
        }
        return Some(i);
    }
    if matches_at(s, n, lit, m, i) {
        Some(i + m)
    } else {
        None
    }
}

/// Reads a JSON string starting at `i`; returns its unescaped body
/// and the position after the closing quote.  The ghost witness, when
/// given, names the body and tail the input holds there, and the
/// parse is then proved to reproduce exactly that body.
fn parse_string(s: &str, n: usize, i: usize, w: Ghost<Option<(Seq<char>, Seq<char>)>>) -> (r:
    Option<(String, usize)>)
    requires
        n == s@.len(),
        i <= n,
        w@ is Some ==> s@.skip(i as int) == spec_json_string(w@->Some_0.0) + w@->Some_0.1,
    ensures
        r matches Some(p) ==> i < p.1 <= n,
        w@ is Some ==> (r matches Some(p) && p.0@ == w@->Some_0.0 && s@.skip(p.1 as int)
            == w@->Some_0.1),
{
    proof {
        if w@ is Some {
            let wp = w@->Some_0;
            assert(s@.skip(i as int) == (seq!['"'] + spec_escape(wp.0)) + (seq!['"'] + wp.1)) by {
                assert(spec_json_string(wp.0) + wp.1 =~= (seq!['"'] + spec_escape(wp.0)) + (
                seq!['"'] + wp.1));
            }
            assert(s@.skip(i as int).len() >= 2);
            assert(s@.skip(i as int)[0] == '"') by {
                assert((seq!['"'] + spec_escape(wp.0))[0] == '"');
            }
            assert(s@[i as int] == s@.skip(i as int)[0]);
        }
    }
    if i >= n {
        return None;
    }
    if s.get_char(i) != '"' {
        return None;
    }
    let mut j: usize = i + 1;
    let mut out = String::new();
    let ghost mut k: int = 0;
    proof {
        if w@ is Some {
            let wp = w@->Some_0;
            assert(s@.skip(i as int) == seq!['"'] + (spec_escape(wp.0) + seq!['"'] + wp.1)) by {
                assert(spec_json_string(wp.0) + wp.1 =~= seq!['"'] + (spec_escape(wp.0) + seq!['"']
                    + wp.1));
            }
            lemma_skip_concat(s@, i as int, seq!['"'], spec_escape(wp.0) + seq!['"'] + wp.1);
            assert(s@.skip(i as int + 1) == spec_escape(wp.0) + seq!['"'] + wp.1);
            assert(wp.0.skip(0) =~= wp.0);
            assert(out@ =~= wp.0.take(0));
        }
    }
    while j < n
        invariant
            n == s@.len(),
            i < j <= n,
            w@ matches Some(wp) ==> {
                &&& 0 <= k <= wp.0.len()
                &&& out@ == wp.0.take(k)
                &&& s@.skip(j as int) == spec_escape(wp.0.skip(k)) + seq!['"'] + wp.1
            },
        decreases n - j,
    {
        proof {
            if w@ is Some {
                let wp = w@->Some_0;
                let todo = wp.0.skip(k);
                if todo.len() > 0 {
                    assert(todo.drop_first() =~= wp.0.skip(k + 1));
                    assert(todo[0] == wp.0[k]);
                }
            }
        }
        let c = s.get_char(j);
        if c == '"' {
            proof {
                if w@ is Some {
                    let wp = w@->Some_0;
                    let todo = wp.0.skip(k);
                    if todo.len() > 0 {
                        assert(spec_escape(todo).len() > 0);
                        assert(s@.skip(j as int)[0] == spec_escape(todo)[0]) by {
                            assert((spec_escape(todo) + seq!['"'] + wp.1)[0] == (spec_escape(todo)
                                + seq!['"'])[0]);
                            assert((spec_escape(todo) + seq!['"'])[0] == spec_escape(todo)[0]);
                        }
                        assert(s@[j as int] == s@.skip(j as int)[0]);
                        if todo[0] == '"' || todo[0] == '\\' {
                            assert(spec_escape(todo)[0] == '\\');
                            assert(false);
                        } else {
                            assert(spec_escape(todo)[0] == todo[0]);
                            assert(false);
                        }
                    }
                    assert(todo =~= Seq::<char>::empty());
                    assert(spec_escape(todo) =~= Seq::<char>::empty());
                    assert(s@.skip(j as int) == seq!['"'] + wp.1) by {
                        assert(spec_escape(todo) + seq!['"'] + wp.1 =~= seq!['"'] + wp.1);
                    }
                    lemma_skip_concat(s@, j as int, seq!['"'], wp.1);
                    assert(out@ =~= wp.0);
                }
            }
            return Some((out, j + 1));
        }
        if c == '\\' {
            proof {
                if w@ is Some {
                    let wp = w@->Some_0;
                    let todo = wp.0.skip(k);
                    assert(todo.len() > 0) by {
                        if todo.len() == 0 {
                            assert(spec_escape(todo) =~= Seq::<char>::empty());
                            assert(s@.skip(j as int) == seq!['"'] + wp.1) by {
                                assert(spec_escape(todo) + seq!['"'] + wp.1 =~= seq!['"'] + wp.1);
                            }
                            assert(s@.skip(j as int)[0] == '"');
                            assert(s@[j as int] == s@.skip(j as int)[0]);
                        }
                    }
                    if !(todo[0] == '"' || todo[0] == '\\') {
                        assert(spec_escape(todo)[0] == todo[0]);
                        assert(s@[j as int] == s@.skip(j as int)[0]);
                        assert((spec_escape(todo) + seq!['"'] + wp.1)[0] == (spec_escape(todo)
                            + seq!['"'])[0]);
                        assert((spec_escape(todo) + seq!['"'])[0] == spec_escape(todo)[0]);
                        assert(s@[j as int] == todo[0]);
                        assert(todo[0] == '\\');
                        assert(false);
                    }
                }
            }
            if j + 1 >= n {
                proof {
                    if w@ is Some {
                        let wp = w@->Some_0;
                        let todo = wp.0.skip(k);
                        assert(spec_escape(todo).len() >= 2);
                        assert(s@.skip(j as int).len() >= 3);
                        assert(false);
                    }
                }
                return None;
            }
            let c2 = s.get_char(j + 1);
            proof {
                if w@ is Some {
                    let wp = w@->Some_0;
                    let todo = wp.0.skip(k);
                    let chunk: Seq<char> = if todo[0] == '"' {
                        seq!['\\', '"']
                    } else {
                        seq!['\\', '\\']
                    };
                    assert(spec_escape(todo) == chunk + spec_escape(wp.0.skip(k + 1)));
                    assert(s@.skip(j as int) == chunk + (spec_escape(wp.0.skip(k + 1)) + seq!['"']
                        + wp.1)) by {
                        assert(chunk + spec_escape(wp.0.skip(k + 1)) + seq!['"'] + wp.1 =~= chunk
                            + (spec_escape(wp.0.skip(k + 1)) + seq!['"'] + wp.1));
                    }
                    assert(s@[j + 1] == s@.skip(j as int)[1]);
                    assert(s@.skip(j as int)[1] == chunk[1]);
                    lemma_skip_concat(
                        s@,
                        j as int,
                        chunk,
                        spec_escape(wp.0.skip(k + 1)) + seq!['"'] + wp.1,
                    );
                }
            }
            let ghost pre = out@;
            if c2 == '"' {
                out.append("\"");
                proof {
                    reveal_strlit("\"");
                    assert(out@ =~= pre.push('"'));
                }
            } else if c2 == '\\' {
                out.append("\\");
                proof {
                    reveal_strlit("\\");
                    assert(out@ =~= pre.push('\\'));
                }
            } else {
                proof {
                    if w@ is Some {
                        let wp = w@->Some_0;
                        let todo = wp.0.skip(k);
                        assert(c2 == '"' || c2 == '\\');
                    }
                }
                return None;
            }
            proof {
                if w@ is Some {
                    let wp = w@->Some_0;
                    let todo = wp.0.skip(k);
                    assert(c2 == todo[0]);
                    assert(out@ =~= wp.0.take(k + 1)) by {
                        assert(wp.0.take(k + 1) =~= wp.0.take(k).push(wp.0[k]));
                    }
                    k = k + 1;
                }
            }
            j = j + 2;
        } else {
            let piece = s.substring_char(j, j + 1);
            let ghost pre = out@;
            out.append(piece);
            proof {
                assert(piece@ =~= seq![s@[j as int]]);
                if w@ is Some {
                    let wp = w@->Some_0;
                    let todo = wp.0.skip(k);
                    assert(todo.len() > 0) by {
                        if todo.len() == 0 {
                            assert(spec_escape(todo) =~= Seq::<char>::empty());
                            assert(s@.skip(j as int) == seq!['"'] + wp.1) by {
                                assert(spec_escape(todo) + seq!['"'] + wp.1 =~= seq!['"'] + wp.1);
                            }
                            assert(s@.skip(j as int)[0] == '"');
                            assert(s@[j as int] == s@.skip(j as int)[0]);
                        }
                    }
                    assert(s@.skip(j as int)[0] == spec_escape(todo)[0]) by {
                        assert((spec_escape(todo) + seq!['"'] + wp.1)[0] == (spec_escape(todo)
                            + seq!['"'])[0]);
                        assert((spec_escape(todo) + seq!['"'])[0] == spec_escape(todo)[0]);
                    }
                    assert(todo[0] != '"' && todo[0] != '\\') by {
                        if todo[0] == '"' || todo[0] == '\\' {
                            assert(spec_escape(todo)[0] == '\\');
                            assert(s@[j as int] == s@.skip(j as int)[0]);
                            assert(s@[j as int] == '\\');
                        }
                    }
                    assert(spec_escape(todo) == seq![todo[0]] + spec_escape(wp.0.skip(k + 1)));
                    assert(s@.skip(j as int) == seq![todo[0]] + (spec_escape(wp.0.skip(k + 1))
                        + seq!['"'] + wp.1)) by {
                        assert(seq![todo[0]] + spec_escape(wp.0.skip(k + 1)) + seq!['"'] + wp.1
                            =~= seq![todo[0]] + (spec_escape(wp.0.skip(k + 1)) + seq!['"']
                            + wp.1));
                    }
                    assert(s@[j as int] == s@.skip(j as int)[0]);
                    assert((seq![todo[0]] + (spec_escape(wp.0.skip(k + 1)) + seq!['"'] + wp.1))[0]
                        == todo[0]);
                    assert(s@[j as int] == todo[0]);
                    lemma_skip_concat(
                        s@,
                        j as int,
                        seq![todo[0]],
                        spec_escape(wp.0.skip(k + 1)) + seq!['"'] + wp.1,
                    );
                    assert(out@ =~= wp.0.take(k + 1)) by {
                        assert(wp.0.take(k + 1) =~= wp.0.take(k).push(wp.0[k]));
                    }
                    k = k + 1;
                }
            }
            j = j + 1;
        }
    }
    proof {
        if w@ is Some {
            let wp = w@->Some_0;
            assert(s@.skip(j as int).len() >= 1);
            assert(false);
        }
    }
    None
}

/// Reads a decimal port number starting at `i`.  The ghost witness
/// names the number the input holds there, followed by a non-digit
/// tail; the parse is then proved to return exactly that number.
fn parse_port(s: &str, n: usize, i: usize, w: Ghost<Option<(u16, Seq<char>)>>) -> (r: Option<
    (u16, usize)>)
    requires
        n == s@.len(),
        i <= n,
        w@ is Some ==> s@.skip(i as int) == spec_decimal(w@->Some_0.0 as nat) + w@->Some_0.1,
        w@ is Some ==> w@->Some_0.1.len() > 0,
        w@ is Some ==> !is_digit_char(w@->Some_0.1[0]),
    ensures
        r matches Some(p) ==> i < p.1 <= n,
        w@ is Some ==> (r matches Some(p) && p.0 == w@->Some_0.0 && s@.skip(p.1 as int)
            == w@->Some_0.1),
{
    let mut j: usize = i;
    let mut value: u32 = 0;
    let ghost mut t: int = 0;
    proof {
        if w@ is Some {
            let wp = w@->Some_0;
            crate::time::lemma_spec_decimal_nonempty(wp.0 as nat);
            lemma_decimal_digits(wp.0 as nat);
            lemma_decimal_value(wp.0 as nat);
            assert(spec_decimal(wp.0 as nat).skip(0) =~= spec_decimal(wp.0 as nat));
            assert(spec_decimal(wp.0 as nat).take(0) =~= Seq::<char>::empty());
        }
    }
    while j < n
        invariant
            n == s@.len(),
            i <= j <= n,
            value <= 65535,
            w@ is Some ==> w@->Some_0.1.len() > 0,
            w@ is Some ==> !is_digit_char(w@->Some_0.1[0]),
            w@ matches Some(wp) ==> {
                &&& 0 <= t <= spec_decimal(wp.0 as nat).len()
                &&& j == i + t
                &&& s@.skip(j as int) == spec_decimal(wp.0 as nat).skip(t) + wp.1
                &&& value == digits_val(spec_decimal(wp.0 as nat).take(t))
            },
        decreases n - j,
    {
        let c = s.get_char(j);
        proof {
            if w@ is Some {
                let wp = w@->Some_0;
                let ds = spec_decimal(wp.0 as nat);
                lemma_decimal_digits(wp.0 as nat);
                lemma_decimal_value(wp.0 as nat);
                if t < ds.len() {
                    assert(ds.skip(t)[0] == ds[t]);
                    assert(s@[j as int] == s@.skip(j as int)[0]);
                    assert((ds.skip(t) + wp.1)[0] == ds[t]);
                    assert(is_digit_char(ds[t]));
                } else {
                    assert(ds.skip(t) =~= Seq::<char>::empty());
                    assert(s@.skip(j as int) == wp.1) by {
                        assert(ds.skip(t) + wp.1 =~= wp.1);
                    }
                    assert(s@[j as int] == wp.1[0]);
                }
            }
        }
        if '0' <= c && c <= '9' {
            proof {
                lemma_char_digit_u32(c);
                if w@ is Some {
                    let wp = w@->Some_0;
                    let ds = spec_decimal(wp.0 as nat);
                    lemma_decimal_digits(wp.0 as nat);
                    lemma_decimal_value(wp.0 as nat);
                    assert(t < ds.len()) by {
                        if t >= ds.len() {
                            assert(ds.skip(t) =~= Seq::<char>::empty());
                            assert(s@.skip(j as int) == wp.1) by {
                                assert(ds.skip(t) + wp.1 =~= wp.1);
                            }
                            assert(s@[j as int] == s@.skip(j as int)[0]);
                            assert(c == wp.1[0]);
                            assert(is_digit_char(c));
                            assert(is_digit_char(wp.1[0]));
                            assert(wp == w@->Some_0);
                            assert(!is_digit_char(w@->Some_0.1[0]));
                            assert(false);
                        }
                    }
                    assert(c == ds[t]);
                    lemma_digits_val_prefix_le(ds, t + 1);
                    assert(ds.take(t + 1).drop_last() =~= ds.take(t));
                    assert(ds.take(t + 1).last() == ds[t]);
                    lemma_decimal_value(wp.0 as nat);
                }
            }
            let d: u32 = (c as u32) - 48;
            assert(d <= 9);
            let next = value * 10 + d;
            if next > 65535 {
                proof {
                    if w@ is Some {
                        let wp = w@->Some_0;
                        let ds = spec_decimal(wp.0 as nat);
                        lemma_decimal_value(wp.0 as nat);
                        lemma_digits_val_prefix_le(ds, t + 1);
                        assert(ds.take(t + 1).drop_last() =~= ds.take(t));
                        assert(ds.take(t + 1).last() == ds[t]);
                        assert(next == digits_val(ds.take(t + 1)));
                        assert(digits_val(ds.take(t + 1)) <= digits_val(ds));
                        assert(digits_val(ds) == wp.0 as nat);
                        assert(false);
                    }
                }
                return None;
            }
            value = next;
            proof {
                if w@ is Some {
                    let wp = w@->Some_0;
                    let ds = spec_decimal(wp.0 as nat);
                    assert(ds.skip(t).drop_first() =~= ds.skip(t + 1));
                    assert(s@.skip(j as int) == seq![ds[t]] + (ds.skip(t + 1) + wp.1)) by {
                        assert(ds.skip(t) + wp.1 =~= seq![ds[t]] + (ds.skip(t + 1) + wp.1));
                    }
                    lemma_skip_concat(s@, j as int, seq![ds[t]], ds.skip(t + 1) + wp.1);
                    t = t + 1;
                }
            }
            j = j + 1;
        } else {
            if j == i {
                proof {
                    if w@ is Some {
                        let wp = w@->Some_0;
                        let ds = spec_decimal(wp.0 as nat);
                        crate::time::lemma_spec_decimal_nonempty(wp.0 as nat);
                        lemma_decimal_digits(wp.0 as nat);
                        assert(t == 0 && ds.len() >= 1);
                        assert(is_digit_char(ds[0]));
                        assert(false);
                    }
                }
                return None;
            }
            proof {
                if w@ is Some {
                    let wp = w@->Some_0;
                    let ds = spec_decimal(wp.0 as nat);
                    lemma_decimal_digits(wp.0 as nat);
                    lemma_decimal_value(wp.0 as nat);
                    assert(t == ds.len()) by {
                        if t < ds.len() {
                            assert(c == ds[t]);
                            assert(is_digit_char(c));
                        }
                    }
                    assert(ds.take(t) =~= ds);
                    assert(value == wp.0 as nat);
                    assert(s@.skip(j as int) == wp.1) by {
                        assert(ds.skip(t) =~= Seq::<char>::empty());
                        assert(ds.skip(t) + wp.1 =~= wp.1);
                    }
                }
            }
            return Some((value as u16, j));
        }
    }
    if j == i {
        return None;
    }
    proof {
        if w@ is Some {
            let wp = w@->Some_0;
            assert(s@.skip(j as int).len() >= wp.1.len());
            assert(wp.1.len() > 0);
            assert(j < n);
            assert(false);
        }
    }
    Some((value as u16, j))
}

/// The opening half of a record object: domain, port, service.
pub open spec fn spec_record_head_json(rec: DomainConfigView) -> Seq<char> {
    "{\"domain\":"@ + spec_json_string(rec.domain) + ",\"port\":"@ + spec_decimal(rec.port as nat)
        + ",\"service\":"@ + (match rec.service {
        Some(s) => spec_json_string(s),
        None => "null"@,
    })
}

/// The closing half of a record object: the paths, timestamp and
/// enabled flag.
pub open spec fn spec_record_tail_json(rec: DomainConfigView) -> Seq<char> {
    ",\"ssl_cert_path\":"@ + spec_json_string(rec.ssl_cert_path) + ",\"ssl_key_path\":"@
        + spec_json_string(rec.ssl_key_path) + ",\"nginx_config_path\":"@ + spec_json_string(
        rec.nginx_config_path,
    ) + ",\"created_at\":"@ + spec_json_string(rec.created_at) + ",\"enabled\":"@ + (
    if rec.enabled {
        "true"@
    } else {
        "false"@
    }) + "}"@
}

/// A record object is its two halves in sequence.
proof fn lemma_record_json_split(rec: DomainConfigView)
    ensures
        spec_record_json(rec) == spec_record_head_json(rec) + spec_record_tail_json(rec),
{
    assert(spec_record_json(rec) =~= spec_record_head_json(rec) + spec_record_tail_json(rec));
}

/// Reads the opening half of a record object: domain, port, service.
#[verifier::rlimit(100)]
fn parse_record_head(s: &str, n: usize, i: usize, w: Ghost<Option<(DomainConfigView, Seq<char>)>>)
    -> (r: Option<((String, u16, Option<String>), usize)>)
    requires
        n == s@.len(),
        i <= n,
        w@ is Some ==> s@.skip(i as int) == spec_record_head_json(w@->Some_0.0) + w@->Some_0.1,
    ensures
        r matches Some(p) ==> i < p.1 <= n,
        w@ is Some ==> (r matches Some(p) && p.0.0@ == w@->Some_0.0.domain && p.0.1
            == w@->Some_0.0.port && (match p.0.2 {
            Some(sv) => w@->Some_0.0.service == Some(sv@),
            None => w@->Some_0.0.service is None,
        }) && s@.skip(p.1 as int) == w@->Some_0.1),
{
    let ghost rv = w@->Some_0.0;
    let ghost rest = w@->Some_0.1;
    let ghost a1 = "{\"domain\":"@;
    let ghost b1 = spec_json_string(rv.domain);
    let ghost a2 = ",\"port\":"@;
    let ghost b2 = spec_decimal(rv.port as nat);
    let ghost a3 = ",\"service\":"@;
    let ghost b3 = (match rv.service {
        Some(sv) => spec_json_string(sv),
        None => "null"@,
    });
    let ghost t6 = b3 + rest;
    let ghost t5 = a3 + t6;
    let ghost t4 = b2 + t5;
    let ghost t3 = a2 + t4;
    let ghost t2 = b1 + t3;
    proof {
        if w@ is Some {
            assert(spec_record_head_json(rv) + rest =~= a1 + t2);
        }
    }
    let mut j: usize = match expect_lit(s, n, i, "{\"domain\":") {
        Some(j) => j,
        None => {
            proof {
                if w@ is Some {
                    lemma_skip_concat(s@, i as int, a1, t2);
                    assert(false);
                }
            }
            return None;
        },
    };
    proof {
        if w@ is Some {
            lemma_skip_concat(s@, i as int, a1, t2);
        }
    }
    let domain = match parse_string(
        s,
        n,
        j,
        Ghost(
            if w@ is Some {
                Some((rv.domain, t3))
            } else {
                None
            },
        ),
    ) {
        Some(p) => {
            j = p.1;
            p.0
        },
        None => {
            return None;
        },
    };
    let ghost pos3 = j;
    j = match expect_lit(s, n, j, ",\"port\":") {
        Some(j2) => j2,
        None => {
            proof {
                if w@ is Some {
                    lemma_skip_concat(s@, pos3 as int, a2, t4);
                    assert(false);
                }
            }
            return None;
        },
    };
    proof {
        if w@ is Some {
            lemma_skip_concat(s@, pos3 as int, a2, t4);
            reveal_strlit(",\"service\":");
            assert(t5[0] == ',') by {
                assert((a3 + t6)[0] == a3[0]);
            }
            assert(t5.len() > 0);
            assert(!is_digit_char(','));
        }
    }
    let port = match parse_port(
        s,
        n,
        j,
        Ghost(
            if w@ is Some {
                Some((rv.port, t5))
            } else {
                None
            },
        ),
    ) {
        Some(p) => {
            j = p.1;
            p.0
        },
        None => {
            return None;
        },
    };
    let ghost pos5 = j;
    j = match expect_lit(s, n, j, ",\"service\":") {
        Some(j2) => j2,
        None => {
            proof {
                if w@ is Some {
                    lemma_skip_concat(s@, pos5 as int, a3, t6);
                    assert(false);
                }
            }
            return None;
        },
    };
    proof {
        if w@ is Some {
            lemma_skip_concat(s@, pos5 as int, a3, t6);
        }
    }
    let ghost pos6 = j;
    let mut service: Option<String> = None;
    match expect_lit(s, n, j, "null") {
        Some(j2) => {
            proof {
                if w@ is Some && rv.service is Some {
                    let sv = rv.service->Some_0;
                    reveal_strlit("null");
                    assert(s@.skip(pos6 as int).subrange(0, 4)[0] == s@.skip(pos6 as int)[0]);
                    assert(s@.skip(pos6 as int)[0] == (spec_json_string(sv) + rest)[0]);
                    assert((spec_json_string(sv) + rest)[0] == spec_json_string(sv)[0]);
                    assert(spec_json_string(sv)[0] == '"');
                    assert(false);
                }
            }
            j = j2;
        },
        None => {
            let parsed = match parse_string(
                s,
                n,
                j,
                Ghost(
                    if w@ is Some && rv.service is Some {
                        Some((rv.service->Some_0, rest))
                    } else {
                        None
                    },
                ),
            ) {
                Some(p) => p,
                None => {
                    proof {
                        if w@ is Some && rv.service is None {
                            reveal_strlit("null");
                            lemma_skip_concat(s@, pos6 as int, b3, rest);
                            assert(false);
                        }
                    }
                    return None;
                },
            };
            j = parsed.1;
            service = Some(parsed.0);
        },
    }
    proof {
        if w@ is Some && rv.service is None {
            reveal_strlit("null");
            lemma_skip_concat(s@, pos6 as int, b3, rest);
            assert(service is None);
            assert(s@.skip(j as int) == rest);
        }
        if w@ is Some && rv.service is Some {
            assert(s@.skip(j as int) == rest);
        }
    }
    Some(((domain, port, service), j))
}

/// Reads the closing half of a record object: the paths, timestamp
/// and enabled flag, through the closing brace.
#[verifier::rlimit(100)]
fn parse_record_rest(s: &str, n: usize, i: usize, w: Ghost<Option<(DomainConfigView, Seq<char>)>>)
    -> (r: Option<((String, String, String, String, bool), usize)>)
    requires
        n == s@.len(),
        i <= n,
        w@ is Some ==> s@.skip(i as int) == spec_record_tail_json(w@->Some_0.0) + w@->Some_0.1,
    ensures
        r matches Some(p) ==> i < p.1 <= n,
        w@ is Some ==> (r matches Some(p) && p.0.0@ == w@->Some_0.0.ssl_cert_path && p.0.1@
            == w@->Some_0.0.ssl_key_path && p.0.2@ == w@->Some_0.0.nginx_config_path && p.0.3@
            == w@->Some_0.0.created_at && p.0.4 == w@->Some_0.0.enabled && s@.skip(p.1 as int)
            == w@->Some_0.1),
{
    let ghost rv = w@->Some_0.0;
    let ghost rest = w@->Some_0.1;
    let ghost a4 = ",\"ssl_cert_path\":"@;
    let ghost b4 = spec_json_string(rv.ssl_cert_path);
    let ghost a5 = ",\"ssl_key_path\":"@;
    let ghost b5 = spec_json_string(rv.ssl_key_path);
    let ghost a6 = ",\"nginx_config_path\":"@;
    let ghost b6 = spec_json_string(rv.nginx_config_path);
    let ghost a7 = ",\"created_at\":"@;
    let ghost b7 = spec_json_string(rv.created_at);
    let ghost a8 = ",\"enabled\":"@;
    let ghost b8 = (if rv.enabled {
        "true"@
    } else {
        "false"@
    });
    let ghost a9 = "}"@;
    let ghost t17 = a9 + rest;
    let ghost t16 = b8 + t17;
    let ghost t15 = a8 + t16;
    let ghost t14 = b7 + t15;
    let ghost t13 = a7 + t14;
    let ghost t12 = b6 + t13;
    let ghost t11 = a6 + t12;
    let ghost t10 = b5 + t11;
    let ghost t9 = a5 + t10;
    let ghost t8 = b4 + t9;
    proof {
        if w@ is Some {
            assert(spec_record_tail_json(rv) + rest =~= a4 + t8);
        }
    }
    let mut j: usize = match expect_lit(s, n, i, ",\"ssl_cert_path\":") {
        Some(j2) => j2,
        None => {
            proof {
                if w@ is Some {
                    lemma_skip_concat(s@, i as int, a4, t8);
                    assert(false);
                }
            }
            return None;
        },
    };
    proof {
        if w@ is Some {
            lemma_skip_concat(s@, i as int, a4, t8);
        }
    }
    let ssl_cert_path = match parse_string(
        s,
        n,
        j,
        Ghost(
            if w@ is Some {
                Some((rv.ssl_cert_path, t9))
            } else {
                None
            },
        ),
    ) {
        Some(p) => {
            j = p.1;
            p.0
        },
        None => {
            return None;
        },
    };
    let ghost pos9 = j;
    j = match expect_lit(s, n, j, ",\"ssl_key_path\":") {
        Some(j2) => j2,
        None => {
            proof {
                if w@ is Some {
                    lemma_skip_concat(s@, pos9 as int, a5, t10);
                    assert(false);
                }
            }
            return None;
        },
    };
    proof {
        if w@ is Some {
            lemma_skip_concat(s@, pos9 as int, a5, t10);
        }
    }
    let ssl_key_path = match parse_string(
        s,
        n,
        j,
        Ghost(
            if w@ is Some {
                Some((rv.ssl_key_path, t11))
            } else {
                None
            },
        ),
    ) {
        Some(p) => {
            j = p.1;
            p.0
        },
        None => {
            return None;
        },
    };
    let ghost pos11 = j;
    j = match expect_lit(s, n, j, ",\"nginx_config_path\":") {
        Some(j2) => j2,
        None => {
            proof {
                if w@ is Some {
                    lemma_skip_concat(s@, pos11 as int, a6, t12);
                    assert(false);
                }
            }
            return None;
        },
    };
    proof {
        if w@ is Some {
            lemma_skip_concat(s@, pos11 as int, a6, t12);
        }
    }
    let nginx_config_path = match parse_string(
        s,
        n,
        j,
        Ghost(
            if w@ is Some {
                Some((rv.nginx_config_path, t13))
            } else {
                None
            },
        ),
    ) {
        Some(p) => {
            j = p.1;
            p.0
        },
        None => {
            return None;
        },
    };
    let ghost pos13 = j;
    j = match expect_lit(s, n, j, ",\"created_at\":") {
        Some(j2) => j2,
        None => {
            proof {
                if w@ is Some {
                    lemma_skip_concat(s@, pos13 as int, a7, t14);
                    assert(false);
                }
            }
            return None;
        },
    };
    proof {
        if w@ is Some {
            lemma_skip_concat(s@, pos13 as int, a7, t14);
        }
    }
    let created_at = match parse_string(
        s,
        n,
        j,
        Ghost(
            if w@ is Some {
                Some((rv.created_at, t15))
            } else {
                None
            },
        ),
    ) {
        Some(p) => {
            j = p.1;
            p.0
        },
        None => {
            return None;
        },
    };
    let ghost pos15 = j;
    j = match expect_lit(s, n, j, ",\"enabled\":") {
        Some(j2) => j2,
        None => {
            proof {
                if w@ is Some {
                    lemma_skip_concat(s@, pos15 as int, a8, t16);
                    assert(false);
                }
            }
            return None;
        },
    };
    proof {
        if w@ is Some {
            lemma_skip_concat(s@, pos15 as int, a8, t16);
        }
    }
    let ghost pos16 = j;
    let mut enabled = false;
    match expect_lit(s, n, j, "true") {
        Some(j2) => {
            proof {
                if w@ is Some && !rv.enabled {
                    reveal_strlit("true");
                    reveal_strlit("false");
                    assert(s@.skip(pos16 as int).subrange(0, 4)[0] == s@.skip(pos16 as int)[0]);
                    assert(s@.skip(pos16 as int)[0] == ("false"@ + t17)[0]);
                    assert(("false"@ + t17)[0] == "false"@[0]);
                    assert(false);
                }
            }
            j = j2;
            enabled = true;
        },
        None => {
            match expect_lit(s, n, j, "false") {
                Some(j2) => {
                    proof {
                        if w@ is Some && rv.enabled {
                            reveal_strlit("true");
                            reveal_strlit("false");
                            assert(s@.skip(pos16 as int).subrange(0, 5)[0] == s@.skip(
                                pos16 as int,
                            )[0]);
                            assert(s@.skip(pos16 as int)[0] == ("true"@ + t17)[0]);
                            assert(("true"@ + t17)[0] == "true"@[0]);
                            assert(false);
                        }
                    }
                    j = j2;
                },
                None => {
                    proof {
                        if w@ is Some {
                            reveal_strlit("true");
                            reveal_strlit("false");
                            lemma_skip_concat(s@, pos16 as int, b8, t17);
                            assert(false);
                        }
                    }
                    return None;
                },
            }
        },
    }
    proof {
        if w@ is Some {
            reveal_strlit("true");
            reveal_strlit("false");
            lemma_skip_concat(s@, pos16 as int, b8, t17);
            assert(enabled == rv.enabled);
            assert(s@.skip(j as int) == t17);
        }
    }
    let ghost pos17 = j;
    j = match expect_lit(s, n, j, "}") {
        Some(j2) => j2,
        None => {
            proof {
                if w@ is Some {
                    lemma_skip_concat(s@, pos17 as int, a9, rest);
                    assert(false);
                }
            }
            return None;
        },
    };
    proof {
        if w@ is Some {
            lemma_skip_concat(s@, pos17 as int, a9, rest);
        }
    }
    Some(((ssl_cert_path, ssl_key_path, nginx_config_path, created_at, enabled), j))
}

/// Reads one record object starting at `i`.  The ghost witness names
/// the record and tail the input holds there; the parse is then
/// proved to reproduce exactly that record.
fn parse_record(s: &str, n: usize, i: usize, w: Ghost<Option<(DomainConfigView, Seq<char>)>>) -> (
    r: Option<(DomainConfig, usize)>)
    requires
        n == s@.len(),
        i <= n,
        w@ is Some ==> s@.skip(i as int) == spec_record_json(w@->Some_0.0) + w@->Some_0.1,
    ensures
        r matches Some(p) ==> i < p.1 <= n,
        w@ is Some ==> (r matches Some(p) && p.0@ == w@->Some_0.0 && s@.skip(p.1 as int)
            == w@->Some_0.1),
{
    let ghost rv = w@->Some_0.0;
    let ghost rest = w@->Some_0.1;
    proof {
        if w@ is Some {
            lemma_record_json_split(rv);
            assert(s@.skip(i as int) == spec_record_head_json(rv) + (spec_record_tail_json(rv)
                + rest)) by {
                assert((spec_record_head_json(rv) + spec_record_tail_json(rv)) + rest
                    =~= spec_record_head_json(rv) + (spec_record_tail_json(rv) + rest));
            }
        }
    }
    let head = match parse_record_head(
        s,
        n,
        i,
        Ghost(
            if w@ is Some {
                Some((rv, spec_record_tail_json(rv) + rest))
            } else {
                None
            },
        ),
    ) {
        Some(p) => p,
        None => {
            return None;
        },
    };
    let tail = match parse_record_rest(
        s,
        n,
        head.1,
        Ghost(
            if w@ is Some {
                Some((rv, rest))
            } else {
                None
            },
        ),
    ) {
        Some(p) => p,
        None => {
            return None;
        },
    };
    let fields = head.0;
    let paths = tail.0;
    let record = DomainConfig {
        domain: fields.0,
        port: fields.1,
        service: fields.2,
        ssl_cert_path: paths.0,
        ssl_key_path: paths.1,
        nginx_config_path: paths.2,
        created_at: paths.3,
        enabled: paths.4,
    };
    proof {
        if w@ is Some {
            assert(record@ =~= rv);
        }
    }
    Some((record, tail.1))
}

/// One entry plus the remaining document, regrouped for scanning.
proof fn lemma_entry_regroup(rs: Seq<DomainConfigView>, k: int)
    requires
        0 <= k < rs.len(),
    ensures
        spec_entry_json(rs[k]) + (spec_rest_json(rs.skip(k + 1)) + "}}"@) == spec_json_string(
            rs[k].domain,
        ) + (":"@ + (spec_record_json(rs[k]) + (spec_rest_json(rs.skip(k + 1)) + "}}"@))),
{
    assert(spec_entry_json(rs[k]) + (spec_rest_json(rs.skip(k + 1)) + "}}"@) =~= spec_json_string(
        rs[k].domain,
    ) + (":"@ + (spec_record_json(rs[k]) + (spec_rest_json(rs.skip(k + 1)) + "}}"@))));
}

/// With entries left, the remaining document begins with a comma and
/// the next entry.
proof fn lemma_rest_nonempty_step(rs: Seq<DomainConfigView>, k: int)
    requires
        0 <= k,
        k + 1 < rs.len(),
    ensures
        spec_rest_json(rs.skip(k + 1)) + "}}"@ == ","@ + (spec_entry_json(rs[k + 1]) + (
        spec_rest_json(rs.skip(k + 2)) + "}}"@)),
{
    let hd = rs.skip(k + 1)[0];
    assert(hd == rs[k + 1]);
    assert(rs.skip(k + 1).drop_first() =~= rs.skip(k + 2));
    assert(spec_rest_json(rs.skip(k + 1)) == ","@ + spec_entry_json(hd) + spec_rest_json(
        rs.skip(k + 2),
    ));
    assert((","@ + spec_entry_json(hd) + spec_rest_json(rs.skip(k + 2))) + "}}"@ =~= ","@ + (
    spec_entry_json(hd) + (spec_rest_json(rs.skip(k + 2)) + "}}"@)));
}

/// With no entries left, only the closing braces remain.
proof fn lemma_rest_empty(rs: Seq<DomainConfigView>, k: int)
    requires
        0 <= k,
        k + 1 == rs.len(),
    ensures
        spec_rest_json(rs.skip(k + 1)) + "}}"@ == "}}"@,
{
    assert(rs.skip(k + 1) =~= Seq::<DomainConfigView>::empty());
    assert(spec_rest_json(rs.skip(k + 1)) =~= Seq::<char>::empty());
    assert(spec_rest_json(rs.skip(k + 1)) + "}}"@ =~= "}}"@);
}

/// With entries left, the remaining document's first character is the
/// separating comma.
proof fn lemma_rest_first_char(rs: Seq<DomainConfigView>, k: int)
    requires
        0 <= k,
        k + 1 < rs.len(),
    ensures
        (spec_rest_json(rs.skip(k + 1)) + "}}"@).len() >= 1,
        (spec_rest_json(rs.skip(k + 1)) + "}}"@)[0] == ',',
{
    reveal_strlit(",");
    lemma_rest_nonempty_step(rs, k);
    let x = spec_entry_json(rs[k + 1]) + (spec_rest_json(rs.skip(k + 2)) + "}}"@);
    assert((","@ + x)[0] == ","@[0]);
}

/// Parses the canonical registry document.  A successful parse
/// returns exactly the registry whose canonical document the input
/// is: the parse is proved complete (every canonical document is
/// accepted, and yields the registry it was rendered from), and a
/// re-emit check inside the function guarantees soundness (whatever
/// is accepted re-renders byte-identically).  Anything else is a
/// corrupt-document error.  Only the canonical byte form this
/// library emits is accepted: reordered or reformatted documents are
/// rejected as corrupt.
#[verifier::rlimit(100)]
pub fn from_document(s: &str) -> (r: Result<ConfigManager>)
    ensures
        r matches Ok(reg) ==> reg.wf() && s@ == spec_registry_json(reg@),
        r matches Err(e) ==> e is Config,
        (exists|rs: Seq<DomainConfigView>|
            unique_domains(rs) && s@ == spec_registry_json(rs)) ==> (r matches Ok(reg) && reg@
            == (choose|rs: Seq<DomainConfigView>|
            unique_domains(rs) && s@ == spec_registry_json(rs))),
{
    let n = s.unicode_len();
    let ghost has_w = exists|rs: Seq<DomainConfigView>|
        unique_domains(rs) && s@ == spec_registry_json(rs);
    let ghost rs0 = if has_w {
        choose|rs: Seq<DomainConfigView>| unique_domains(rs) && s@ == spec_registry_json(rs)
    } else {
        arbitrary()
    };
    let ghost prefix = "{\"domains\":{"@;
    let ghost tail = "}}"@;
    proof {
        if has_w {
            assert(s@ == spec_registry_json(rs0));
            assert(s@.skip(0) =~= s@);
            assert(s@.skip(0) == prefix + (spec_entries_json(rs0) + tail)) by {
                assert(spec_registry_json(rs0) =~= prefix + (spec_entries_json(rs0) + tail));
            }
        }
    }
    let mut registry = ConfigManager::new();
    let mut i: usize = match expect_lit(s, n, 0, "{\"domains\":{") {
        Some(j) => j,
        None => {
            proof {
                if has_w {
                    lemma_skip_concat(s@, 0, prefix, spec_entries_json(rs0) + tail);
                    assert(false);
                }
            }
            return Err(Error::Config("registry document is corrupt".to_owned()));
        },
    };
    proof {
        if has_w {
            lemma_skip_concat(s@, 0, prefix, spec_entries_json(rs0) + tail);
        }
    }
    let ghost pos_open = i;
    let mut is_empty = false;
    match expect_lit(s, n, i, "}}") {
        Some(j) => {
            if j == n {
                proof {
                    if has_w && rs0.len() > 0 {
                        reveal_strlit("}}");
                        let e0 = spec_entries_json(rs0);
                        assert(e0 == spec_entry_json(rs0[0]) + spec_rest_json(rs0.drop_first()));
                        assert(e0.len() > 0 && e0[0] == spec_json_string(rs0[0].domain)[0]) by {
                            assert(spec_entry_json(rs0[0])[0] == ((spec_json_string(rs0[0].domain)
                                + ":"@) + spec_record_json(rs0[0]))[0]);
                            assert(((spec_json_string(rs0[0].domain) + ":"@)
                                + spec_record_json(rs0[0]))[0] == (spec_json_string(rs0[0].domain)
                                + ":"@)[0]);
                            assert((spec_json_string(rs0[0].domain) + ":"@)[0]
                                == spec_json_string(rs0[0].domain)[0]);
                            assert((spec_entry_json(rs0[0]) + spec_rest_json(rs0.drop_first()))[0]
                                == spec_entry_json(rs0[0])[0]);
                        }
                        assert(spec_json_string(rs0[0].domain)[0] == '"');
                        assert(s@.skip(i as int)[0] == (e0 + tail)[0]);
                        assert((e0 + tail)[0] == e0[0]);
                        assert(s@.skip(i as int).subrange(0, 2)[0] == s@.skip(i as int)[0]);
                        assert(false);
                    }
                }
                i = j;
                is_empty = true;
            }
        },
        None => {},
    }
    proof {
        if has_w && rs0.len() == 0 {
            reveal_strlit("}}");
            assert(spec_entries_json(rs0) =~= Seq::<char>::empty());
            assert(s@.skip(pos_open as int) == tail) by {
                assert(spec_entries_json(rs0) + tail =~= tail);
            }
            assert(s@.skip(pos_open as int).len() == n - pos_open);
            assert(n - pos_open == 2);
            assert(s@.skip(pos_open as int).subrange(0, 2) =~= tail);
            assert(is_empty && i == n);
        }
    }
    if !is_empty {
        let ghost mut k: int = 0;
        proof {
            if has_w {
                assert(rs0.len() > 0) by {
                    if rs0.len() == 0 {
                        assert(false);
                    }
                }
                assert(s@.skip(i as int) == spec_entry_json(rs0[0]) + (spec_rest_json(
                    rs0.drop_first(),
                ) + tail)) by {
                    assert(spec_entries_json(rs0) + tail =~= spec_entry_json(rs0[0]) + (
                    spec_rest_json(rs0.drop_first()) + tail));
                }
                assert(rs0.skip(1) =~= rs0.drop_first());
                assert(registry@ =~= rs0.take(0));
            }
        }
        loop
            invariant_except_break
                n == s@.len(),
                i <= n,
                registry.wf(),
                tail == "}}"@,
                has_w == (exists|rs: Seq<DomainConfigView>|
                    unique_domains(rs) && s@ == spec_registry_json(rs)),
                has_w ==> rs0 == (choose|rs: Seq<DomainConfigView>|
                    unique_domains(rs) && s@ == spec_registry_json(rs)),
                has_w ==> unique_domains(rs0),
                has_w ==> {
                    &&& 0 <= k < rs0.len()
                    &&& registry@ == rs0.take(k)
                    &&& s@.skip(i as int) == spec_entry_json(rs0[k]) + (spec_rest_json(
                        rs0.skip(k + 1),
                    ) + tail)
                },
            ensures
                n == s@.len(),
                i <= n,
                registry.wf(),
                has_w ==> registry@ == rs0 && s@.skip(i as int) == tail,
            decreases n - i,
        {
            let ghost entry_domain = rs0[k].domain;
            let ghost entry_tail = ":"@ + (spec_record_json(rs0[k]) + (spec_rest_json(
                rs0.skip(k + 1),
            ) + tail));
            proof {
                if has_w {
                    lemma_entry_regroup(rs0, k);
                }
            }
            let entry = match parse_string(
                s,
                n,
                i,
                Ghost(
                    if has_w {
                        Some((entry_domain, entry_tail))
                    } else {
                        None
                    },
                ),
            ) {
                Some(p) => p,
                None => {
                    return Err(Error::Config("registry document is corrupt".to_owned()));
                },
            };
            i = entry.1;
            let ghost posc = i;
            i = match expect_lit(s, n, i, ":") {
                Some(j) => j,
                None => {
                    proof {
                        if has_w {
                            lemma_skip_concat(
                                s@,
                                posc as int,
                                ":"@,
                                spec_record_json(rs0[k]) + (spec_rest_json(rs0.skip(k + 1))
                                    + tail),
                            );
                            assert(false);
                        }
                    }
                    return Err(Error::Config("registry document is corrupt".to_owned()));
                },
            };
            proof {
                if has_w {
                    lemma_skip_concat(
                        s@,
                        posc as int,
                        ":"@,
                        spec_record_json(rs0[k]) + (spec_rest_json(rs0.skip(k + 1)) + tail),
                    );
                }
            }
            let parsed = match parse_record(
                s,
                n,
                i,
                Ghost(
                    if has_w {
                        Some((rs0[k], spec_rest_json(rs0.skip(k + 1)) + tail))
                    } else {
                        None
                    },
                ),
            ) {
                Some(p) => p,
                None => {
                    return Err(Error::Config("registry document is corrupt".to_owned()));
                },
            };
            i = parsed.1;
            proof {
                if has_w {
                    assert(parsed.0@ == rs0[k]);
                    assert forall|l: int| 0 <= l < rs0.take(k).len() implies rs0.take(
                        k,
                    )[l].domain != parsed.0@.domain by {
                        assert(rs0.take(k)[l] == rs0[l]);
                    }
                    lemma_find_none_if_absent(rs0.take(k), parsed.0@.domain);
                }
            }
            match registry.add_domain(parsed.0) {
                Ok(()) => {},
                Err(_) => {
                    return Err(Error::Config("registry document is corrupt".to_owned()));
                },
            }
            proof {
                if has_w {
                    assert(registry@ =~= rs0.take(k + 1)) by {
                        assert(rs0.take(k + 1) =~= rs0.take(k).push(rs0[k]));
                    }
                }
            }
            if i < n && s.get_char(i) == ',' {
                proof {
                    if has_w {
                        assert(k + 1 < rs0.len()) by {
                            if k + 1 == rs0.len() {
                                lemma_rest_empty(rs0, k);
                                reveal_strlit("}}");
                                assert(s@[i as int] == s@.skip(i as int)[0]);
                                assert(s@[i as int] == '}');
                                assert(false);
                            }
                        }
                        lemma_rest_nonempty_step(rs0, k);
                        lemma_skip_concat(
                            s@,
                            i as int,
                            ","@,
                            spec_entry_json(rs0[k + 1]) + (spec_rest_json(rs0.skip(k + 2))
                                + tail),
                        );
                        reveal_strlit(",");
                        k = k + 1;
                    }
                }
                i = i + 1;
                proof {
                    if has_w {
                        assert(s@.skip(i as int) == spec_entry_json(rs0[k]) + (spec_rest_json(
                            rs0.skip(k + 1),
                        ) + tail));
                    }
                }
            } else {
                proof {
                    if has_w {
                        assert(k + 1 == rs0.len()) by {
                            if k + 1 < rs0.len() {
                                lemma_rest_first_char(rs0, k);
                                assert(i < n);
                                assert(s@[i as int] == s@.skip(i as int)[0]);
                                assert(s@[i as int] == ',');
                                assert(false);
                            }
                        }
                        lemma_rest_empty(rs0, k);
                        assert(registry@ =~= rs0) by {
                            assert(rs0.take(k + 1) =~= rs0);
                        }
                    }
                }
                break;
            }
        }
        let ghost pos_end = i;
        i = match expect_lit(s, n, i, "}}") {
            Some(j) => j,
            None => {
                proof {
                    if has_w {
                        reveal_strlit("}}");
                        assert(s@.skip(pos_end as int).len() == n - pos_end);
                        assert(s@.skip(pos_end as int).subrange(0, 2) =~= tail);
                        assert(false);
                    }
                }
                return Err(Error::Config("registry document is corrupt".to_owned()));
            },
        };
        proof {
            if has_w {
                reveal_strlit("}}");
                assert(s@.skip(pos_end as int).len() == n - pos_end);
                assert(n - pos_end == 2);
                assert(i == n);
            }
        }
    }
    if i != n {
        proof {
            if has_w {
                assert(false);
            }
        }
        return Err(Error::Config("registry document is corrupt".to_owned()));
    }
    let reemitted = to_document(&registry);
    if str_eq(reemitted.as_str(), s) {
        Ok(registry)
    } else {
        proof {
            if has_w {
                if is_empty {
                    assert(registry@ =~= rs0) by {
                        if rs0.len() > 0 {
                            assert(false);
                        }
                    }
                } else {
                    assert(registry@ == rs0);
                }
                assert(reemitted@ == spec_registry_json(rs0));
                assert(false);
            }
        }
        Err(Error::Config("registry document is corrupt".to_owned()))
    }
}

/// The canonical document of an empty registry.
pub fn empty_document() -> (r: String)
    ensures
        r@ == spec_registry_json(Seq::empty()),
{
    let registry = ConfigManager::new();
    to_document(&registry)
}

} // verus!
