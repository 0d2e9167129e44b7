//! Parsing and serialising `.env` files.
//!
//! The parser is forgiving: it understands `KEY=VALUE`, blank lines, `#`
//! comments, an optional `export ` prefix, and single or double quoted
//! values. The serialiser quotes values only when needed.

use vstd::prelude::*;
use indexmap::IndexMap;
use crate::entries::{SecretsModel, insert_entry, unique_keys, find_key, lemma_find_key};
use crate::collections::{secret_entries, secrets_new, secrets_insert, secrets_len, secrets_get_index};
use crate::text::{
    is_ws, is_whitespace, to_chars, split_chars, split_on, trim, trim_chars, string_of, push_str,
    first_index_of, lemma_first_index_of, trim_start, trim_end, lemma_trim_start_skip, lemma_trim_end_take,
};

verus! {

/// The prefix that an exported assignment may carry.
pub open spec fn export_prefix() -> Seq<char> {
    seq!['e', 'x', 'p', 'o', 'r', 't', ' ']
}

/// Whether `s` begins with `p`.
pub open spec fn starts_with(s: Seq<char>, p: Seq<char>) -> bool {
    p.len() <= s.len() && s.take(p.len() as int) == p
}

/// The escapes a double-quoted value understands, read left to right:
/// `\\` is a backslash, `\n` a newline and `\"` a quote; any other backslash
/// stands for itself.
pub open spec fn unescape(s: Seq<char>) -> Seq<char>
    decreases s.len(),
{
    if s.len() == 0 {
        s
    } else if s.len() >= 2 && s[0] == '\\' && (s[1] == 'n' || s[1] == '"' || s[1] == '\\') {
        seq![if s[1] == 'n' { '\n' } else { s[1] }] + unescape(s.skip(2))
    } else {
        seq![s[0]] + unescape(s.drop_first())
    }
}

/// A value with its surrounding quotes removed; double-quoted values are
/// unescaped, single-quoted ones are taken literally.
pub open spec fn unquote(v: Seq<char>) -> Seq<char> {
    if v.len() >= 2 && ((v[0] == '"' && v.last() == '"') || (v[0] == '\'' && v.last() == '\'')) {
        let inner = v.subrange(1, v.len() - 1);
        if v[0] == '"' {
            unescape(inner)
        } else {
            inner
        }
    } else {
        v
    }
}

/// The key and value that one line assigns, if any.
pub open spec fn parse_line(line: Seq<char>) -> Option<(Seq<char>, Seq<char>)> {
    let t = trim(line);
    if t.len() == 0 || t[0] == '#' {
        None
    } else {
        let u = if starts_with(t, export_prefix()) {
            t.skip(7)
        } else {
            t
        };
        match first_index_of(u, '=') {
            None => None,
            Some(i) => {
                let key = trim(u.take(i));
                if key.len() == 0 {
                    None
                } else {
                    Some((key, unquote(trim(u.skip(i + 1)))))
                }
            },
        }
    }
}

/// The entries that a sequence of lines assigns; a later line for the same
/// key replaces the value and keeps the key's first position.
pub open spec fn parse_lines(lines: Seq<Seq<char>>) -> SecretsModel
    decreases lines.len(),
{
    if lines.len() == 0 {
        Seq::empty()
    } else {
        let acc = parse_lines(lines.drop_last());
        match parse_line(lines.last()) {
            Some(kv) => insert_entry(acc, kv.0, kv.1),
            None => acc,
        }
    }
}

/// The entries of a `.env` text. Lines are split at `\n`; a `\r` before it
/// is whitespace and trimmed away like the rest.
pub open spec fn parsed(text: Seq<char>) -> SecretsModel {
    parse_lines(split_on(text, '\n'))
}

/// Whether a value must be written in double quotes.
pub open spec fn needs_quotes(v: Seq<char>) -> bool {
    v.len() == 0 || exists|i: int|
        0 <= i < v.len() && (is_ws(#[trigger] v[i]) || v[i] == '#' || v[i] == '"' || v[i] == '\'')
}

/// The escape of one character inside double quotes.
pub open spec fn escape_char(c: char) -> Seq<char> {
    if c == '\\' {
        seq!['\\', '\\']
    } else if c == '"' {
        seq!['\\', '"']
    } else if c == '\n' {
        seq!['\\', 'n']
    } else {
        seq![c]
    }
}

/// A value escaped for double quotes: backslash, quote and newline.
pub open spec fn escape(v: Seq<char>) -> Seq<char>
    decreases v.len(),
{
    if v.len() == 0 {
        v
    } else {
        escape_char(v[0]) + escape(v.drop_first())
    }
}

/// How a value is written: as is, or double-quoted and escaped when it is
/// empty or holds whitespace, `#` or a quote.
pub open spec fn quote(v: Seq<char>) -> Seq<char> {
    if needs_quotes(v) {
        seq!['"'] + escape(v) + seq!['"']
    } else {
        v
    }
}

/// One `KEY=VALUE` line, with its newline.
pub open spec fn line_of(e: (Seq<char>, Seq<char>)) -> Seq<char> {
    e.0 + seq!['='] + quote(e.1) + seq!['\n']
}

/// The `.env` text of a sequence of entries: one line per entry, in order.
pub open spec fn serialized(es: SecretsModel) -> Seq<char>
    decreases es.len(),
{
    if es.len() == 0 {
        Seq::empty()
    } else {
        serialized(es.drop_last()) + line_of(es.last())
    }
}

/// Parse `.env` text into an ordered map of key/value pairs.
pub fn parse(text: &str) -> (m: IndexMap<String, String>)
    ensures
        secret_entries(m) == parsed(text@),
{
    let cs = to_chars(text);
    let lines = split_chars(&cs, '\n');
    let ghost ls = lines@.map_values(|p: Vec<char>| p@);
    let mut map = secrets_new();
    let mut i: usize = 0;
    while i < lines.len()
        invariant
            i <= lines.len(),
            ls == lines@.map_values(|p: Vec<char>| p@),
            ls == split_on(text@, '\n'),
            secret_entries(map) == parse_lines(ls.take(i as int)),
        decreases lines.len() - i,
    {
        assert(ls.take(i + 1).drop_last() =~= ls.take(i as int));
        assert(ls.take(i + 1).last() == lines@[i as int]@);
        match parse_line_chars(&lines[i]) {
            Some((k, v)) => {
                secrets_insert(&mut map, k, v);
            }
            None => {}
        }
        i = i + 1;
    }
    assert(ls.take(lines.len() as int) =~= ls);
    map
}

/// The key and value that one line assigns.
fn parse_line_chars(line: &Vec<char>) -> (r: Option<(String, String)>)
    ensures
        match r {
            Some(kv) => parse_line(line@) == Some((kv.0@, kv.1@)),
            None => parse_line(line@) is None,
        },
{
    let t = trim_chars(line);
    if t.len() == 0 || t[0] == '#' {
        return None;
    }
    let is_export = t.len() >= 7 && t[0] == 'e' && t[1] == 'x' && t[2] == 'p' && t[3] == 'o' && t[4] == 'r'
        && t[5] == 't' && t[6] == ' ';
    proof {
        if is_export {
            assert(t@.take(7) =~= export_prefix());
        }
        if t@.len() >= 7 && t@.take(7) == export_prefix() {
            assert(t@[0] == t@.take(7)[0]);
            assert(t@[1] == t@.take(7)[1]);
            assert(t@[2] == t@.take(7)[2]);
            assert(t@[3] == t@.take(7)[3]);
            assert(t@[4] == t@.take(7)[4]);
            assert(t@[5] == t@.take(7)[5]);
            assert(t@[6] == t@.take(7)[6]);
        }
    }
    let start: usize = if is_export { 7 } else { 0 };
    let ghost u = t@.skip(start as int);
    assert(is_export == starts_with(t@, export_prefix()));
    assert(t@.skip(0) =~= t@);
    assert(u == (if starts_with(t@, export_prefix()) { t@.skip(7) } else { t@ }));
    let mut j = start;
    while j < t.len() && t[j] != '='
        invariant
            start <= j <= t.len(),
            forall|x: int| start <= x < j ==> t@[x] != '=',
        decreases t.len() - j,
    {
        j = j + 1;
    }
    proof {
        lemma_first_index_of(u, '=');
    }
    if j == t.len() {
        proof {
            if first_index_of(u, '=') is Some {
                let f = first_index_of(u, '=').unwrap();
                assert(u[f] == t@[start + f]);
            }
        }
        return None;
    }
    proof {
        let f = first_index_of(u, '=');
        assert(u[j - start] == '=');
        if f is Some && f.unwrap() < j - start {
            assert(u[f.unwrap()] == t@[start + f.unwrap()]);
        }
        assert(first_index_of(u, '=') == Some((j - start) as int));
    }
    let mut key_raw: Vec<char> = Vec::new();
    let mut x = start;
    while x < j
        invariant
            start <= x <= j < t.len(),
            key_raw@ == t@.subrange(start as int, x as int),
        decreases j - x,
    {
        key_raw.push(t[x]);
        x = x + 1;
        assert(key_raw@ =~= t@.subrange(start as int, x as int));
    }
    assert(key_raw@ =~= u.take((j - start) as int));
    let key = trim_chars(&key_raw);
    if key.len() == 0 {
        return None;
    }
    let mut val_raw: Vec<char> = Vec::new();
    let mut y = j + 1;
    while y < t.len()
        invariant
            j < y <= t.len(),
            val_raw@ == t@.subrange(j + 1, y as int),
        decreases t.len() - y,
    {
        val_raw.push(t[y]);
        y = y + 1;
        assert(val_raw@ =~= t@.subrange(j + 1, y as int));
    }
    assert(val_raw@ =~= u.skip((j - start) + 1));
    let val = trim_chars(&val_raw);
    let value = unquote_chars(&val);
    Some((string_of(&key), string_of(&value)))
}

/// The escapes of a double-quoted value undone.
fn unescape_chars(s: &Vec<char>) -> (out: Vec<char>)
    ensures
        out@ == unescape(s@),
{
    let n = s.len();
    let mut out: Vec<char> = Vec::new();
    let mut i: usize = 0;
    assert(s@.skip(0) =~= s@);
    while i < n
        invariant
            i <= n == s.len(),
            unescape(s@) == out@ + unescape(s@.skip(i as int)),
        decreases n - i,
    {
        let ghost rest = s@.skip(i as int);
        if i + 1 < n && s[i] == '\\' && (s[i + 1] == 'n' || s[i + 1] == '"' || s[i + 1] == '\\') {
            let d = if s[i + 1] == 'n' { '\n' } else { s[i + 1] };
            assert(rest[0] == s@[i as int] && rest[1] == s@[i + 1]);
            assert(rest.skip(2) =~= s@.skip(i + 2));
            assert(out@.push(d) + unescape(s@.skip(i + 2)) =~= out@ + (seq![d] + unescape(rest.skip(2))));
            out.push(d);
            i = i + 2;
        } else {
            proof {
                assert(rest[0] == s@[i as int]);
                if rest.len() >= 2 {
                    assert(rest[1] == s@[i + 1]);
                }
            }
            assert(rest.drop_first() =~= s@.skip(i + 1));
            assert(out@.push(s@[i as int]) + unescape(s@.skip(i + 1)) =~= out@ + (seq![rest[0]] + unescape(rest.drop_first())));
            out.push(s[i]);
            i = i + 1;
        }
    }
    assert(s@.skip(n as int) =~= Seq::<char>::empty());
    assert(out@ + Seq::<char>::empty() =~= out@);
    out
}

/// A value with its surrounding quotes removed.
fn unquote_chars(v: &Vec<char>) -> (out: Vec<char>)
    ensures
        out@ == unquote(v@),
{
    let n = v.len();
    if n >= 2 {
        let first = v[0];
        let last = v[n - 1];
        if (first == '"' && last == '"') || (first == '\'' && last == '\'') {
            let mut inner: Vec<char> = Vec::new();
            let mut i: usize = 1;
            while i < n - 1
                invariant
                    1 <= i <= n - 1,
                    n == v.len(),
                    inner@ == v@.subrange(1, i as int),
                decreases n - 1 - i,
            {
                inner.push(v[i]);
                i = i + 1;
                assert(inner@ =~= v@.subrange(1, i as int));
            }
            if first == '"' {
                return unescape_chars(&inner);
            }
            return inner;
        }
    }
    let mut out: Vec<char> = Vec::new();
    let mut i: usize = 0;
    while i < n
        invariant
            i <= n == v.len(),
            out@ == v@.take(i as int),
        decreases n - i,
    {
        out.push(v[i]);
        i = i + 1;
        assert(out@ =~= v@.take(i as int));
    }
    assert(v@.take(n as int) =~= v@);
    out
}

/// How `value` is written in a `.env` file.
pub fn quote_str(value: &str) -> (out: String)
    ensures
        out@ == quote(value@),
{
    let cs = to_chars(value);
    let n = cs.len();
    let mut needs = n == 0;
    let mut i: usize = 0;
    while i < n
        invariant
            i <= n == cs.len(),
            cs@ == value@,
            needs == (n == 0 || exists|j: int|
                0 <= j < i && (is_ws(#[trigger] cs@[j]) || cs@[j] == '#' || cs@[j] == '"' || cs@[j] == '\'')),
        decreases n - i,
    {
        let c = cs[i];
        if is_whitespace(c) || c == '#' || c == '"' || c == '\'' {
            needs = true;
        }
        i = i + 1;
    }
    if !needs {
        return string_of(&cs);
    }
    let mut out = String::new();
    out.push('"');
    let mut k: usize = 0;
    assert(cs@.skip(0) =~= cs@);
    while k < n
        invariant
            k <= n == cs.len(),
            cs@ == value@,
            seq!['"'] + escape(cs@) == out@ + escape(cs@.skip(k as int)),
        decreases n - k,
    {
        let c = cs[k];
        let ghost rest = cs@.skip(k as int);
        let ghost o = out@;
        assert(rest[0] == c);
        assert(rest.drop_first() =~= cs@.skip(k + 1));
        if c == '\\' {
            out.push('\\');
            out.push('\\');
        } else if c == '"' {
            out.push('\\');
            out.push('"');
        } else if c == '\n' {
            out.push('\\');
            out.push('n');
        } else {
            out.push(c);
        }
        assert(out@ =~= o + escape_char(c));
        assert(o + escape(rest) =~= (o + escape_char(c)) + escape(cs@.skip(k + 1)));
        k = k + 1;
    }
    assert(cs@.skip(n as int) =~= Seq::<char>::empty());
    out.push('"');
    assert(out@ =~= seq!['"'] + escape(cs@) + seq!['"']);
    out
}

/// Serialise key/value pairs into `.env` text, one `KEY=VALUE` line each.
///
/// No key occurs twice in a map, and for valid keys (see [`valid_key`]) the
/// text parses back to the same entries in the same order, whatever the
/// values.
pub fn serialize(values: &IndexMap<String, String>) -> (out: String)
    ensures
        out@ == serialized(secret_entries(*values)),
        unique_keys(secret_entries(*values)),
        (forall|i: int| 0 <= i < secret_entries(*values).len() ==> valid_key((#[trigger] secret_entries(*values)[i]).0))
            ==> parsed(out@) == secret_entries(*values),
{
    let ghost es = secret_entries(*values);
    let n = secrets_len(values);
    let mut out = String::new();
    let mut i: usize = 0;
    while i < n
        invariant
            i <= n == es.len(),
            es == secret_entries(*values),
            out@ == serialized(es.take(i as int)),
            forall|a: int, b: int| 0 <= a < b < es.len() && a < i ==> (#[trigger] es[a]).0 != (#[trigger] es[b]).0,
        decreases n - i,
    {
        let (k, v) = secrets_get_index(values, i).unwrap();
        assert forall|a: int, b: int| 0 <= a < b < es.len() && a < i + 1 implies (#[trigger] es[a]).0 != (#[trigger] es[b]).0 by {
            if a == i {
                assert(es[b].0 != k@);
            }
        }
        let ghost o = out@;
        push_str(&mut out, k.as_str());
        out.push('=');
        let q = quote_str(v.as_str());
        push_str(&mut out, q.as_str());
        out.push('\n');
        assert(es.take(i + 1).drop_last() =~= es.take(i as int));
        assert(es.take(i + 1).last() == es[i as int]);
        assert(out@ =~= o + line_of(es[i as int]));
        i = i + 1;
    }
    assert(es.take(n as int) =~= es);
    proof {
        if forall|i: int| 0 <= i < es.len() ==> valid_key((#[trigger] es[i]).0) {
            law_serialize_then_parse(es);
        }
    }
    out
}


// --- the round trip ---------------------------------------------------------

/// A key that survives being written and read back: non-empty, without
/// leading or trailing whitespace, without `=` or a newline, and starting
/// neither a comment nor an `export ` prefix.
pub open spec fn valid_key(k: Seq<char>) -> bool {
    &&& k.len() > 0
    &&& trim(k) == k
    &&& k[0] != '#'
    &&& !starts_with(k, export_prefix())
    &&& forall|i: int| 0 <= i < k.len() ==> #[trigger] k[i] != '=' && k[i] != '\n'
}

/// Entries that `.env` text carries exactly: valid keys, no key twice, and
/// any values at all.
pub open spec fn writable(es: SecretsModel) -> bool {
    &&& unique_keys(es)
    &&& forall|i: int| 0 <= i < es.len() ==> valid_key((#[trigger] es[i]).0)
}

/// One line without its newline.
pub open spec fn body_of(e: (Seq<char>, Seq<char>)) -> Seq<char> {
    e.0 + seq!['='] + quote(e.1)
}

/// The lines of a serialisation.
pub open spec fn bodies(es: SecretsModel) -> Seq<Seq<char>> {
    es.map_values(|e: (Seq<char>, Seq<char>)| body_of(e))
}

proof fn lemma_trim_parts_len(s: Seq<char>)
    ensures
        trim_start(s).len() <= s.len(),
        trim_end(s).len() <= s.len(),
    decreases s.len(),
{
    if s.len() > 0 {
        lemma_trim_parts_len(s.drop_first());
        lemma_trim_parts_len(s.drop_last());
    }
}

/// A non-empty trimmed text begins and ends with something other than
/// whitespace.
proof fn lemma_trimmed_ends(k: Seq<char>)
    requires
        k.len() > 0,
        trim(k) == k,
    ensures
        !is_ws(k[0]),
        !is_ws(k.last()),
{
    if is_ws(k[0]) {
        lemma_trim_parts_len(k.drop_first());
        lemma_trim_parts_len(trim_start(k));
        assert(false);
    }
    assert(trim_start(k) == k);
    if is_ws(k.last()) {
        lemma_trim_parts_len(k.drop_last());
        assert(false);
    }
}

/// Undoing the escapes of an escaped value gives the value back.
proof fn lemma_unescape_escape(v: Seq<char>)
    ensures
        unescape(escape(v)) == v,
    decreases v.len(),
{
    if v.len() > 0 {
        let c = v[0];
        let rest = v.drop_first();
        lemma_unescape_escape(rest);
        let e = escape(rest);
        let s = escape_char(c) + e;
        assert(escape(v) == s);
        if c == '\\' || c == '"' || c == '\n' {
            assert(s[0] == '\\');
            assert(s.skip(2) =~= e);
            if c == '\\' {
                assert(s[1] == '\\');
            } else if c == '"' {
                assert(s[1] == '"');
            } else {
                assert(s[1] == 'n');
            }
            assert(unescape(s) == seq![c] + unescape(e));
        } else {
            assert(s[0] == c);
            assert(s.drop_first() =~= e);
            assert(unescape(s) == seq![c] + unescape(e));
        }
        assert(seq![c] + rest =~= v);
    }
}

proof fn lemma_escape_no_newline(v: Seq<char>)
    ensures
        forall|i: int| 0 <= i < escape(v).len() ==> #[trigger] escape(v)[i] != '\n',
    decreases v.len(),
{
    if v.len() > 0 {
        lemma_escape_no_newline(v.drop_first());
        let a = escape_char(v[0]);
        let b = escape(v.drop_first());
        assert forall|i: int| 0 <= i < escape(v).len() implies #[trigger] escape(v)[i] != '\n' by {
            if i < a.len() {
                assert(escape(v)[i] == a[i]);
            } else {
                assert(escape(v)[i] == b[i - a.len()]);
            }
        }
    }
}

proof fn lemma_trim_noop(s: Seq<char>)
    requires
        s.len() > 0,
        !is_ws(s[0]),
        !is_ws(s.last()),
    ensures
        trim(s) == s,
{
    lemma_trim_start_skip(s, 0);
    assert(s.skip(0) =~= s);
    lemma_trim_end_take(s, s.len() as int);
    assert(s.take(s.len() as int) =~= s);
}

/// What a written value reads back as.
proof fn lemma_quote_roundtrip(v: Seq<char>)
    ensures
        quote(v).len() > 0,
        !is_ws(quote(v)[0]),
        !is_ws(quote(v).last()),
        trim(quote(v)) == quote(v),
        unquote(quote(v)) == v,
        forall|i: int| 0 <= i < quote(v).len() ==> #[trigger] quote(v)[i] != '\n',
{
    let q = quote(v);
    if needs_quotes(v) {
        let e = escape(v);
        assert(q[0] == '"');
        assert(q.last() == '"');
        lemma_trim_noop(q);
        assert(q.subrange(1, q.len() - 1) =~= e);
        lemma_unescape_escape(v);
        lemma_escape_no_newline(v);
        assert forall|i: int| 0 <= i < q.len() implies #[trigger] q[i] != '\n' by {
            if 0 < i < q.len() - 1 {
                assert(q[i] == e[i - 1]);
            }
        }
    } else {
        assert(v.len() > 0);
        assert(!is_ws(v[0]) && v[0] != '"' && v[0] != '\'');
        assert(!is_ws(v[v.len() - 1]));
        lemma_trim_noop(v);
        assert forall|i: int| 0 <= i < q.len() implies #[trigger] q[i] != '\n' by {
            assert(!is_ws(v[i]));
        }
    }
}

/// Law: a written value never holds a newline, so each entry takes exactly
/// one line; and reading the written value back gives the value itself.
pub proof fn law_quote_roundtrip(v: Seq<char>)
    ensures
        forall|i: int| 0 <= i < quote(v).len() ==> #[trigger] quote(v)[i] != '\n',
        unquote(trim(quote(v))) == v,
{
    lemma_quote_roundtrip(v);
}

/// A written line reads back as the entry it was written from.
proof fn lemma_parse_body(k: Seq<char>, v: Seq<char>)
    requires
        valid_key(k),
    ensures
        parse_line(body_of((k, v))) == Some((k, v)),
{
    let q = quote(v);
    let t = k + seq!['='] + q;
    assert(body_of((k, v)) == t);
    lemma_quote_roundtrip(v);
    lemma_trimmed_ends(k);
    assert(t[0] == k[0]);
    assert(t.last() == q.last());
    lemma_trim_noop(t);
    assert(t.len() > 0 && t[0] != '#');
    if starts_with(t, export_prefix()) {
        if k.len() >= 7 {
            assert(t.take(7) =~= k.take(7));
        } else {
            assert(t.take(7)[k.len() as int] == t[k.len() as int]);
            assert(t[k.len() as int] == '=');
        }
    }
    assert(!starts_with(t, export_prefix()));
    lemma_first_index_of(t, '=');
    assert(t[k.len() as int] == '=');
    let f = first_index_of(t, '=');
    if f is Some && f.unwrap() < k.len() {
        assert(t[f.unwrap()] == k[f.unwrap()]);
    }
    assert(f == Some(k.len() as int));
    assert(t.take(k.len() as int) =~= k);
    assert(t.skip(k.len() + 1int) =~= q);
}

pub proof fn lemma_split_on_append(p: Seq<char>, q: Seq<char>, sep: char)
    requires
        forall|i: int| 0 <= i < q.len() ==> #[trigger] q[i] != sep,
    ensures
        split_on(p + q, sep) == split_on(p, sep).update(
            split_on(p, sep).len() - 1,
            split_on(p, sep).last() + q,
        ),
    decreases q.len(),
{
    crate::text::lemma_split_on_len(p, sep);
    if q.len() == 0 {
        assert(p + q =~= p);
        assert(split_on(p, sep).last() + q =~= split_on(p, sep).last());
        assert(split_on(p, sep).update(split_on(p, sep).len() - 1, split_on(p, sep).last()) =~= split_on(p, sep));
    } else {
        let q0 = q.drop_last();
        assert forall|i: int| 0 <= i < q0.len() implies #[trigger] q0[i] != sep by {
            assert(q0[i] == q[i]);
        }
        lemma_split_on_append(p, q0, sep);
        let pq = p + q;
        assert(pq.drop_last() =~= p + q0);
        assert(pq.last() == q.last());
        assert(q.last() == q[q.len() - 1]);
        assert(pq.last() != sep);
        let parts = split_on(pq.drop_last(), sep);
        crate::text::lemma_split_on_len(pq.drop_last(), sep);
        assert(split_on(pq, sep) == parts.update(parts.len() - 1, parts.last().push(pq.last())));
        let pp = split_on(p, sep);
        assert(parts == pp.update(pp.len() - 1, pp.last() + q0));
        assert(parts.len() == pp.len());
        assert(parts.last() == pp.last() + q0);
        assert((pp.last() + q0).push(q.last()) =~= pp.last() + q);
        assert(split_on(p, sep).last() + q0 + seq![q.last()] =~= split_on(p, sep).last() + q);
        assert(split_on(p + q, sep) =~= split_on(p, sep).update(
            split_on(p, sep).len() - 1,
            split_on(p, sep).last() + q,
        ));
    }
}

proof fn lemma_split_serialized(es: SecretsModel)
    requires
        writable(es),
    ensures
        split_on(serialized(es), '\n') == bodies(es).push(Seq::<char>::empty()),
    decreases es.len(),
{
    if es.len() == 0 {
        assert(split_on(serialized(es), '\n') =~= bodies(es).push(Seq::<char>::empty()));
    } else {
        let d = es.drop_last();
        assert forall|i: int| 0 <= i < d.len() implies valid_key((#[trigger] d[i]).0) by {
            assert(d[i] == es[i]);
        }
        assert forall|i: int, j: int| 0 <= i < j < d.len() implies (#[trigger] d[i]).0 != (#[trigger] d[j]).0 by {
            assert(d[i] == es[i] && d[j] == es[j]);
        }
        lemma_split_serialized(d);
        let e = es.last();
        assert(es[es.len() - 1] == e);
        let b = body_of(e);
        lemma_quote_roundtrip(e.1);
        assert forall|i: int| 0 <= i < b.len() implies #[trigger] b[i] != '\n' by {
            let q = quote(e.1);
            if i < e.0.len() {
                assert(b[i] == e.0[i]);
            } else if i > e.0.len() {
                assert(b[i] == q[i - e.0.len() - 1]);
            }
        }
        let sd = serialized(d);
        lemma_split_on_append(sd, b, '\n');
        assert(serialized(es) == sd + b + seq!['\n']);
        assert((sd + b + seq!['\n']).drop_last() =~= sd + b);
        assert(split_on(sd, '\n').last() == Seq::<char>::empty());
        assert(Seq::<char>::empty() + b =~= b);
        assert(bodies(es) =~= bodies(d).push(b));
        assert(split_on(serialized(es), '\n') =~= bodies(es).push(Seq::<char>::empty()));
    }
}

proof fn lemma_parse_bodies(es: SecretsModel)
    requires
        writable(es),
    ensures
        parse_lines(bodies(es)) == es,
    decreases es.len(),
{
    if es.len() > 0 {
        let d = es.drop_last();
        assert forall|i: int| 0 <= i < d.len() implies valid_key((#[trigger] d[i]).0) by {
            assert(d[i] == es[i]);
        }
        assert forall|i: int, j: int| 0 <= i < j < d.len() implies (#[trigger] d[i]).0 != (#[trigger] d[j]).0 by {
            assert(d[i] == es[i] && d[j] == es[j]);
        }
        lemma_parse_bodies(d);
        let e = es.last();
        assert(es[es.len() - 1] == e);
        lemma_parse_body(e.0, e.1);
        assert(bodies(es).drop_last() =~= bodies(d));
        assert(bodies(es).last() == body_of(e));
        lemma_find_key(d, e.0);
        if find_key(d, e.0) is Some {
            let i = find_key(d, e.0).unwrap();
            assert(d[i] == es[i]);
            assert(es[i].0 == es[es.len() - 1].0);
        }
        assert(d.push(e) =~= es);
    }
}

/// Law: serialising entries and parsing the text back gives the same entries
/// in the same order. Values may be any text (quotes, backslashes, newlines,
/// JSON); keys must be valid (see `valid_key`) and occur once.
pub proof fn law_serialize_then_parse(es: SecretsModel)
    requires
        writable(es),
    ensures
        parsed(serialized(es)) == es,
{
    lemma_split_serialized(es);
    lemma_parse_bodies(es);
    let ls = bodies(es);
    assert(ls.push(Seq::<char>::empty()).drop_last() =~= ls);
    assert(trim_start(Seq::<char>::empty()) == Seq::<char>::empty());
    assert(trim_end(Seq::<char>::empty()) == Seq::<char>::empty());
}

} // verus!
