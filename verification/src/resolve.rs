//! Reference resolution for secret values.
//!
//! A value may contain references to other secrets, written in one of three
//! forms depending on how much context is repeated:
//!
//! - `${project.env.secret}` points anywhere in the store;
//! - `${env.secret}` points to another environment of the same project;
//! - `${secret}` points to another secret of the same project and environment.
//!
//! References resolve relative to the secret that contains them, nested
//! references relative to the secret they were found in. Resolution is
//! recursive; a reference back into the chain being resolved is a cycle and is
//! reported, as is a reference to a secret that does not exist.

use vstd::prelude::*;
use crate::entries::{SecretsModel, EnvsModel, StoreModel, lookup, lemma_find_key, lemma_lookup_push};
use crate::model::{Store, store_value};
use crate::text::{to_chars, from_chars, push_str, string_eq, string_of, split_chars, split_on, first_index_of, lemma_first_index_of};

verus! {

/// A fully-qualified pointer to a secret: project, environment, key.
pub type Ref = (String, String, String);

/// The model of a [`Ref`].
pub type RefModel = (Seq<char>, Seq<char>, Seq<char>);

/// Why a reference could not be resolved (model).
pub enum RefError {
    /// The text between `${` and `}` is not `secret`, `env.secret` or
    /// `project.env.secret` with non-empty parts.
    Invalid(Seq<char>),
    /// The reference points back into the chain being resolved.
    Circular(RefModel),
    /// The reference points to a secret that does not exist.
    Missing(Seq<char>, RefModel),
}

/// Why a reference could not be resolved.
pub enum ResolveError {
    Invalid(String),
    Circular(String, String, String),
    Missing(String, String, String, String),
}

impl View for ResolveError {
    type V = RefError;

    open spec fn view(&self) -> RefError {
        match self {
            ResolveError::Invalid(i) => RefError::Invalid(i@),
            ResolveError::Circular(p, e, k) => RefError::Circular((p@, e@, k@)),
            ResolveError::Missing(i, p, e, k) => RefError::Missing(i@, (p@, e@, k@)),
        }
    }
}

/// The model of a reference.
pub open spec fn ref_view(r: Ref) -> RefModel {
    (r.0@, r.1@, r.2@)
}

/// The model of a chain of references.
pub open spec fn seen_model(v: Seq<Ref>) -> Seq<RefModel> {
    v.map_values(|x: Ref| ref_view(x))
}

/// The model of a parsed reference.
pub open spec fn parsed_view(r: Result<Ref, ResolveError>) -> Result<RefModel, RefError> {
    match r {
        Ok(x) => Ok(ref_view(x)),
        Err(e) => Err(e@),
    }
}

/// The model of a resolution result.
pub open spec fn result_view(r: Result<String, ResolveError>) -> Result<Seq<char>, RefError> {
    match r {
        Ok(s) => Ok(s@),
        Err(e) => Err(e@),
    }
}

/// The secret that the reference text `inner` names, relative to
/// `project`/`env`.
pub open spec fn parse_ref(project: Seq<char>, env: Seq<char>, inner: Seq<char>) -> Result<RefModel, RefError> {
    let parts = split_on(inner, '.');
    if exists|i: int| 0 <= i < parts.len() && (#[trigger] parts[i]).len() == 0 {
        Err(RefError::Invalid(inner))
    } else if parts.len() == 1 {
        Ok((project, env, parts[0]))
    } else if parts.len() == 2 {
        Ok((project, parts[0], parts[1]))
    } else if parts.len() == 3 {
        Ok((parts[0], parts[1], parts[2]))
    } else {
        Err(RefError::Invalid(inner))
    }
}

/// Every secret of one environment, as references.
pub open spec fn secret_refs(project: Seq<char>, env: Seq<char>, vals: SecretsModel) -> Seq<RefModel> {
    vals.map_values(|x: (Seq<char>, Seq<char>)| (project, env, x.0))
}

/// Every secret of one project, as references.
pub open spec fn env_refs(project: Seq<char>, envs: EnvsModel) -> Seq<RefModel>
    decreases envs.len(),
{
    if envs.len() == 0 {
        Seq::empty()
    } else {
        env_refs(project, envs.drop_last()) + secret_refs(project, envs.last().0, envs.last().1)
    }
}

/// Every secret of the store, as references.
pub open spec fn store_refs(s: StoreModel) -> Seq<RefModel>
    decreases s.len(),
{
    if s.len() == 0 {
        Seq::empty()
    } else {
        store_refs(s.drop_last()) + env_refs(s.last().0, s.last().1.2)
    }
}

/// How many of `refs` are not in `seen`.
pub open spec fn unseen(refs: Seq<RefModel>, seen: Seq<RefModel>) -> nat
    decreases refs.len(),
{
    if refs.len() == 0 {
        0
    } else {
        unseen(refs.drop_last(), seen) + if seen.contains(refs.last()) {
            0nat
        } else {
            1nat
        }
    }
}

pub proof fn lemma_unseen_push(refs: Seq<RefModel>, seen: Seq<RefModel>, r: RefModel)
    ensures
        unseen(refs, seen.push(r)) <= unseen(refs, seen),
        refs.contains(r) && !seen.contains(r) ==> unseen(refs, seen.push(r)) < unseen(refs, seen),
    decreases refs.len(),
{
    if refs.len() > 0 {
        let p = refs.drop_last();
        lemma_unseen_push(p, seen, r);
        assert(seen.contains(refs.last()) ==> seen.push(r).contains(refs.last())) by {
            if seen.contains(refs.last()) {
                let k = choose|k: int| 0 <= k < seen.len() && seen[k] == refs.last();
                assert(seen.push(r)[k] == refs.last());
            }
        }
        if refs.contains(r) && !seen.contains(r) {
            let k = choose|k: int| 0 <= k < refs.len() && refs[k] == r;
            if k < refs.len() - 1 {
                assert(p[k] == r);
            } else {
                assert(seen.push(r)[seen.len() as int] == r);
            }
        }
    }
}

pub proof fn lemma_secret_refs(project: Seq<char>, env: Seq<char>, vals: SecretsModel, k: Seq<char>)
    requires
        lookup(vals, k) is Some,
    ensures
        secret_refs(project, env, vals).contains((project, env, k)),
{
    lemma_find_key(vals, k);
    let i = crate::entries::find_key(vals, k).unwrap();
    assert(secret_refs(project, env, vals)[i] == (project, env, k));
}

pub proof fn lemma_env_refs(project: Seq<char>, envs: EnvsModel, e: Seq<char>, k: Seq<char>)
    requires
        lookup(envs, e) is Some,
        lookup(lookup(envs, e).unwrap(), k) is Some,
    ensures
        env_refs(project, envs).contains((project, e, k)),
    decreases envs.len(),
{
    let p = envs.drop_last();
    assert(p.push(envs.last()) =~= envs);
    lemma_lookup_push(p, e, envs.last());
    let r = (project, e, k);
    if lookup(p, e) is Some {
        lemma_env_refs(project, p, e, k);
        let j = choose|j: int| 0 <= j < env_refs(project, p).len() && env_refs(project, p)[j] == r;
        assert(env_refs(project, envs)[j] == r);
    } else {
        lemma_secret_refs(project, e, envs.last().1, k);
        let s = secret_refs(project, e, envs.last().1);
        let j = choose|j: int| 0 <= j < s.len() && s[j] == r;
        assert(env_refs(project, envs)[env_refs(project, p).len() + j] == r);
    }
}

pub proof fn lemma_store_refs(s: StoreModel, p: Seq<char>, e: Seq<char>, k: Seq<char>)
    requires
        store_value(s, p, e, k) is Some,
    ensures
        store_refs(s).contains((p, e, k)),
    decreases s.len(),
{
    let q = s.drop_last();
    assert(q.push(s.last()) =~= s);
    lemma_lookup_push(q, p, s.last());
    let r = (p, e, k);
    if lookup(q, p) is Some {
        lemma_store_refs(q, p, e, k);
        let j = choose|j: int| 0 <= j < store_refs(q).len() && store_refs(q)[j] == r;
        assert(store_refs(s)[j] == r);
    } else {
        lemma_env_refs(p, s.last().1.2, e, k);
        let t = env_refs(p, s.last().1.2);
        let j = choose|j: int| 0 <= j < t.len() && t[j] == r;
        assert(store_refs(s)[store_refs(q).len() + j] == r);
    }
}

/// `raw` with every reference replaced by the resolved value of the secret
/// it names; `project`/`env` give the context of relative references and
/// `seen` is the chain of secrets being resolved. The first reference that
/// cannot be resolved, from the left, decides the error.
pub open spec fn resolve_text(
    s: StoreModel,
    project: Seq<char>,
    env: Seq<char>,
    raw: Seq<char>,
    seen: Seq<RefModel>,
) -> Result<Seq<char>, RefError>
    decreases unseen(store_refs(s), seen), 1nat, raw.len(),
{
    if raw.len() == 0 {
        Ok(Seq::empty())
    } else {
        let close = if raw.len() >= 2 && raw[0] == '$' && raw[1] == '{' {
            first_index_of(raw.skip(2), '}')
        } else {
            None
        };
        match close {
            Some(end) => {
                proof {
                    lemma_first_index_of(raw.skip(2), '}');
                }
                match resolve_ref(s, project, env, raw.subrange(2, 2 + end), seen) {
                    Ok(v) => match resolve_text(s, project, env, raw.skip(3 + end), seen) {
                        Ok(t) => Ok(v + t),
                        Err(e) => Err(e),
                    },
                    Err(e) => Err(e),
                }
            },
            None => match resolve_text(s, project, env, raw.drop_first(), seen) {
                Ok(t) => Ok(seq![raw[0]] + t),
                Err(e) => Err(e),
            },
        }
    }
}

/// The resolved value of the secret that the reference text `inner` names.
pub open spec fn resolve_ref(
    s: StoreModel,
    project: Seq<char>,
    env: Seq<char>,
    inner: Seq<char>,
    seen: Seq<RefModel>,
) -> Result<Seq<char>, RefError>
    decreases unseen(store_refs(s), seen), 0nat, 0nat,
{
    match parse_ref(project, env, inner) {
        Err(e) => Err(e),
        Ok(r) => if seen.contains(r) {
            Err(RefError::Circular(r))
        } else {
            match store_value(s, r.0, r.1, r.2) {
                None => Err(RefError::Missing(inner, r)),
                Some(t) => {
                    proof {
                        lemma_store_refs(s, r.0, r.1, r.2);
                        lemma_unseen_push(store_refs(s), seen, r);
                    }
                    resolve_text(s, r.0, r.1, t, seen.push(r))
                },
            }
        },
    }
}

/// Resolving `raw` as the value of the secret `origin`.
pub open spec fn resolved(s: StoreModel, origin: RefModel, raw: Seq<char>) -> Result<Seq<char>, RefError> {
    resolve_text(s, origin.0, origin.1, raw, seq![origin])
}

/// Resolving the secret stored at `project/env/key` (an absent secret reads
/// as the empty string).
pub open spec fn resolved_at(s: StoreModel, project: Seq<char>, env: Seq<char>, key: Seq<char>) -> Result<Seq<char>, RefError> {
    let raw = match store_value(s, project, env, key) {
        Some(v) => v,
        None => Seq::empty(),
    };
    resolved(s, (project, env, key), raw)
}

/// `o` followed by the outcome `r`.
pub open spec fn prepend(o: Seq<char>, r: Result<Seq<char>, RefError>) -> Result<Seq<char>, RefError> {
    match r {
        Ok(t) => Ok(o + t),
        Err(e) => Err(e),
    }
}

/// Resolve all references inside `raw`, as the value of the secret `origin`.
pub fn resolve(store: &Store, origin: &Ref, raw: &str) -> (r: Result<String, ResolveError>)
    ensures
        result_view(r) == resolved(store@, (origin.0@, origin.1@, origin.2@), raw@),
{
    let mut seen: Vec<Ref> = Vec::new();
    seen.push((origin.0.clone(), origin.1.clone(), origin.2.clone()));
    assert(seen_model(seen@) =~= seq![(origin.0@, origin.1@, origin.2@)]);
    resolve_inner(store, &origin.0, &origin.1, raw, &mut seen)
}

/// Resolve the value stored at `project/env/key`.
pub fn resolve_at(store: &Store, project: &str, env: &str, key: &str) -> (r: Result<String, ResolveError>)
    ensures
        result_view(r) == resolved_at(store@, project@, env@, key@),
{
    let raw = match store.value(project, env, key) {
        Some(v) => v.clone(),
        None => String::new(),
    };
    let origin: Ref = (project.to_owned(), env.to_owned(), key.to_owned());
    resolve(store, &origin, raw.as_str())
}

/// Whether `r` is one of `seen`.
fn seen_contains(seen: &Vec<Ref>, r: &Ref) -> (b: bool)
    ensures
        b == seen_model(seen@).contains((r.0@, r.1@, r.2@)),
{
    let ghost target = (r.0@, r.1@, r.2@);
    let mut i: usize = 0;
    while i < seen.len()
        invariant
            i <= seen.len(),
            forall|j: int| 0 <= j < i ==> ref_view(#[trigger] seen@[j]) != target,
            target == (r.0@, r.1@, r.2@),
        decreases seen.len() - i,
    {
        let e = &seen[i];
        assert(seen_model(seen@)[i as int] == ref_view(seen@[i as int]));
        if string_eq(e.0.as_str(), r.0.as_str()) && string_eq(e.1.as_str(), r.1.as_str())
            && string_eq(e.2.as_str(), r.2.as_str()) {
            assert(seen_model(seen@)[i as int] == target);
            return true;
        }
        i = i + 1;
    }
    false
}

/// The parts of `inner` split at `.`.
fn split_parts(inner: &str) -> (parts: Vec<String>)
    ensures
        parts@.map_values(|x: String| x@) == split_on(inner@, '.'),
{
    let cs = to_chars(inner);
    let pieces = split_chars(&cs, '.');
    let mut parts: Vec<String> = Vec::new();
    let mut i: usize = 0;
    while i < pieces.len()
        invariant
            i <= pieces.len(),
            parts.len() == i,
            forall|j: int| 0 <= j < i ==> (#[trigger] parts@[j])@ == pieces@[j]@,
        decreases pieces.len() - i,
    {
        let piece = string_of(&pieces[i]);
        parts.push(piece);
        i = i + 1;
    }
    assert(parts@.map_values(|x: String| x@) =~= pieces@.map_values(|p: Vec<char>| p@));
    parts
}

/// The secret named by the reference text `inner`, relative to `cur_project`
/// and `cur_env`.
fn parse_reference(cur_project: &str, cur_env: &str, inner: &str) -> (r: Result<Ref, ResolveError>)
    ensures
        parsed_view(r) == parse_ref(cur_project@, cur_env@, inner@),
{
    let parts = split_parts(inner);
    let ghost ps = split_on(inner@, '.');
    let mut i: usize = 0;
    while i < parts.len()
        invariant
            parts@.map_values(|x: String| x@) == ps,
            ps == split_on(inner@, '.'),
            i <= parts.len(),
            forall|j: int| 0 <= j < i ==> (#[trigger] ps[j]).len() != 0,
        decreases parts.len() - i,
    {
        assert(parts@.map_values(|x: String| x@)[i as int] == parts[i as int]@);
        if parts[i].as_str().is_empty() {
            assert(ps[i as int].len() == 0);
            return Err(ResolveError::Invalid(inner.to_owned()));
        }
        i = i + 1;
    }
    if parts.len() == 1 {
        Ok((cur_project.to_owned(), cur_env.to_owned(), parts[0].clone()))
    } else if parts.len() == 2 {
        Ok((cur_project.to_owned(), parts[0].clone(), parts[1].clone()))
    } else if parts.len() == 3 {
        Ok((parts[0].clone(), parts[1].clone(), parts[2].clone()))
    } else {
        Err(ResolveError::Invalid(inner.to_owned()))
    }
}

/// Resolve references in `raw`; relative references are read against
/// `cur_project`/`cur_env`.
fn resolve_inner(store: &Store, cur_project: &str, cur_env: &str, raw: &str, seen: &mut Vec<Ref>) -> (r: Result<String, ResolveError>)
    ensures
        result_view(r) == resolve_text(store@, cur_project@, cur_env@, raw@, seen_model(old(seen)@)),
        seen_model(final(seen)@) == seen_model(old(seen)@),
    decreases unseen(store_refs(store@), seen_model(old(seen)@)), 1nat, raw@.len(),
{
    let ghost sv = seen_model(seen@);
    let ghost s = store@;
    let cs = to_chars(raw);
    let n = cs.len();
    let mut out = String::new();
    let mut i: usize = 0;
    assert(raw@.skip(0) =~= raw@);
    while i < n
        invariant
            cs@ == raw@,
            n == cs.len(),
            i <= n,
            seen_model(seen@) == sv,
            sv == seen_model(old(seen)@),
            s == store@,
            resolve_text(s, cur_project@, cur_env@, raw@, sv) == prepend(
                out@,
                resolve_text(s, cur_project@, cur_env@, raw@.skip(i as int), sv),
            ),
        decreases n - i,
    {
        let ghost rest = raw@.skip(i as int);
        let mut handled = false;
        if cs[i] == '$' && i + 1 < n && cs[i + 1] == '{' {
            let mut j = i + 2;
            while j < n && cs[j] != '}'
                invariant
                    cs@ == raw@,
                    n == cs.len(),
                    i + 2 <= j <= n,
                    forall|t: int| i + 2 <= t < j ==> cs@[t] != '}',
                decreases n - j,
            {
                j = j + 1;
            }
            if j < n {
                proof {
                    assert(rest.len() >= 2 && rest[0] == '$' && rest[1] == '{');
                    let tail = rest.skip(2);
                    assert(tail =~= raw@.skip(i + 2));
                    lemma_first_index_of(tail, '}');
                    let fi = first_index_of(tail, '}');
                    if fi is None {
                        assert(tail[j - (i + 2)] == '}');
                    } else {
                        let f = fi.unwrap();
                        if f < j - (i + 2) {
                            assert(tail[f] == cs@[i + 2 + f]);
                        }
                        if f > j - (i + 2) {
                            assert(tail[j - (i + 2)] == '}');
                        }
                    }
                    assert(first_index_of(tail, '}') == Some((j - (i + 2)) as int));
                    assert(rest.subrange(2, 2 + (j - (i + 2))) =~= raw@.subrange(i + 2, j as int));
                    assert(rest.skip(3 + (j - (i + 2))) =~= raw@.skip(j + 1));
                }
                let inner = from_chars(&cs, i + 2, j);
                let resolved = resolve_reference(store, cur_project, cur_env, inner.as_str(), seen);
                match resolved {
                    Ok(v) => {
                        let ghost o = out@;
                        push_str(&mut out, v.as_str());
                        proof {
                            let after = resolve_text(s, cur_project@, cur_env@, raw@.skip(j + 1), sv);
                            match after {
                                Ok(t) => {
                                    assert(o + (v@ + t) =~= (o + v@) + t);
                                }
                                Err(_) => {}
                            }
                        }
                        i = j + 1;
                        handled = true;
                    }
                    Err(e) => {
                        return Err(e);
                    }
                }
            }
        }
        if !handled {
            proof {
                if rest.len() >= 2 && rest[0] == '$' && rest[1] == '{' {
                    let tail = rest.skip(2);
                    lemma_first_index_of(tail, '}');
                    if first_index_of(tail, '}') is Some {
                        let f = first_index_of(tail, '}').unwrap();
                        assert(tail[f] == cs@[i + 2 + f]);
                    }
                }
                assert(rest.drop_first() =~= raw@.skip(i + 1));
                let after = resolve_text(s, cur_project@, cur_env@, raw@.skip(i + 1), sv);
                match after {
                    Ok(t) => {
                        assert(out@.push(cs@[i as int]) + t =~= out@ + (seq![rest[0]] + t));
                    }
                    Err(_) => {}
                }
            }
            out.push(cs[i]);
            i = i + 1;
        }
    }
    proof {
        assert(raw@.skip(n as int) =~= Seq::<char>::empty());
        assert(out@ + Seq::<char>::empty() =~= out@);
    }
    Ok(out)
}

/// Resolve one reference `inner` found in a value that lives at
/// `cur_project`/`cur_env`.
fn resolve_reference(store: &Store, cur_project: &str, cur_env: &str, inner: &str, seen: &mut Vec<Ref>) -> (r: Result<String, ResolveError>)
    ensures
        result_view(r) == resolve_ref(store@, cur_project@, cur_env@, inner@, seen_model(old(seen)@)),
        seen_model(final(seen)@) == seen_model(old(seen)@),
    decreases unseen(store_refs(store@), seen_model(old(seen)@)), 0nat, 0nat,
{
    let key_ref = parse_reference(cur_project, cur_env, inner)?;
    if seen_contains(seen, &key_ref) {
        return Err(ResolveError::Circular(key_ref.0, key_ref.1, key_ref.2));
    }
    let target = match store.value(&key_ref.0, &key_ref.1, &key_ref.2) {
        Some(v) => v.clone(),
        None => {
            return Err(ResolveError::Missing(inner.to_owned(), key_ref.0, key_ref.1, key_ref.2));
        }
    };
    let ghost sv = seen_model(seen@);
    let ghost rm = (key_ref.0@, key_ref.1@, key_ref.2@);
    proof {
        lemma_store_refs(store@, rm.0, rm.1, rm.2);
        lemma_unseen_push(store_refs(store@), sv, rm);
    }
    seen.push((key_ref.0.clone(), key_ref.1.clone(), key_ref.2.clone()));
    assert(seen_model(seen@) =~= sv.push(rm));
    let resolved = resolve_inner(store, &key_ref.0, &key_ref.1, target.as_str(), seen);
    let ghost before_pop = seen@;
    assert(seen_model(before_pop).len() == before_pop.len());
    assert(seen_model(before_pop) == sv.push(rm));
    seen.pop();
    assert(seen@ =~= before_pop.drop_last());
    assert forall|j: int| 0 <= j < sv.len() implies #[trigger] seen_model(seen@)[j] == sv[j] by {
        assert(seen_model(seen@)[j] == ref_view(seen@[j]));
        assert(seen@[j] == before_pop[j]);
        assert(seen_model(before_pop)[j] == sv.push(rm)[j]);
    }
    assert(seen_model(seen@) =~= sv);
    resolved
}


/// The length in bytes of the UTF-8 character that a byte starts: one below
/// `0x80`, two for `110xxxxx`, three for `1110xxxx`, four otherwise.
pub open spec fn char_len_from_lead(b: u8) -> nat {
    if b < 0x80 {
        1
    } else if b >> 5u8 == 6u8 {
        2
    } else if b >> 4u8 == 14u8 {
        3
    } else {
        4
    }
}

/// Length in bytes of the UTF-8 character starting at `first_byte`.
pub fn utf8_char_len(first_byte: u8) -> (n: usize)
    ensures
        n == char_len_from_lead(first_byte),
{
    if first_byte < 0x80 {
        1
    } else if first_byte >> 5u8 == 6u8 {
        2
    } else if first_byte >> 4u8 == 14u8 {
        3
    } else {
        4
    }
}

/// Law: the first byte of a character's UTF-8 encoding tells its length.
pub proof fn law_utf8_char_len(c: char)
    ensures
        char_len_from_lead(vstd::utf8::encode_scalar(c as u32)[0]) == vstd::utf8::encode_scalar(c as u32).len(),
{
    vstd::utf8::char_is_scalar(c);
    let v = c as u32;
    if v <= 0x7F {
        assert((v & 0x7F) as u8 == v as u8) by (bit_vector)
            requires
                v <= 0x7F,
        ;
    } else if v <= 0x7FF {
        let b: u8 = 0xC0 | ((v >> 6u32) & 0x1F) as u8;
        assert(b >= 0x80 && b >> 5u8 == 6u8) by (bit_vector)
            requires
                b == 0xC0 | ((v >> 6u32) & 0x1F) as u8,
        ;
    } else if v <= 0xFFFF {
        let b: u8 = 0xE0 | ((v >> 12u32) & 0x0F) as u8;
        assert(b >= 0x80 && b >> 5u8 != 6u8 && b >> 4u8 == 14u8) by (bit_vector)
            requires
                b == 0xE0 | ((v >> 12u32) & 0x0F) as u8,
        ;
    } else {
        let b: u8 = 0xF0 | ((v >> 18u32) & 0x7) as u8;
        assert(b >= 0x80 && b >> 5u8 != 6u8 && b >> 4u8 != 14u8) by (bit_vector)
            requires
                b == 0xF0 | ((v >> 18u32) & 0x7) as u8,
        ;
    }
}


// --- laws of resolution -----------------------------------------------------

/// Text without `$` resolves to itself, whatever the context.
pub proof fn law_plain_text_unchanged(
    s: StoreModel,
    project: Seq<char>,
    env: Seq<char>,
    raw: Seq<char>,
    seen: Seq<RefModel>,
)
    requires
        forall|i: int| 0 <= i < raw.len() ==> #[trigger] raw[i] != '$',
    ensures
        resolve_text(s, project, env, raw, seen) == Ok::<Seq<char>, RefError>(raw),
    decreases raw.len(),
{
    if raw.len() > 0 {
        let rest = raw.drop_first();
        assert forall|i: int| 0 <= i < rest.len() implies #[trigger] rest[i] != '$' by {
            assert(rest[i] == raw[i + 1]);
        }
        law_plain_text_unchanged(s, project, env, rest, seen);
        assert(raw[0] != '$');
        assert(seq![raw[0]] + rest =~= raw);
    } else {
        assert(raw =~= Seq::<char>::empty());
    }
}

/// No `${` in `raw` is closed by a later `}`.
pub open spec fn no_closed_reference(raw: Seq<char>) -> bool {
    forall|i: int, j: int|
        #![trigger raw[i], raw[j]]
        0 <= i && i + 1 < raw.len() && raw[i] == '$' && raw[i + 1] == '{' && i + 2 <= j < raw.len() ==> raw[j] != '}'
}

/// Law: text in which no `${` is closed by a later `}` resolves to itself,
/// character for character, whatever the context (an unterminated `${` and
/// any other characters included).
pub proof fn law_unclosed_text_unchanged(
    s: StoreModel,
    project: Seq<char>,
    env: Seq<char>,
    raw: Seq<char>,
    seen: Seq<RefModel>,
)
    requires
        no_closed_reference(raw),
    ensures
        resolve_text(s, project, env, raw, seen) == Ok::<Seq<char>, RefError>(raw),
    decreases raw.len(),
{
    if raw.len() > 0 {
        let rest = raw.drop_first();
        assert forall|i: int, j: int|
            #![trigger rest[i], rest[j]]
            0 <= i && i + 1 < rest.len() && rest[i] == '$' && rest[i + 1] == '{' && i + 2 <= j < rest.len() implies rest[j]
                != '}' by {
            assert(rest[i] == raw[i + 1] && rest[i + 1] == raw[i + 2] && rest[j] == raw[j + 1]);
        }
        law_unclosed_text_unchanged(s, project, env, rest, seen);
        if raw.len() >= 2 && raw[0] == '$' && raw[1] == '{' {
            let t = raw.skip(2);
            lemma_first_index_of(t, '}');
            if first_index_of(t, '}') is Some {
                let k = first_index_of(t, '}').unwrap();
                assert(t[k] == raw[k + 2]);
                assert(raw[0] == '$' && raw[1] == '{');
                assert(raw[k + 2] != '}');
            }
        }
        assert(seq![raw[0]] + rest =~= raw);
    } else {
        assert(raw =~= Seq::<char>::empty());
    }
}

/// The secret a reference names, from the parts of its text: `key`,
/// `env.key` or `project.env.key`, relative to `project`/`env`.
pub open spec fn ref_target(project: Seq<char>, env: Seq<char>, parts: Seq<Seq<char>>) -> RefModel {
    if parts.len() == 1 {
        (project, env, parts[0])
    } else if parts.len() == 2 {
        (project, parts[0], parts[1])
    } else {
        (parts[0], parts[1], parts[2])
    }
}

/// Law: resolving a reference `inner` checks, in this order, that its parts
/// (split at `.`) are one to three non-empty names, that the secret they name
/// is not already being resolved, and that it exists; it then gives that
/// secret's value, itself resolved relative to the secret's own project and
/// environment.
pub proof fn law_reference_resolution(
    s: StoreModel,
    project: Seq<char>,
    env: Seq<char>,
    inner: Seq<char>,
    seen: Seq<RefModel>,
)
    ensures
        ({
            let parts = split_on(inner, '.');
            let target = ref_target(project, env, parts);
            let r = resolve_ref(s, project, env, inner, seen);
            &&& ((exists|i: int| 0 <= i < parts.len() && (#[trigger] parts[i]).len() == 0) || parts.len() > 3)
                ==> r == Err::<Seq<char>, RefError>(RefError::Invalid(inner))
            &&& ((forall|i: int| 0 <= i < parts.len() ==> (#[trigger] parts[i]).len() > 0) && parts.len() <= 3) ==> {
                &&& seen.contains(target) ==> r == Err::<Seq<char>, RefError>(RefError::Circular(target))
                &&& !seen.contains(target) && store_value(s, target.0, target.1, target.2) is None
                    ==> r == Err::<Seq<char>, RefError>(RefError::Missing(inner, target))
                &&& !seen.contains(target) && store_value(s, target.0, target.1, target.2) is Some ==> r
                    == resolve_text(
                    s,
                    target.0,
                    target.1,
                    store_value(s, target.0, target.1, target.2).unwrap(),
                    seen.push(target),
                )
            }
        }),
{
    let parts = split_on(inner, '.');
    crate::text::lemma_split_on_len(inner, '.');
    if (forall|i: int| 0 <= i < parts.len() ==> (#[trigger] parts[i]).len() > 0) && parts.len() <= 3 {
        assert(!exists|i: int| 0 <= i < parts.len() && (#[trigger] parts[i]).len() == 0);
    }
}

/// A name that can stand between the dots of a reference: not empty, with
/// no `.` and no `}`.
pub open spec fn ref_part(x: Seq<char>) -> bool {
    &&& x.len() > 0
    &&& forall|i: int| 0 <= i < x.len() ==> #[trigger] x[i] != '.' && x[i] != '}'
}

/// The text of a reference around `inner`: `${inner}`.
pub open spec fn braced(inner: Seq<char>) -> Seq<char> {
    seq!['$', '{'] + inner + seq!['}']
}

/// The inner text of a fully-qualified reference: `project.env.key`.
pub open spec fn qualified(r: RefModel) -> Seq<char> {
    r.0 + seq!['.'] + r.1 + seq!['.'] + r.2
}

proof fn lemma_split_single(x: Seq<char>)
    requires
        forall|i: int| 0 <= i < x.len() ==> #[trigger] x[i] != '.',
    ensures
        split_on(x, '.') == seq![x],
    decreases x.len(),
{
    if x.len() > 0 {
        let p = x.drop_last();
        assert forall|i: int| 0 <= i < p.len() implies #[trigger] p[i] != '.' by {
            assert(p[i] == x[i]);
        }
        lemma_split_single(p);
        assert(x.last() == x[x.len() - 1]);
        assert(p.push(x.last()) =~= x);
    } else {
        assert(x =~= Seq::<char>::empty());
        assert(split_on(x, '.') =~= seq![x]);
    }
}

proof fn lemma_split_after(a: Seq<char>, b: Seq<char>)
    requires
        forall|i: int| 0 <= i < b.len() ==> #[trigger] b[i] != '.',
    ensures
        split_on(a + seq!['.'] + b, '.') == split_on(a, '.').push(b),
{
    let ad = a + seq!['.'];
    assert(ad.drop_last() =~= a);
    assert(ad.last() == '.');
    crate::text::lemma_split_on_len(ad, '.');
    crate::envfile::lemma_split_on_append(ad, b, '.');
    let pd = split_on(ad, '.');
    assert(pd == split_on(a, '.').push(Seq::<char>::empty()));
    assert(Seq::<char>::empty() + b =~= b);
    assert(pd.update(pd.len() - 1, pd.last() + b) =~= split_on(a, '.').push(b));
}

proof fn lemma_no_close(x: Seq<char>)
    requires
        forall|i: int| 0 <= i < x.len() ==> #[trigger] x[i] != '}',
    ensures
        first_index_of(x + seq!['}'], '}') == Some(x.len() as int),
{
    let y = x + seq!['}'];
    lemma_first_index_of(y, '}');
    assert(y[x.len() as int] == '}');
    let f = first_index_of(y, '}');
    if f is Some && f.unwrap() < x.len() {
        assert(y[f.unwrap()] == x[f.unwrap()]);
    }
}

/// A text made of one reference resolves to what the reference does.
proof fn lemma_braced(s: StoreModel, project: Seq<char>, env: Seq<char>, inner: Seq<char>, seen: Seq<RefModel>)
    requires
        forall|i: int| 0 <= i < inner.len() ==> #[trigger] inner[i] != '}',
    ensures
        resolve_text(s, project, env, braced(inner), seen) == resolve_ref(s, project, env, inner, seen),
{
    let raw = braced(inner);
    assert(raw.len() >= 2 && raw[0] == '$' && raw[1] == '{');
    assert(raw.skip(2) =~= inner + seq!['}']);
    lemma_no_close(inner);
    assert(raw.subrange(2, 2 + inner.len() as int) =~= inner);
    assert(raw.skip(3 + inner.len() as int) =~= Seq::<char>::empty());
    assert(resolve_text(s, project, env, Seq::<char>::empty(), seen) == Ok::<Seq<char>, RefError>(Seq::empty()));
    match resolve_ref(s, project, env, inner, seen) {
        Ok(v) => {
            assert(v + Seq::<char>::empty() =~= v);
        },
        Err(_) => {},
    }
}

/// Law: resolution goes on after a reference. For text `t1 + ${r} + t2`,
/// where `t1` holds no `${` and `r` no `}`, the result is `t1`, then the value
/// `r` resolves to, then the resolution of `t2` in the same context; when `r`
/// does not resolve, its error is the result.
pub proof fn law_reference_then_rest(
    s: StoreModel,
    project: Seq<char>,
    env: Seq<char>,
    t1: Seq<char>,
    r: Seq<char>,
    t2: Seq<char>,
    seen: Seq<RefModel>,
)
    requires
        forall|i: int| 0 <= i && i + 1 < t1.len() ==> !(#[trigger] t1[i] == '$' && t1[i + 1] == '{'),
        forall|i: int| 0 <= i < r.len() ==> #[trigger] r[i] != '}',
    ensures
        resolve_text(s, project, env, t1 + braced(r) + t2, seen) == match resolve_ref(s, project, env, r, seen) {
            Ok(v) => prepend(t1 + v, resolve_text(s, project, env, t2, seen)),
            Err(e) => Err(e),
        },
    decreases t1.len(),
{
    let raw = t1 + braced(r) + t2;
    if t1.len() == 0 {
        assert(raw =~= braced(r) + t2);
        assert(raw[0] == '$' && raw[1] == '{');
        lemma_no_close(r);
        assert(raw.skip(2) =~= (r + seq!['}']) + t2);
        lemma_first_index_of(raw.skip(2), '}');
        lemma_first_index_of(r + seq!['}'], '}');
        assert((r + seq!['}'])[r.len() as int] == '}');
        let f = first_index_of(raw.skip(2), '}');
        if f is Some && f.unwrap() < r.len() {
            assert(raw.skip(2)[f.unwrap()] == r[f.unwrap()]);
        }
        assert(raw.skip(2)[r.len() as int] == '}');
        assert(f == Some(r.len() as int));
        assert(raw.subrange(2, 2 + r.len() as int) =~= r);
        assert(raw.skip(3 + r.len() as int) =~= t2);
        match resolve_ref(s, project, env, r, seen) {
            Ok(v) => {
                assert(t1 + v =~= v);
            },
            Err(_) => {},
        }
    } else {
        let rest = t1.drop_first();
        assert forall|i: int| 0 <= i && i + 1 < rest.len() implies !(#[trigger] rest[i] == '$' && rest[i + 1] == '{') by {
            assert(rest[i] == t1[i + 1] && rest[i + 1] == t1[i + 2]);
        }
        law_reference_then_rest(s, project, env, rest, r, t2, seen);
        assert(raw[0] == t1[0]);
        if t1.len() >= 2 {
            assert(raw[1] == t1[1]);
            assert(!(t1[0] == '$' && t1[1] == '{'));
        } else {
            assert(raw[1] == '$');
        }
        assert(raw.drop_first() =~= rest + braced(r) + t2);
        match resolve_ref(s, project, env, r, seen) {
            Ok(v) => {
                match resolve_text(s, project, env, t2, seen) {
                    Ok(t) => {
                        assert(seq![t1[0]] + (rest + v + t) =~= t1 + v + t);
                    },
                    Err(_) => {},
                }
            },
            Err(_) => {},
        }
    }
}

/// Law: every reference in a value is resolved, not only the first: text
/// `t1 ${r1} t2 ${r2} t3`, with no `$` in the `t`s and references that
/// resolve to `v1` and `v2`, resolves to `t1 v1 t2 v2 t3`.
pub proof fn law_all_references_resolved(
    s: StoreModel,
    project: Seq<char>,
    env: Seq<char>,
    t1: Seq<char>,
    r1: Seq<char>,
    t2: Seq<char>,
    r2: Seq<char>,
    t3: Seq<char>,
    seen: Seq<RefModel>,
    v1: Seq<char>,
    v2: Seq<char>,
)
    requires
        forall|i: int| 0 <= i < t1.len() ==> #[trigger] t1[i] != '$',
        forall|i: int| 0 <= i < t2.len() ==> #[trigger] t2[i] != '$',
        forall|i: int| 0 <= i < t3.len() ==> #[trigger] t3[i] != '$',
        forall|i: int| 0 <= i < r1.len() ==> #[trigger] r1[i] != '}',
        forall|i: int| 0 <= i < r2.len() ==> #[trigger] r2[i] != '}',
        resolve_ref(s, project, env, r1, seen) == Ok::<Seq<char>, RefError>(v1),
        resolve_ref(s, project, env, r2, seen) == Ok::<Seq<char>, RefError>(v2),
    ensures
        resolve_text(s, project, env, t1 + braced(r1) + t2 + braced(r2) + t3, seen) == Ok::<Seq<char>, RefError>(
            t1 + v1 + t2 + v2 + t3,
        ),
{
    let tail = t2 + braced(r2) + t3;
    assert(t1 + braced(r1) + t2 + braced(r2) + t3 =~= t1 + braced(r1) + tail);
    law_reference_then_rest(s, project, env, t1, r1, tail, seen);
    law_reference_then_rest(s, project, env, t2, r2, t3, seen);
    law_plain_text_unchanged(s, project, env, t3, seen);
    assert(t1 + v1 + (t2 + v2 + t3) =~= t1 + v1 + t2 + v2 + t3);
}

/// Law: a fully-qualified reference `${project.env.key}` to a secret whose
/// value holds no `$` resolves to that value; to a secret that does not
/// exist it is an error naming it; to the secret being resolved it is a
/// cycle.
pub proof fn law_qualified_reference(s: StoreModel, origin: RefModel, target: RefModel)
    requires
        ref_part(target.0),
        ref_part(target.1),
        ref_part(target.2),
    ensures
        target == origin ==> resolved(s, origin, braced(qualified(target))) == Err::<Seq<char>, RefError>(
            RefError::Circular(target),
        ),
        target != origin && store_value(s, target.0, target.1, target.2) is None ==> resolved(
            s,
            origin,
            braced(qualified(target)),
        ) == Err::<Seq<char>, RefError>(RefError::Missing(qualified(target), target)),
        forall|v: Seq<char>|
            target != origin && store_value(s, target.0, target.1, target.2) == Some(v) && (forall|i: int|
                0 <= i < v.len() ==> #[trigger] v[i] != '$') ==> #[trigger] resolved(
                s,
                origin,
                braced(qualified(target)),
            ) == Ok::<Seq<char>, RefError>(v),
{
    let inner = qualified(target);
    assert forall|i: int| 0 <= i < inner.len() implies #[trigger] inner[i] != '}' by {
        let a = target.0.len();
        let b = target.1.len();
        if i < a {
            assert(inner[i] == target.0[i]);
        } else if i == a {
        } else if i < a + 1 + b {
            assert(inner[i] == target.1[i - a - 1]);
        } else if i == a + 1 + b {
        } else {
            assert(inner[i] == target.2[i - a - 2 - b]);
        }
    }
    lemma_braced(s, origin.0, origin.1, inner, seq![origin]);
    lemma_split_single(target.0);
    lemma_split_after(target.0, target.1);
    lemma_split_after(target.0 + seq!['.'] + target.1, target.2);
    let parts = split_on(inner, '.');
    assert(parts =~= seq![target.0, target.1, target.2]);
    assert(parse_ref(origin.0, origin.1, inner) == Ok::<RefModel, RefError>(target));
    assert(seq![origin].contains(target) <==> target == origin) by {
        if target == origin {
            assert(seq![origin][0] == target);
        }
    }
    if target != origin {
        if let Some(v) = store_value(s, target.0, target.1, target.2) {
            if forall|i: int| 0 <= i < v.len() ==> #[trigger] v[i] != '$' {
                law_plain_text_unchanged(s, target.0, target.1, v, seq![origin].push(target));
            }
        }
    }
}

/// Law: a reference `${key}` back to the secret that holds it is a cycle.
pub proof fn law_self_reference_is_cycle(s: StoreModel, project: Seq<char>, env: Seq<char>, key: Seq<char>)
    requires
        ref_part(key),
        store_value(s, project, env, key) == Some(braced(key)),
    ensures
        resolved_at(s, project, env, key) == Err::<Seq<char>, RefError>(RefError::Circular((project, env, key))),
{
    lemma_braced(s, project, env, key, seq![(project, env, key)]);
    lemma_split_single(key);
    assert(seq![(project, env, key)][0] == (project, env, key));
}

} // verus!
