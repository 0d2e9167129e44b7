//! Secret types: a secret may be declared a number or JSON, and then only
//! values of that type are accepted for it. Each environment records the
//! declared type of its keys; a key without a record is plain text.

use vstd::prelude::*;
use crate::entries::{SecretsModel, lookup, insert_entry, remove_key};
use crate::collections::{secret_entries, secrets_get, secrets_insert, secrets_remove};
use crate::model::Environment;
use crate::errors::{CmdError, CmdErr};
use crate::text::{to_chars, string_eq, push_str};

verus! {

/// The declared type of a secret.
#[derive(PartialEq, Eq, Structural, Clone, Copy, Debug)]
pub enum SecretKind {
    Text,
    Number,
    Json,
}

/// The name under which a type is recorded and shown.
pub open spec fn kind_label(k: SecretKind) -> Seq<char> {
    match k {
        SecretKind::Text => "text"@,
        SecretKind::Number => "number"@,
        SecretKind::Json => "json"@,
    }
}

/// The type a recorded name stands for; anything unknown is text.
pub open spec fn kind_from_label(l: Seq<char>) -> SecretKind {
    if l == "number"@ {
        SecretKind::Number
    } else if l == "json"@ {
        SecretKind::Json
    } else {
        SecretKind::Text
    }
}

/// The type recorded for `key`, text when none is.
pub open spec fn recorded_kind(kinds: SecretsModel, key: Seq<char>) -> SecretKind {
    match lookup(kinds, key) {
        Some(l) => kind_from_label(l),
        None => SecretKind::Text,
    }
}

/// The records after `key` is declared of type `k`: text needs no record.
pub open spec fn kinds_after(kinds: SecretsModel, key: Seq<char>, k: SecretKind) -> SecretsModel {
    if k == SecretKind::Text {
        remove_key(kinds, key)
    } else {
        insert_entry(kinds, key, kind_label(k))
    }
}

/// The declared type of each key of an environment.
pub open spec fn kinds_of(e: Environment) -> SecretsModel {
    secret_entries(e.kinds)
}

// --- numbers ----------------------------------------------------------------

pub open spec fn is_digit(c: char) -> bool {
    '0' <= c && c <= '9'
}

/// One step of the recogniser of decimal numbers. States: 0 start, 1 after a
/// sign, 2 integer digits, 3 a point after digits, 4 a point before any
/// digit, 5 fraction digits, 6 an exponent mark, 7 the exponent's sign,
/// 8 exponent digits, 9 rejected.
pub open spec fn number_step(state: int, c: char) -> int {
    let d = is_digit(c);
    let sign = c == '+' || c == '-';
    let e = c == 'e' || c == 'E';
    if state == 0 {
        if d { 2 } else if sign { 1 } else if c == '.' { 4 } else { 9 }
    } else if state == 1 {
        if d { 2 } else if c == '.' { 4 } else { 9 }
    } else if state == 2 {
        if d { 2 } else if c == '.' { 3 } else if e { 6 } else { 9 }
    } else if state == 3 {
        if d { 5 } else if e { 6 } else { 9 }
    } else if state == 4 {
        if d { 5 } else { 9 }
    } else if state == 5 {
        if d { 5 } else if e { 6 } else { 9 }
    } else if state == 6 {
        if d { 8 } else if sign { 7 } else { 9 }
    } else if state == 7 {
        if d { 8 } else { 9 }
    } else if state == 8 {
        if d { 8 } else { 9 }
    } else {
        9
    }
}

/// The recogniser's state after reading `s`.
pub open spec fn number_state(s: Seq<char>) -> int
    decreases s.len(),
{
    if s.len() == 0 {
        0
    } else {
        number_step(number_state(s.drop_last()), s.last())
    }
}

/// Whether `s` is a decimal number: an optional sign, digits with an optional
/// fraction (`12`, `12.`, `12.5`, `.5`), and an optional exponent (`e`
/// or `E`, an optional sign, digits). No spaces.
pub open spec fn is_number(s: Seq<char>) -> bool {
    let q = number_state(s);
    q == 2 || q == 3 || q == 5 || q == 8
}

fn number_step_exec(state: u8, c: char) -> (r: u8)
    requires
        state <= 9,
    ensures
        r as int == number_step(state as int, c),
        r <= 9,
{
    let d = '0' <= c && c <= '9';
    let sign = c == '+' || c == '-';
    let e = c == 'e' || c == 'E';
    if state == 0 {
        if d { 2 } else if sign { 1 } else if c == '.' { 4 } else { 9 }
    } else if state == 1 {
        if d { 2 } else if c == '.' { 4 } else { 9 }
    } else if state == 2 {
        if d { 2 } else if c == '.' { 3 } else if e { 6 } else { 9 }
    } else if state == 3 {
        if d { 5 } else if e { 6 } else { 9 }
    } else if state == 4 {
        if d { 5 } else { 9 }
    } else if state == 5 {
        if d { 5 } else if e { 6 } else { 9 }
    } else if state == 6 {
        if d { 8 } else if sign { 7 } else { 9 }
    } else if state == 7 {
        if d { 8 } else { 9 }
    } else if state == 8 {
        if d { 8 } else { 9 }
    } else {
        9
    }
}

/// Whether `value` is a decimal number.
pub fn parses_as_number(value: &str) -> (b: bool)
    ensures
        b == is_number(value@),
{
    let cs = to_chars(value);
    let mut state: u8 = 0;
    let mut i: usize = 0;
    while i < cs.len()
        invariant
            i <= cs.len(),
            cs@ == value@,
            state <= 9,
            state as int == number_state(cs@.take(i as int)),
        decreases cs.len() - i,
    {
        assert(cs@.take(i + 1).drop_last() =~= cs@.take(i as int));
        assert(cs@.take(i + 1).last() == cs@[i as int]);
        state = number_step_exec(state, cs[i]);
        i = i + 1;
    }
    assert(cs@.take(cs.len() as int) =~= cs@);
    state == 2 || state == 3 || state == 5 || state == 8
}

// --- JSON -------------------------------------------------------------------

/// Whether `serde_json` reads `text` as one JSON value.
pub uninterp spec fn json_valid(text: Seq<char>) -> bool;

/// `serde_json::from_str::<serde_json::Value>`: whether the text is one JSON
/// value (surrounding whitespace allowed). The answer depends on the text
/// alone.
#[verifier::external_body]
fn parses_as_json(text: &str) -> (b: bool)
    ensures
        b == json_valid(text@),
{
    serde_json::from_str::<serde_json::Value>(text).is_ok()
}

// --- validation -------------------------------------------------------------

/// Whether `value` is acceptable for a secret of type `k`.
pub open spec fn fits(k: SecretKind, value: Seq<char>) -> bool {
    match k {
        SecretKind::Text => true,
        SecretKind::Number => is_number(value),
        SecretKind::Json => json_valid(value),
    }
}

/// The error for a value that does not fit type `k`.
pub open spec fn misfit(k: SecretKind, value: Seq<char>) -> CmdErr {
    match k {
        SecretKind::Json => CmdErr::NotJson(value),
        _ => CmdErr::NotANumber(value),
    }
}

impl SecretKind {
    /// The name of the type.
    pub fn label(&self) -> (l: &'static str)
        ensures
            l@ == kind_label(*self),
    {
        match self {
            SecretKind::Text => "text",
            SecretKind::Number => "number",
            SecretKind::Json => "json",
        }
    }

    /// Accept `value` when it fits the type, else say why not.
    pub fn validate(&self, value: &str) -> (r: Result<(), CmdError>)
        ensures
            r is Ok <==> fits(*self, value@),
            r matches Err(e) ==> e@ == misfit(*self, value@),
    {
        match self {
            SecretKind::Text => Ok(()),
            SecretKind::Number => {
                if parses_as_number(value) {
                    Ok(())
                } else {
                    Err(CmdError::NotANumber(value.to_owned()))
                }
            },
            SecretKind::Json => {
                if parses_as_json(value) {
                    Ok(())
                } else {
                    Err(CmdError::NotJson(value.to_owned()))
                }
            },
        }
    }
}

impl Environment {
    /// The declared type of `key`: text unless recorded otherwise.
    pub fn kind(&self, key: &str) -> (k: SecretKind)
        ensures
            k == recorded_kind(kinds_of(*self), key@),
    {
        match secrets_get(&self.kinds, key) {
            Some(l) => {
                if string_eq(l.as_str(), "number") {
                    SecretKind::Number
                } else if string_eq(l.as_str(), "json") {
                    SecretKind::Json
                } else {
                    SecretKind::Text
                }
            },
            None => SecretKind::Text,
        }
    }

    /// Record the type of `key`; the values stay as they are.
    pub fn set_kind(&mut self, key: String, kind: SecretKind)
        ensures
            final(self)@ == old(self)@,
            kinds_of(*final(self)) == kinds_after(kinds_of(*old(self)), key@, kind),
    {
        match kind {
            SecretKind::Text => {
                secrets_remove(&mut self.kinds, key.as_str());
            },
            _ => {
                let mut l = String::new();
                push_str(&mut l, kind.label());
                secrets_insert(&mut self.kinds, key, l);
            },
        }
    }
}

impl Environment {
    /// Delete the secret `key` together with its type record; answers whether
    /// there was such a secret. When there was none, nothing changes.
    pub fn remove_secret(&mut self, key: &str) -> (r: bool)
        ensures
            r == (lookup(old(self)@, key@) is Some),
            r ==> final(self)@ == remove_key(old(self)@, key@)
                && kinds_of(*final(self)) == remove_key(kinds_of(*old(self)), key@),
            !r ==> final(self)@ == old(self)@ && kinds_of(*final(self)) == kinds_of(*old(self)),
    {
        if secrets_remove(&mut self.values, key).is_none() {
            proof {
                crate::entries::lemma_remove_key(old(self)@, key@);
                crate::entries::lemma_find_key(old(self)@, key@);
            }
            return false;
        }
        secrets_remove(&mut self.kinds, key);
        true
    }
}

/// The type a `set` uses: the one given, else the one recorded for the key.
pub open spec fn used_kind(kinds: SecretsModel, key: Seq<char>, kind: Option<SecretKind>) -> SecretKind {
    match kind {
        Some(k) => k,
        None => recorded_kind(kinds, key),
    }
}

/// Set `key` to `value` in an environment when the value fits the type given
/// (or, when none is given, the type recorded for the key), and record that
/// type. Returns the type used, and whether the value was accepted; a value
/// that does not fit leaves the environment unchanged.
pub fn set_typed(env: &mut Environment, key: String, value: String, kind: Option<SecretKind>) -> (r: (SecretKind, Result<(), CmdError>))
    ensures
        r.0 == used_kind(kinds_of(*old(env)), key@, kind),
        fits(r.0, value@) ==> r.1 is Ok && final(env)@ == insert_entry(old(env)@, key@, value@)
            && kinds_of(*final(env)) == kinds_after(kinds_of(*old(env)), key@, r.0),
        !fits(r.0, value@) ==> (r.1 matches Err(e) && e@ == misfit(r.0, value@)) && final(env)@ == old(env)@
            && kinds_of(*final(env)) == kinds_of(*old(env)),
{
    let k = match kind {
        Some(k) => k,
        None => env.kind(key.as_str()),
    };
    match k.validate(value.as_str()) {
        Ok(()) => {},
        Err(e) => {
            return (k, Err(e));
        },
    }
    let ghost mid = *env;
    let k2 = key.clone();
    secrets_insert(&mut env.values, key, value);
    assert(kinds_of(*env) == kinds_of(mid));
    env.set_kind(k2, k);
    (k, Ok(()))
}

} // verus!
