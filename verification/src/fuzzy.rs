//! A small fuzzy matcher used to filter lists.
//!
//! [`score`] gives `None` when `query` is not a case-insensitive (ASCII)
//! subsequence of `text`, otherwise a score (higher is better) together with
//! the positions in `text` that were matched, taken greedily from the left.

use vstd::prelude::*;
use crate::text::to_chars;

verus! {

/// `c` with ASCII upper-case letters lowered, as `char::to_ascii_lowercase`.
pub open spec fn lower(c: char) -> char {
    if 'A' <= c && c <= 'Z' {
        ((c as int) + 32) as char
    } else {
        c
    }
}

/// ASCII lower-casing of one character.
pub fn to_lower(c: char) -> (r: char)
    ensures
        r == lower(c),
{
    if 'A' <= c && c <= 'Z' {
        let b: u8 = (c as u8) + 32;
        b as char
    } else {
        c
    }
}

/// Characters after which a match counts as a word start.
pub open spec fn is_separator(c: char) -> bool {
    c == '_' || c == '-' || c == '.' || c == '/' || c == ' '
}

/// The first position at or after `from` whose character matches `q`,
/// ignoring ASCII case.
pub open spec fn match_from(text: Seq<char>, q: char, from: int) -> Option<int>
    decreases text.len() - from,
{
    if from < 0 || from >= text.len() {
        None
    } else if lower(text[from]) == lower(q) {
        Some(from)
    } else {
        match_from(text, q, from + 1)
    }
}

/// The positions matched by `query`, each the first match after the previous.
pub open spec fn positions(text: Seq<char>, query: Seq<char>, from: int) -> Option<Seq<int>>
    decreases query.len(),
{
    if query.len() == 0 {
        Some(Seq::empty())
    } else {
        match match_from(text, query[0], from) {
            None => None,
            Some(p) => match positions(text, query.drop_first(), p + 1) {
                None => None,
                Some(rest) => Some(seq![p] + rest),
            },
        }
    }
}

/// The score of one match at `pos`, given the previous match.
pub open spec fn step_score(text: Seq<char>, pos: int, prev: Option<int>) -> int {
    (if pos == 0 {
        15int
    } else {
        0int
    }) + (if pos > 0 && is_separator(text[pos - 1]) {
        10int
    } else {
        0int
    }) + match prev {
        Some(p) => if p + 1 == pos {
            10int
        } else {
            -(if pos - p - 1 < 10 {
                pos - p - 1
            } else {
                10
            })
        },
        None => -(if pos < 10 {
            pos
        } else {
            10
        }),
    }
}

/// The summed score of a run of matches.
pub open spec fn run_score(text: Seq<char>, ps: Seq<int>, prev: Option<int>) -> int
    decreases ps.len(),
{
    if ps.len() == 0 {
        0
    } else {
        run_score(text, ps.drop_last(), prev) + step_score(
            text,
            ps.last(),
            if ps.len() == 1 {
                prev
            } else {
                Some(ps[ps.len() - 2])
            },
        )
    }
}

/// The score and matched positions of `query` against `text`. An empty query
/// matches everything with a neutral score and no positions; shorter texts
/// rank slightly higher.
pub open spec fn fuzzy(query: Seq<char>, text: Seq<char>) -> Option<(int, Seq<int>)> {
    if query.len() == 0 {
        Some((0, Seq::empty()))
    } else {
        match positions(text, query, 0) {
            None => None,
            Some(ps) => Some((run_score(text, ps, None) - text.len() / 20, ps)),
        }
    }
}

/// The positions of a result, as integers.
pub open spec fn positions_view(v: Seq<usize>) -> Seq<int> {
    v.map_values(|x: usize| x as int)
}

/// `m` followed by the positions `r`, when there are any.
pub open spec fn join(m: Seq<int>, r: Option<Seq<int>>) -> Option<Seq<int>> {
    match r {
        Some(x) => Some(m + x),
        None => None,
    }
}

proof fn lemma_match_from(text: Seq<char>, q: char, from: int)
    requires
        0 <= from,
    ensures
        match match_from(text, q, from) {
            Some(p) => from <= p < text.len() && lower(text[p]) == lower(q) && forall|j: int|
                from <= j < p ==> lower(#[trigger] text[j]) != lower(q),
            None => forall|j: int| from <= j < text.len() ==> lower(#[trigger] text[j]) != lower(q),
        },
    decreases text.len() - from,
{
    if from < text.len() && lower(text[from]) != lower(q) {
        lemma_match_from(text, q, from + 1);
    }
}

/// Score `text` against `query`.
pub fn score(query: &str, text: &str) -> (r: Option<(i32, Vec<usize>)>)
    requires
        query@.len() <= 60_000_000,
        text@.len() <= i32::MAX,
    ensures
        match r {
            Some(x) => fuzzy(query@, text@) == Some((x.0 as int, positions_view(x.1@))),
            None => fuzzy(query@, text@) is None,
        },
{
    let qc = to_chars(query);
    if qc.len() == 0 {
        let none: Vec<usize> = Vec::new();
        assert(positions_view(none@) =~= Seq::<int>::empty());
        return Some((0, none));
    }
    let tc = to_chars(text);
    let ghost t = tc@;
    let ghost q = qc@;
    let mut matches: Vec<usize> = Vec::new();
    let mut score: i32 = 0;
    let mut ti: usize = 0;
    let mut last: Option<usize> = None;
    let mut qi: usize = 0;
    assert(q.skip(0) =~= q);
    assert(Seq::<int>::empty() + Seq::<int>::empty() =~= Seq::<int>::empty());
    while qi < qc.len()
        invariant
            t == tc@,
            tc@ == text@,
            q == qc@,
            qc@ == query@,
            q.len() <= 60_000_000,
            t.len() <= i32::MAX,
            qi <= q.len(),
            matches.len() == qi,
            ti <= t.len(),
            qi == 0 ==> last is None && ti == 0,
            qi > 0 ==> last == Some(matches@[qi - 1]) && ti == matches@[qi - 1] + 1,
            positions(t, q, 0) == join(positions_view(matches@), positions(t, q.skip(qi as int), ti as int)),
            score == run_score(t, positions_view(matches@), None),
            -10 * qi <= score <= 35 * qi,
        decreases q.len() - qi,
    {
        let c = qc[qi];
        let ql = to_lower(c);
        let ghost from = ti as int;
        proof {
            lemma_match_from(t, c, from);
        }
        while ti < tc.len() && to_lower(tc[ti]) != ql
            invariant
                t == tc@,
                from <= ti <= t.len(),
                ql == lower(c),
                match_from(t, c, from) == match_from(t, c, ti as int),
            decreases t.len() - ti,
        {
            ti = ti + 1;
        }
        let ghost rest = q.skip(qi as int);
        assert(rest[0] == c);
        assert(rest.drop_first() =~= q.skip(qi + 1));
        if ti == tc.len() {
            assert(match_from(t, c, ti as int) is None);
            return None;
        }
        let pos = ti;
        assert(match_from(t, c, from) == Some(pos as int));
        let ghost m0 = positions_view(matches@);
        if pos == 0 {
            score = score + 15;
        }
        if pos > 0 {
            let prev = tc[pos - 1];
            if prev == '_' || prev == '-' || prev == '.' || prev == '/' || prev == ' ' {
                score = score + 10;
            }
        }
        match last {
            Some(p) => {
                if p + 1 == pos {
                    score = score + 10;
                } else {
                    let gap = pos - p - 1;
                    let pen: i32 = if gap < 10 { gap as i32 } else { 10 };
                    score = score - pen;
                }
            }
            None => {
                let pen: i32 = if pos < 10 { pos as i32 } else { 10 };
                score = score - pen;
            }
        }
        matches.push(pos);
        proof {
            let m1 = positions_view(matches@);
            assert(m1 =~= m0.push(pos as int));
            assert(m1.drop_last() =~= m0);
            if qi > 0 {
                assert(m0.last() == matches@[qi - 1] as int);
                assert(m1[m1.len() - 2] == m0.last());
            }
            assert(score == run_score(t, m1, None));
            match positions(t, q.skip(qi + 1), pos + 1) {
                Some(r) => {
                    assert(m1 + r =~= m0 + (seq![pos as int] + r));
                }
                None => {}
            }
        }
        last = Some(pos);
        ti = pos + 1;
        qi = qi + 1;
    }
    proof {
        assert(q.skip(qi as int) =~= Seq::<char>::empty());
        assert(positions_view(matches@) + Seq::<int>::empty() =~= positions_view(matches@));
    }
    let len = tc.len() as i32;
    Some((score - len / 20, matches))
}


// --- the matched positions --------------------------------------------------

/// `ps` are increasing positions of `text` whose characters are those of
/// `query`, in order, ignoring ASCII case.
pub open spec fn matches_at(text: Seq<char>, query: Seq<char>, ps: Seq<int>) -> bool {
    &&& ps.len() == query.len()
    &&& forall|i: int| 0 <= i < ps.len() ==> 0 <= #[trigger] ps[i] < text.len() && lower(text[ps[i]]) == lower(query[i])
    &&& forall|i: int, j: int| 0 <= i < j < ps.len() ==> #[trigger] ps[i] < #[trigger] ps[j]
}

/// `query` is a subsequence of `text`, ignoring ASCII case.
pub open spec fn subsequence(query: Seq<char>, text: Seq<char>) -> bool {
    exists|ps: Seq<int>| matches_at(text, query, ps)
}

/// Where the search for the `j`-th match starts: at `from` for the first,
/// just after the previous match for the others.
pub open spec fn search_start(ps: Seq<int>, j: int, from: int) -> int {
    if j == 0 {
        from
    } else {
        ps[j - 1] + 1
    }
}

/// Each position is the first match of its query character after the
/// previous position (after `from` for the first).
pub open spec fn leftmost(text: Seq<char>, query: Seq<char>, ps: Seq<int>, from: int) -> bool {
    forall|j: int, i: int|
        #![trigger ps[j], text[i]]
        0 <= j < ps.len() && search_start(ps, j, from) <= i < ps[j] ==> lower(text[i]) != lower(query[j])
}

proof fn lemma_positions_leftmost(text: Seq<char>, query: Seq<char>, from: int)
    requires
        0 <= from,
        positions(text, query, from) is Some,
    ensures
        leftmost(text, query, positions(text, query, from).unwrap(), from),
    decreases query.len(),
{
    if query.len() > 0 {
        lemma_match_from(text, query[0], from);
        let p = match_from(text, query[0], from).unwrap();
        let rest = query.drop_first();
        lemma_positions_leftmost(text, rest, p + 1);
        lemma_positions_sound(text, rest, p + 1);
        let r = positions(text, rest, p + 1).unwrap();
        let ps = seq![p] + r;
        assert(positions(text, query, from).unwrap() == ps);
        assert forall|j: int, i: int|
            0 <= j < ps.len() && search_start(ps, j, from) <= i < #[trigger] ps[j] implies lower(#[trigger] text[i])
                != lower(query[j]) by {
            if j > 0 {
                assert(ps[j] == r[j - 1]);
                assert(query[j] == rest[j - 1]);
                if j > 1 {
                    assert(ps[j - 1] == r[j - 2]);
                }
                assert(search_start(ps, j, from) == search_start(r, j - 1, p + 1));
                assert(r[j - 1] == ps[j]);
            }
        }
    }
}

proof fn lemma_positions_sound(text: Seq<char>, query: Seq<char>, from: int)
    requires
        0 <= from,
        positions(text, query, from) is Some,
    ensures
        matches_at(text, query, positions(text, query, from).unwrap()),
        forall|i: int| 0 <= i < query.len() ==> from <= #[trigger] positions(text, query, from).unwrap()[i],
    decreases query.len(),
{
    if query.len() > 0 {
        lemma_match_from(text, query[0], from);
        let p = match_from(text, query[0], from).unwrap();
        let rest = query.drop_first();
        lemma_positions_sound(text, rest, p + 1);
        let r = positions(text, rest, p + 1).unwrap();
        let ps = seq![p] + r;
        assert(positions(text, query, from).unwrap() == ps);
        assert forall|i: int| 0 <= i < ps.len() implies 0 <= #[trigger] ps[i] < text.len() && lower(text[ps[i]])
            == lower(query[i]) by {
            if i > 0 {
                assert(ps[i] == r[i - 1]);
                assert(query[i] == rest[i - 1]);
            }
        }
        assert forall|i: int, j: int| 0 <= i < j < ps.len() implies #[trigger] ps[i] < #[trigger] ps[j] by {
            if i > 0 {
                assert(ps[i] == r[i - 1] && ps[j] == r[j - 1]);
            } else {
                assert(ps[j] == r[j - 1]);
            }
        }
        assert forall|i: int| 0 <= i < query.len() implies from <= #[trigger] ps[i] by {
            if i > 0 {
                assert(ps[i] == r[i - 1]);
            }
        }
    }
}

proof fn lemma_positions_complete(text: Seq<char>, query: Seq<char>, from: int, ws: Seq<int>)
    requires
        0 <= from,
        matches_at(text, query, ws),
        query.len() > 0 ==> from <= ws[0],
    ensures
        positions(text, query, from) is Some,
    decreases query.len(),
{
    if query.len() > 0 {
        lemma_match_from(text, query[0], from);
        assert(lower(text[ws[0]]) == lower(query[0]));
        let p = match_from(text, query[0], from).unwrap();
        assert(p <= ws[0]);
        let rest = query.drop_first();
        let wr = ws.drop_first();
        assert forall|i: int| 0 <= i < wr.len() implies 0 <= #[trigger] wr[i] < text.len() && lower(text[wr[i]])
            == lower(rest[i]) by {
            assert(wr[i] == ws[i + 1]);
            assert(rest[i] == query[i + 1]);
        }
        assert forall|i: int, j: int| 0 <= i < j < wr.len() implies #[trigger] wr[i] < #[trigger] wr[j] by {
            assert(wr[i] == ws[i + 1] && wr[j] == ws[j + 1]);
        }
        if rest.len() > 0 {
            assert(ws[0] < ws[1]);
            assert(wr[0] == ws[1]);
        }
        lemma_positions_complete(text, rest, p + 1, wr);
    }
}

/// Law: a query matches exactly when it is a subsequence of the text,
/// ignoring ASCII case (so `None` means it is not one), and the reported
/// positions are, one per query character, increasing positions of the text
/// that spell the query, each the leftmost match after the previous one.
pub proof fn law_fuzzy_matches_subsequences(query: Seq<char>, text: Seq<char>)
    ensures
        fuzzy(query, text) is Some <==> subsequence(query, text),
        fuzzy(query, text) matches Some(r) ==> matches_at(text, query, r.1) && leftmost(text, query, r.1, 0),
{
    if query.len() == 0 {
        let e = Seq::<int>::empty();
        assert(matches_at(text, query, e));
    } else {
        if positions(text, query, 0) is Some {
            lemma_positions_sound(text, query, 0);
            lemma_positions_leftmost(text, query, 0);
        }
        if subsequence(query, text) {
            let ws = choose|ws: Seq<int>| matches_at(text, query, ws);
            assert(0 <= ws[0]);
            lemma_positions_complete(text, query, 0, ws);
        }
    }
}

} // verus!
