//! Folder → (project, environment) assignments.
//!
//! Running setup inside a folder records the folder together with the chosen
//! project and environment, so that later commands in that folder know what
//! to use. Assignments are kept ordered by folder path, as a sorted map.

use vstd::prelude::*;
use crate::text::to_chars;

verus! {

/// One folder's assignment.
pub struct Assignment {
    pub project: String,
    pub env: String,
}

impl View for Assignment {
    type V = (Seq<char>, Seq<char>);

    open spec fn view(&self) -> (Seq<char>, Seq<char>) {
        (self.project@, self.env@)
    }
}

impl Clone for Assignment {
    fn clone(&self) -> (c: Self)
        ensures
            c@ == self@,
    {
        Assignment { project: self.project.clone(), env: self.env.clone() }
    }
}

/// Lexicographic order on characters, the order of `String`'s `Ord`.
pub open spec fn str_lt(a: Seq<char>, b: Seq<char>) -> bool
    decreases a.len(),
{
    if a.len() == 0 {
        b.len() > 0
    } else if b.len() == 0 {
        false
    } else if a[0] != b[0] {
        a[0] < b[0]
    } else {
        str_lt(a.drop_first(), b.drop_first())
    }
}

pub proof fn lemma_str_lt_irreflexive(a: Seq<char>)
    ensures
        !str_lt(a, a),
    decreases a.len(),
{
    if a.len() > 0 {
        lemma_str_lt_irreflexive(a.drop_first());
    }
}

pub proof fn lemma_str_lt_total(a: Seq<char>, b: Seq<char>)
    ensures
        a == b || str_lt(a, b) || str_lt(b, a),
        !(str_lt(a, b) && str_lt(b, a)),
    decreases a.len(),
{
    if a.len() > 0 && b.len() > 0 {
        lemma_str_lt_total(a.drop_first(), b.drop_first());
        if a[0] == b[0] && a.drop_first() == b.drop_first() {
            assert(a =~= seq![a[0]] + a.drop_first());
            assert(b =~= seq![b[0]] + b.drop_first());
        }
    } else if a.len() == 0 && b.len() == 0 {
        assert(a =~= b);
    }
}

pub proof fn lemma_str_lt_transitive(a: Seq<char>, b: Seq<char>, c: Seq<char>)
    requires
        str_lt(a, b),
        str_lt(b, c),
    ensures
        str_lt(a, c),
    decreases a.len(),
{
    if a.len() > 0 && b.len() > 0 && c.len() > 0 {
        if a[0] == b[0] && b[0] == c[0] {
            lemma_str_lt_transitive(a.drop_first(), b.drop_first(), c.drop_first());
        }
    }
}

/// Whether `a` sorts before `b`.
pub fn less_than(a: &str, b: &str) -> (r: bool)
    ensures
        r == str_lt(a@, b@),
{
    let x = to_chars(a);
    let y = to_chars(b);
    let mut i: usize = 0;
    assert(x@.skip(0) =~= x@);
    assert(y@.skip(0) =~= y@);
    while i < x.len() && i < y.len() && x[i] == y[i]
        invariant
            x@ == a@,
            y@ == b@,
            i <= x.len(),
            i <= y.len(),
            str_lt(a@, b@) == str_lt(x@.skip(i as int), y@.skip(i as int)),
        decreases x.len() - i,
    {
        assert(x@.skip(i as int).drop_first() =~= x@.skip(i + 1));
        assert(y@.skip(i as int).drop_first() =~= y@.skip(i + 1));
        i = i + 1;
    }
    if i == x.len() {
        i < y.len()
    } else if i == y.len() {
        false
    } else {
        x[i] < y[i]
    }
}

/// The model of the assignments: folder → (project, environment), sorted by
/// folder.
pub type MetaModel = Seq<(Seq<char>, (Seq<char>, Seq<char>))>;

/// Folders strictly increasing.
pub open spec fn sorted(m: MetaModel) -> bool {
    forall|i: int, j: int| 0 <= i < j < m.len() ==> str_lt((#[trigger] m[i]).0, (#[trigger] m[j]).0)
}

/// The assignment of `folder`, if any.
pub open spec fn assigned(m: MetaModel, folder: Seq<char>) -> Option<(Seq<char>, Seq<char>)> {
    if exists|i: int| 0 <= i < m.len() && (#[trigger] m[i]).0 == folder {
        let i = choose|i: int| 0 <= i < m.len() && (#[trigger] m[i]).0 == folder;
        Some(m[i].1)
    } else {
        None
    }
}

/// The folders assigned to `project`, in folder order.
pub open spec fn folders_of(m: MetaModel, project: Seq<char>) -> Seq<Seq<char>>
    decreases m.len(),
{
    if m.len() == 0 {
        Seq::empty()
    } else {
        let rest = folders_of(m.drop_last(), project);
        if m.last().1.0 == project {
            rest.push(m.last().0)
        } else {
            rest
        }
    }
}

/// All folder assignments, ordered by folder path.
pub struct Meta {
    assignments: Vec<(String, Assignment)>,
}

impl View for Meta {
    type V = MetaModel;

    closed spec fn view(&self) -> MetaModel {
        self.assignments@.map_values(|e: (String, Assignment)| (e.0@, e.1@))
    }
}

impl Meta {
    #[verifier::type_invariant]
    spec fn wf(self) -> bool {
        sorted(self@)
    }

    /// No assignments.
    pub fn new() -> (m: Self)
        ensures
            m@ == Seq::<(Seq<char>, (Seq<char>, Seq<char>))>::empty(),
    {
        let m = Meta { assignments: Vec::new() };
        assert(m@ =~= Seq::<(Seq<char>, (Seq<char>, Seq<char>))>::empty());
        m
    }

    /// The number of assigned folders.
    pub fn len(&self) -> (n: usize)
        ensures
            n == self@.len(),
            sorted(self@),
    {
        proof {
            use_type_invariant(self);
        }
        self.assignments.len()
    }

    /// The folder and assignment at position `i`, in folder order.
    pub fn entry(&self, i: usize) -> (r: (&str, &Assignment))
        requires
            i < self@.len(),
        ensures
            r.0@ == self@[i as int].0,
            r.1@ == self@[i as int].1,
    {
        let e = &self.assignments[i];
        (e.0.as_str(), &e.1)
    }

    /// The assignment of `folder`.
    pub fn get(&self, folder: &str) -> (r: Option<&Assignment>)
        ensures
            match r {
                Some(a) => assigned(self@, folder@) == Some(a@),
                None => assigned(self@, folder@) is None,
            },
    {
        proof {
            use_type_invariant(self);
        }
        let mut i: usize = 0;
        while i < self.assignments.len()
            invariant
                i <= self@.len(),
                self@.len() == self.assignments.len(),
                sorted(self@),
                forall|j: int| 0 <= j < i ==> (#[trigger] self@[j]).0 != folder@,
            decreases self.assignments.len() - i,
        {
            let e = &self.assignments[i];
            assert(self@[i as int] == (e.0@, e.1@));
            if crate::text::string_eq(e.0.as_str(), folder) {
                proof {
                    let k = choose|k: int| 0 <= k < self@.len() && (#[trigger] self@[k]).0 == folder@;
                    if k != i {
                        lemma_str_lt_irreflexive(folder@);
                        if k < i {
                            assert(str_lt(self@[k].0, self@[i as int].0));
                        } else {
                            assert(str_lt(self@[i as int].0, self@[k].0));
                        }
                    }
                }
                return Some(&e.1);
            }
            i = i + 1;
        }
        None
    }

    /// Assign `folder` to `project`/`env`, replacing any earlier assignment.
    pub fn set(&mut self, folder: String, project: String, env: String)
        ensures
            assigned(final(self)@, folder@) == Some((project@, env@)),
            sorted(final(self)@),
            forall|f: Seq<char>| f != folder@ ==> #[trigger] assigned(final(self)@, f) == assigned(
                old(self)@,
                f,
            ),
            final(self)@.len() == old(self)@.len() + (if assigned(old(self)@, folder@) is Some {
                0int
            } else {
                1int
            }),
    {
        proof {
            use_type_invariant(&*self);
        }
        let ghost m0 = self@;
        let n = self.assignments.len();
        let mut p: usize = 0;
        while p < n && less_than(self.assignments[p].0.as_str(), folder.as_str())
            invariant
                p <= n == self.assignments.len(),
                m0 == self@,
                sorted(m0),
                forall|j: int| 0 <= j < p ==> str_lt((#[trigger] m0[j]).0, folder@),
            decreases n - p,
        {
            assert(m0[p as int].0 == self.assignments@[p as int].0@);
            p = p + 1;
        }
        let a = Assignment { project, env };
        if p < n && crate::text::string_eq(self.assignments[p].0.as_str(), folder.as_str()) {
            let ghost m1 = m0.update(p as int, (folder@, a@));
            proof {
                assert(m0[p as int].0 == folder@);
                assert(m0[p as int].0 == self.assignments@[p as int].0@);
                assert(assigned(m0, folder@) is Some);
                assert forall|i: int, j: int| 0 <= i < j < m1.len() implies str_lt((#[trigger] m1[i]).0, (#[trigger] m1[j]).0) by {
                    assert(m1[i].0 == m0[i].0);
                    assert(m1[j].0 == m0[j].0);
                }
                lemma_assigned_sorted(m1, p as int);
                assert forall|f: Seq<char>| f != folder@ implies #[trigger] assigned(m1, f) == assigned(m0, f) by {
                    assert forall|i: int| 0 <= i < m0.len() && (#[trigger] m0[i]).0 == f implies exists|j: int|
                        0 <= j < m1.len() && (#[trigger] m1[j]) == m0[i] by {
                        assert(m1[i] == m0[i]);
                    }
                    assert forall|j: int| 0 <= j < m1.len() && (#[trigger] m1[j]).0 == f implies exists|i: int|
                        0 <= i < m0.len() && (#[trigger] m0[i]) == m1[j] by {
                        assert(m1[j] == m0[j]);
                    }
                    lemma_assigned_other(m0, m1, f);
                }
            }
            let mut v: Vec<(String, Assignment)> = Vec::new();
            std::mem::swap(&mut v, &mut self.assignments);
            v.set(p, (folder, a));
            assert(v@.map_values(|e: (String, Assignment)| (e.0@, e.1@)) =~= m1);
            self.assignments = v;
            assert(self@ =~= m1);
        } else {
            let ghost m1 = m0.insert(p as int, (folder@, a@));
            proof {
                if p < n {
                    assert(m0[p as int].0 == self.assignments@[p as int].0@);
                    lemma_str_lt_total(m0[p as int].0, folder@);
                }
                lemma_str_lt_irreflexive(folder@);
                assert forall|i: int| 0 <= i < m0.len() implies (#[trigger] m0[i]).0 != folder@ by {
                    if i > p {
                        assert(str_lt(m0[p as int].0, m0[i].0));
                        lemma_str_lt_transitive(folder@, m0[p as int].0, m0[i].0);
                    }
                }
                assert(assigned(m0, folder@) is None);
                assert forall|i: int, j: int| 0 <= i < j < m1.len() implies str_lt((#[trigger] m1[i]).0, (#[trigger] m1[j]).0) by {
                    if j < p {
                        assert(m1[i] == m0[i] && m1[j] == m0[j]);
                    } else if j == p {
                        assert(m1[i] == m0[i]);
                    } else if i < p {
                        assert(m1[i] == m0[i] && m1[j] == m0[j - 1]);
                        assert(str_lt(m0[i].0, folder@));
                        assert(str_lt(folder@, m0[p as int].0));
                        lemma_str_lt_transitive(m0[i].0, folder@, m0[p as int].0);
                        if j - 1 > p {
                            lemma_str_lt_transitive(m0[i].0, m0[p as int].0, m0[j - 1].0);
                        }
                    } else if i == p {
                        assert(m1[j] == m0[j - 1]);
                        if j - 1 > p {
                            lemma_str_lt_transitive(folder@, m0[p as int].0, m0[j - 1].0);
                        }
                    } else {
                        assert(m1[i] == m0[i - 1] && m1[j] == m0[j - 1]);
                    }
                }
                lemma_assigned_sorted(m1, p as int);
                assert forall|f: Seq<char>| f != folder@ implies #[trigger] assigned(m1, f) == assigned(m0, f) by {
                    assert forall|i: int| 0 <= i < m0.len() && (#[trigger] m0[i]).0 == f implies exists|j: int|
                        0 <= j < m1.len() && (#[trigger] m1[j]) == m0[i] by {
                        if i < p {
                            assert(m1[i] == m0[i]);
                        } else {
                            assert(m1[i + 1] == m0[i]);
                        }
                    }
                    assert forall|j: int| 0 <= j < m1.len() && (#[trigger] m1[j]).0 == f implies exists|i: int|
                        0 <= i < m0.len() && (#[trigger] m0[i]) == m1[j] by {
                        if j < p {
                            assert(m1[j] == m0[j]);
                        } else if j > p {
                            assert(m1[j] == m0[j - 1]);
                        }
                    }
                    lemma_assigned_other(m0, m1, f);
                }
            }
            let mut v: Vec<(String, Assignment)> = Vec::new();
            std::mem::swap(&mut v, &mut self.assignments);
            v.insert(p, (folder, a));
            assert(v@.map_values(|e: (String, Assignment)| (e.0@, e.1@)) =~= m1);
            self.assignments = v;
            assert(self@ =~= m1);
        }
    }

    /// Folders assigned to `project`, in folder order: every folder whose
    /// assignment names the project, each once, sorted.
    pub fn folders_for_project(&self, project: &str) -> (r: Vec<&str>)
        ensures
            r@.map_values(|s: &str| s@) == folders_of(self@, project@),
            forall|k: int| 0 <= k < r.len() ==> (assigned(self@, (#[trigger] r@[k])@) matches Some(a) && a.0 == project@),
            forall|f: Seq<char>| (#[trigger] assigned(self@, f) matches Some(a) && a.0 == project@) ==> exists|k: int|
                0 <= k < r.len() && (#[trigger] r@[k])@ == f,
            forall|k1: int, k2: int| 0 <= k1 < k2 < r.len() ==> str_lt((#[trigger] r@[k1])@, (#[trigger] r@[k2])@),
    {
        proof {
            use_type_invariant(self);
        }
        let mut out: Vec<&str> = Vec::new();
        let mut i: usize = 0;
        while i < self.assignments.len()
            invariant
                i <= self@.len() == self.assignments.len(),
                out@.map_values(|s: &str| s@) == folders_of(self@.take(i as int), project@),
            decreases self.assignments.len() - i,
        {
            let e = &self.assignments[i];
            assert(self@[i as int] == (e.0@, e.1@));
            assert(self@.take(i + 1).drop_last() =~= self@.take(i as int));
            if crate::text::string_eq(e.1.project.as_str(), project) {
                out.push(e.0.as_str());
            }
            assert(out@.map_values(|s: &str| s@) =~= folders_of(self@.take(i + 1), project@));
            i = i + 1;
        }
        assert(self@.take(self@.len() as int) =~= self@);
        proof {
            let m = self@;
            let fs = folders_of(m, project@);
            lemma_folders_of(m, project@);
            assert forall|k: int| 0 <= k < out.len() implies (assigned(m, (#[trigger] out@[k])@) matches Some(a) && a.0
                == project@) by {
                assert(out@[k]@ == fs[k]);
                let i = choose|i: int| 0 <= i < m.len() && (#[trigger] m[i]).0 == fs[k] && m[i].1.0 == project@;
                lemma_assigned_sorted(m, i);
            }
            assert forall|f: Seq<char>| (#[trigger] assigned(m, f) matches Some(a) && a.0 == project@) implies exists|k: int|
                0 <= k < out.len() && (#[trigger] out@[k])@ == f by {
                let i = choose|i: int| 0 <= i < m.len() && (#[trigger] m[i]).0 == f;
                assert(m[i].1.0 == project@);
                let k = choose|k: int| 0 <= k < fs.len() && #[trigger] fs[k] == m[i].0;
                assert(out@[k]@ == fs[k]);
            }
            assert forall|k1: int, k2: int| 0 <= k1 < k2 < out.len() implies str_lt((#[trigger] out@[k1])@, (#[trigger] out@[k2])@) by {
                assert(out@[k1]@ == fs[k1]);
                assert(out@[k2]@ == fs[k2]);
            }
        }
        out
    }
}

/// The folders of a project come from its assignments, include each of them,
/// and are increasing when the assignments are sorted.
proof fn lemma_folders_of(m: MetaModel, project: Seq<char>)
    requires
        sorted(m),
    ensures
        forall|k: int| 0 <= k < folders_of(m, project).len() ==> exists|i: int|
            0 <= i < m.len() && (#[trigger] m[i]).0 == #[trigger] folders_of(m, project)[k] && m[i].1.0 == project,
        forall|i: int| 0 <= i < m.len() && (#[trigger] m[i]).1.0 == project ==> exists|k: int|
            0 <= k < folders_of(m, project).len() && #[trigger] folders_of(m, project)[k] == m[i].0,
        forall|k1: int, k2: int| 0 <= k1 < k2 < folders_of(m, project).len() ==> str_lt(
            #[trigger] folders_of(m, project)[k1],
            #[trigger] folders_of(m, project)[k2],
        ),
    decreases m.len(),
{
    if m.len() > 0 {
        let d = m.drop_last();
        assert forall|i: int, j: int| 0 <= i < j < d.len() implies str_lt((#[trigger] d[i]).0, (#[trigger] d[j]).0) by {
            assert(d[i] == m[i] && d[j] == m[j]);
        }
        lemma_folders_of(d, project);
        let rest = folders_of(d, project);
        let fs = folders_of(m, project);
        let last = m.last();
        assert(m[m.len() - 1] == last);
        assert forall|k: int| 0 <= k < fs.len() implies exists|i: int|
            0 <= i < m.len() && (#[trigger] m[i]).0 == #[trigger] fs[k] && m[i].1.0 == project by {
            if k < rest.len() {
                assert(fs[k] == rest[k]);
                let i = choose|i: int| 0 <= i < d.len() && (#[trigger] d[i]).0 == rest[k] && d[i].1.0 == project;
                assert(m[i] == d[i]);
            } else {
                assert(fs[k] == last.0);
            }
        }
        assert forall|i: int| 0 <= i < m.len() && (#[trigger] m[i]).1.0 == project implies exists|k: int|
            0 <= k < fs.len() && #[trigger] fs[k] == m[i].0 by {
            if i < d.len() {
                assert(m[i] == d[i]);
                let k = choose|k: int| 0 <= k < rest.len() && #[trigger] rest[k] == d[i].0;
                assert(fs[k] == rest[k]);
            } else {
                assert(fs[rest.len() as int] == last.0);
            }
        }
        assert forall|k1: int, k2: int| 0 <= k1 < k2 < fs.len() implies str_lt(#[trigger] fs[k1], #[trigger] fs[k2]) by {
            assert(fs[k1] == rest[k1]);
            if k2 < rest.len() {
                assert(fs[k2] == rest[k2]);
            } else {
                let i = choose|i: int| 0 <= i < d.len() && (#[trigger] d[i]).0 == rest[k1] && d[i].1.0 == project;
                assert(m[i] == d[i]);
                assert(fs[k2] == last.0);
                assert(str_lt(m[i].0, m[m.len() - 1].0));
            }
        }
    }
}

/// In a sorted model, the assignment at `p` is the one of its folder.
proof fn lemma_assigned_sorted(m: MetaModel, p: int)
    requires
        sorted(m),
        0 <= p < m.len(),
    ensures
        assigned(m, m[p].0) == Some(m[p].1),
{
    let k = choose|k: int| 0 <= k < m.len() && (#[trigger] m[k]).0 == m[p].0;
    if k != p {
        lemma_str_lt_irreflexive(m[p].0);
    }
}

/// Changing or adding the entry of one folder leaves other folders alone.
proof fn lemma_assigned_other(m0: MetaModel, m1: MetaModel, f: Seq<char>)
    requires
        sorted(m0),
        sorted(m1),
        forall|i: int| 0 <= i < m0.len() && (#[trigger] m0[i]).0 == f ==> exists|j: int|
            0 <= j < m1.len() && (#[trigger] m1[j]) == m0[i],
        forall|j: int| 0 <= j < m1.len() && (#[trigger] m1[j]).0 == f ==> exists|i: int|
            0 <= i < m0.len() && (#[trigger] m0[i]) == m1[j],
    ensures
        assigned(m1, f) == assigned(m0, f),
{
    if exists|i: int| 0 <= i < m0.len() && (#[trigger] m0[i]).0 == f {
        let i = choose|i: int| 0 <= i < m0.len() && (#[trigger] m0[i]).0 == f;
        let j = choose|j: int| 0 <= j < m1.len() && (#[trigger] m1[j]) == m0[i];
        lemma_assigned_sorted(m0, i);
        lemma_assigned_sorted(m1, j);
    } else if exists|j: int| 0 <= j < m1.len() && (#[trigger] m1[j]).0 == f {
        let j = choose|j: int| 0 <= j < m1.len() && (#[trigger] m1[j]).0 == f;
        let i = choose|i: int| 0 <= i < m0.len() && (#[trigger] m0[i]) == m1[j];
        assert(m0[i].0 == f);
    }
}

} // verus!
