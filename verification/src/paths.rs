//! Relative paths as sequences of components, with joining and comparison.
//!
//! The engine never handles absolute, platform-specific paths: every path it
//! reasons about is a list of components relative to a known root, and the
//! front end converts to and from the platform's path type at the boundary.

use vstd::prelude::*;
use vstd::string::*;
use crate::strutil::str_eq;

verus! {

/// A relative path: a sequence of components, each free of separators.
/// The empty path denotes the root itself.
#[derive(Debug)]
pub struct RelPath {
    pub parts: Vec<String>,
}

impl View for RelPath {
    type V = Seq<Seq<char>>;

    open spec fn view(&self) -> Seq<Seq<char>> {
        self.parts.deep_view()
    }
}

/// A well-formed component is non-empty and free of the path separator and of
/// line breaks, so that joined paths split back into the same components and
/// a path occupies one manifest line.
pub open spec fn wf_component(c: Seq<char>) -> bool {
    &&& c.len() > 0
    &&& forall|i: int| 0 <= i < c.len() ==> c[i] != '/' && c[i] != '\n'
}

/// All components of the path are well-formed.
pub open spec fn wf_path(p: Seq<Seq<char>>) -> bool {
    forall|i: int| 0 <= i < p.len() ==> wf_component(#[trigger] p[i])
}

/// The path's components joined with `/`; the empty path joins to the empty
/// string.
pub open spec fn join_rel(parts: Seq<Seq<char>>) -> Seq<char>
    decreases parts.len(),
{
    if parts.len() == 0 {
        Seq::<char>::empty()
    } else if parts.len() == 1 {
        parts[0]
    } else {
        parts[0] + seq!['/'] + join_rel(parts.drop_first())
    }
}

/// Joining one more component appends a separator and that component.
pub proof fn lemma_join_rel_push(parts: Seq<Seq<char>>, c: Seq<char>)
    requires
        parts.len() >= 1,
    ensures
        join_rel(parts.push(c)) == join_rel(parts) + seq!['/'] + c,
    decreases parts.len(),
{
    if parts.len() == 1 {
        assert(parts.push(c).drop_first() =~= seq![c]);
        assert(join_rel(seq![c]) == c);
        assert(parts.push(c)[0] == parts[0]);
        assert(join_rel(parts.push(c)) == parts[0] + seq!['/'] + c);
    } else {
        lemma_join_rel_push(parts.drop_first(), c);
        assert(parts.push(c).drop_first() =~= parts.drop_first().push(c));
        assert(join_rel(parts) + seq!['/'] + c =~= parts[0] + seq!['/'] + (join_rel(
            parts.drop_first(),
        ) + seq!['/'] + c));
    }
}

impl RelPath {
    /// The empty path.
    pub fn empty() -> (r: RelPath)
        ensures
            r@ == Seq::<Seq<char>>::empty(),
    {
        let r = RelPath { parts: Vec::new() };
        proof {
            assert(r@ =~= Seq::<Seq<char>>::empty());
        }
        r
    }

    /// Number of components.
    pub fn len(&self) -> (r: usize)
        ensures
            r == self@.len(),
    {
        self.parts.len()
    }

    /// The component at `i`.
    pub fn part(&self, i: usize) -> (r: &String)
        requires
            i < self@.len(),
        ensures
            r@ == self@[i as int],
    {
        &self.parts[i]
    }

    /// Appends one component.
    pub fn push_part(&mut self, c: String)
        ensures
            final(self)@ == old(self)@.push(c@),
    {
        self.parts.push(c);
        proof {
            assert(self@ =~= old(self)@.push(c@));
        }
    }

    /// An identical copy of the path.
    pub fn dup(&self) -> (r: RelPath)
        ensures
            r@ == self@,
    {
        let mut parts: Vec<String> = Vec::new();
        let mut i: usize = 0;
        while i < self.parts.len()
            invariant
                i <= self.parts.len(),
                parts.deep_view() =~= self@.take(i as int),
            decreases self.parts.len() - i,
        {
            parts.push(self.parts[i].clone());
            proof {
                assert(parts.deep_view() =~= self@.take(i as int).push(self@[i as int]));
                assert(self@.take(i as int).push(self@[i as int]) =~= self@.take(i + 1));
            }
            i += 1;
        }
        proof {
            assert(self@.take(self@.len() as int) =~= self@);
        }
        RelPath { parts }
    }

    /// The sub-path holding components `from` (inclusive) to `to` (exclusive).
    pub fn subpath(&self, from: usize, to: usize) -> (r: RelPath)
        requires
            from <= to <= self@.len(),
        ensures
            r@ == self@.subrange(from as int, to as int),
    {
        let mut parts: Vec<String> = Vec::new();
        let mut i: usize = from;
        while i < to
            invariant
                from <= i <= to <= self@.len(),
                parts.deep_view() =~= self@.subrange(from as int, i as int),
            decreases to - i,
        {
            parts.push(self.parts[i].clone());
            proof {
                assert(parts.deep_view() =~= self@.subrange(from as int, i as int).push(
                    self@[i as int],
                ));
                assert(self@.subrange(from as int, i as int).push(self@[i as int]) =~= self@
                    .subrange(from as int, i + 1));
            }
            i += 1;
        }
        RelPath { parts }
    }

    /// True iff the two paths have the same components.
    pub fn eq_path(&self, other: &RelPath) -> (r: bool)
        ensures
            r == (self@ == other@),
    {
        if self.parts.len() != other.parts.len() {
            proof {
                assert(self@.len() != other@.len());
            }
            return false;
        }
        let mut i: usize = 0;
        while i < self.parts.len()
            invariant
                self@.len() == other@.len(),
                i <= self@.len(),
                self.parts.len() == self@.len(),
                forall|j: int| 0 <= j < i ==> self@[j] == other@[j],
            decreases self.parts.len() - i,
        {
            if !str_eq(self.parts[i].as_str(), other.parts[i].as_str()) {
                proof {
                    assert(self@[i as int] == self.parts[i as int]@);
                    assert(other@[i as int] == other.parts[i as int]@);
                }
                return false;
            }
            proof {
                assert(self@[i as int] == self.parts[i as int]@);
                assert(other@[i as int] == other.parts[i as int]@);
            }
            i += 1;
        }
        proof {
            assert(self@ =~= other@);
        }
        true
    }

    /// The components joined with `/`.
    pub fn joined(&self) -> (r: String)
        ensures
            r@ == join_rel(self@),
    {
        let mut out = String::new();
        if self.parts.len() == 0 {
            proof {
                assert(out@ =~= join_rel(self@));
            }
            return out;
        }
        out.append(self.parts[0].as_str());
        let mut i: usize = 1;
        while i < self.parts.len()
            invariant
                1 <= i <= self@.len(),
                self.parts.len() == self@.len(),
                out@ == join_rel(self@.take(i as int)),
            decreases self.parts.len() - i,
        {
            out.append("/");
            out.append(self.parts[i].as_str());
            proof {
                reveal_strlit("/");
                lemma_join_rel_push(self@.take(i as int), self@[i as int]);
                assert(self@.take(i as int).push(self@[i as int]) =~= self@.take(i + 1));
                assert(out@ =~= join_rel(self@.take(i as int)) + seq!['/'] + self@[i as int]);
            }
            i += 1;
        }
        proof {
            assert(self@.take(self@.len() as int) =~= self@);
        }
        out
    }
}

/// True iff `p` is a proper prefix of `q`.
pub open spec fn is_proper_prefix(p: Seq<Seq<char>>, q: Seq<Seq<char>>) -> bool {
    p.len() < q.len() && p =~= q.take(p.len() as int)
}

} // verus!
