//! Paths as sequences of name segments.
//!
//! An absolute path `/a/b/x.txt` is modelled as the segments
//! `["a", "b", "x.txt"]`; a relative path `b/x.txt` as `["b", "x.txt"]`.
//! The empty sequence stands for the filesystem root (as an absolute path)
//! or for the empty relative path.

use vstd::prelude::*;

verus! {

/// A filesystem path, held as its name segments in order.
#[derive(Debug, PartialEq, Eq)]
pub struct SegPath {
    pub segs: Vec<String>,
}

impl View for SegPath {
    type V = Seq<Seq<char>>;

    open spec fn view(&self) -> Seq<Seq<char>> {
        self.segs.deep_view()
    }
}

/// `p` is an initial run of `q`'s segments.
pub open spec fn is_prefix(p: Seq<Seq<char>>, q: Seq<Seq<char>>) -> bool {
    p.len() <= q.len() && forall|i: int| 0 <= i < p.len() ==> p[i] == q[i]
}

/// The path one level up: all segments but the last. The root is its own
/// parent.
pub open spec fn parent_of(p: Seq<Seq<char>>) -> Seq<Seq<char>> {
    if p.len() == 0 {
        p
    } else {
        p.take(p.len() - 1)
    }
}

/// A vector of segments is viewed, segment by segment, as the sequence of
/// the segments' character sequences.
proof fn lemma_deep_view_points(v: &Vec<String>)
    ensures
        v.deep_view().len() == v@.len(),
        forall|j: int| 0 <= j < v@.len() ==> v.deep_view()[j] == v@[j]@,
{
}

/// A path's view has one entry per segment: that segment's characters.
pub proof fn lemma_seg_points(p: &SegPath)
    ensures
        p@.len() == p.segs@.len(),
        forall|j: int| 0 <= j < p.segs@.len() ==> p@[j] == p.segs@[j]@,
{
}

impl SegPath {
    /// A path with no segments: the root, or the empty relative path.
    pub fn empty() -> (r: SegPath)
        ensures
            r@ == Seq::<Seq<char>>::empty(),
    {
        let segs: Vec<String> = Vec::new();
        proof {
            assert(segs.deep_view() =~~= Seq::<Seq<char>>::empty());
        }
        SegPath { segs }
    }

    pub fn len(&self) -> (r: usize)
        ensures
            r == self@.len(),
    {
        self.segs.len()
    }

    /// The segments from `start` (inclusive) to `end` (exclusive), as a path
    /// of their own.
    pub fn slice(&self, start: usize, end: usize) -> (r: SegPath)
        requires
            start <= end <= self@.len(),
        ensures
            r@ == self@.subrange(start as int, end as int),
    {
        let mut segs: Vec<String> = Vec::new();
        let mut i: usize = start;
        while i < end
            invariant
                start <= i <= end <= self.segs@.len(),
                segs@ =~= self.segs@.subrange(start as int, i as int),
            decreases end - i,
        {
            segs.push(self.segs[i].clone());
            proof {
                assert(segs@ =~= self.segs@.subrange(start as int, (i + 1) as int));
            }
            i += 1;
        }
        proof {
            lemma_deep_view_points(&segs);
            lemma_deep_view_points(&self.segs);
            assert(segs.deep_view() =~~= self@.subrange(start as int, end as int));
        }
        SegPath { segs }
    }

    /// Whether `prefix`'s segments are an initial run of this path's.
    pub fn starts_with(&self, prefix: &SegPath) -> (r: bool)
        ensures
            r == is_prefix(prefix@, self@),
    {
        proof {
            lemma_deep_view_points(&self.segs);
            lemma_deep_view_points(&prefix.segs);
        }
        if prefix.segs.len() > self.segs.len() {
            return false;
        }
        let mut i: usize = 0;
        while i < prefix.segs.len()
            invariant
                prefix.segs@.len() <= self.segs@.len(),
                i <= prefix.segs@.len(),
                prefix@.len() == prefix.segs@.len(),
                self@.len() == self.segs@.len(),
                forall|j: int| 0 <= j < i ==> prefix@[j] == self@[j],
                forall|j: int| 0 <= j < prefix@.len() ==> prefix@[j] == prefix.segs@[j]@,
                forall|j: int| 0 <= j < self@.len() ==> self@[j] == self.segs@[j]@,
            decreases prefix@.len() - i,
        {
            if !(self.segs[i] == prefix.segs[i]) {
                proof {
                    assert(prefix@[i as int] != self@[i as int]);
                }
                return false;
            }
            i += 1;
        }
        true
    }

    /// The path with `prefix` stripped off the front, or `None` when
    /// `prefix` is no prefix of it.
    pub fn strip_prefix(&self, prefix: &SegPath) -> (r: Option<SegPath>)
        ensures
            r is Some <==> is_prefix(prefix@, self@),
            r matches Some(rest) ==> rest@ == self@.subrange(
                prefix@.len() as int,
                self@.len() as int,
            ),
    {
        if self.starts_with(prefix) {
            Some(self.slice(prefix.segs.len(), self.segs.len()))
        } else {
            None
        }
    }

    /// This path extended by all of `rel`'s segments.
    pub fn join(&self, rel: &SegPath) -> (r: SegPath)
        ensures
            r@ == self@ + rel@,
    {
        let ghost a: Seq<Seq<char>> = self@;
        let ghost b: Seq<Seq<char>> = rel@;
        let mut out = self.slice(0, self.segs.len());
        let mut add = rel.slice(0, rel.segs.len());
        proof {
            assert(out@ =~~= a);
            assert(add@ =~~= b);
            lemma_deep_view_points(&out.segs);
            lemma_deep_view_points(&add.segs);
        }
        out.segs.append(&mut add.segs);
        proof {
            lemma_deep_view_points(&out.segs);
            assert(out.segs.deep_view() =~~= a + b);
        }
        out
    }

    /// This path extended by one more segment.
    pub fn child(&self, name: &String) -> (r: SegPath)
        ensures
            r@ == self@.push(name@),
    {
        let ghost a: Seq<Seq<char>> = self@;
        let mut r = self.slice(0, self.segs.len());
        proof {
            assert(r@ =~~= a);
            lemma_deep_view_points(&r.segs);
        }
        r.segs.push(name.clone());
        proof {
            lemma_deep_view_points(&r.segs);
            assert(r.segs.deep_view() =~~= a.push(name@));
        }
        r
    }

    /// The path one level up (the root stays the root).
    pub fn parent(&self) -> (r: SegPath)
        ensures
            r@ == parent_of(self@),
    {
        if self.segs.len() == 0 {
            self.slice(0, 0)
        } else {
            self.slice(0, self.segs.len() - 1)
        }
    }
}

impl Clone for SegPath {
    fn clone(&self) -> (r: Self)
        ensures
            r@ == self@,
    {
        self.slice(0, self.segs.len())
    }
}

} // verus!
