//! Paths, held as their components.
//!
//! The engine never touches the filesystem itself, so a path is just the
//! sequence of names that the caller will join with the platform separator.
//! The first component may be an absolute prefix (the home directory as one
//! string); every later component is a plain name.

use vstd::prelude::*;

verus! {

proof fn lemma_deep_view_push(v: Vec<String>, prev: Vec<String>, x: String)
    requires
        v@ == prev@.push(x),
    ensures
        v.deep_view() == prev.deep_view().push(x@),
{
    assert forall|j: int| 0 <= j < v@.len() implies v.deep_view()[j]
        == prev.deep_view().push(x@)[j] by {
        assert(v.deep_view()[j] == v@[j].deep_view());
        if j < prev@.len() {
            assert(v@[j] == prev@[j]);
            assert(prev.deep_view()[j] == prev@[j].deep_view());
        } else {
            assert(v@[j] == x);
        }
    }
    assert(v.deep_view() =~= prev.deep_view().push(x@));
}

/// A filesystem path as a sequence of components.
#[derive(Debug, PartialEq, Eq)]
pub struct DotPath {
    pub parts: Vec<String>,
}

impl View for DotPath {
    type V = Seq<Seq<char>>;

    open spec fn view(&self) -> Seq<Seq<char>> {
        self.parts.deep_view()
    }
}

impl Clone for DotPath {
    fn clone(&self) -> (res: Self)
        ensures
            res@ == self@,
    {
        let mut parts: Vec<String> = Vec::new();
        let mut i: usize = 0;
        while i < self.parts.len()
            invariant
                i <= self.parts.len(),
                parts@.len() == i,
                forall|j: int| 0 <= j < i ==> parts@[j] == self.parts@[j],
            decreases self.parts.len() - i,
        {
            parts.push(self.parts[i].clone());
            i = i + 1;
        }
        proof {
            assert(parts.deep_view() =~= self.parts.deep_view());
        }
        DotPath { parts }
    }
}

impl DotPath {
    /// The path with one more component at the end.
    pub fn join(&self, name: &str) -> (r: DotPath)
        ensures
            r@ == self@.push(name@),
    {
        let mut out = self.clone();
        out.parts.push(name.to_owned());
        proof {
            assert(out.parts.deep_view() =~= self@.push(name@));
        }
        out
    }

    /// The path with a whole relative path appended.
    pub fn extend(&self, rel: &Vec<String>) -> (r: DotPath)
        ensures
            r@ == self@ + rel.deep_view(),
    {
        let mut out = self.clone();
        proof {
            assert(self@ + rel.deep_view().take(0) =~= self@);
        }
        let mut i: usize = 0;
        while i < rel.len()
            invariant
                i <= rel.len(),
                out@ == self@ + rel.deep_view().take(i as int),
            decreases rel.len() - i,
        {
            let ghost prev = out.parts;
            let x = rel[i].clone();
            let ghost gx = x;
            out.parts.push(x);
            i = i + 1;
            proof {
                lemma_deep_view_push(out.parts, prev, gx);
                assert(rel.deep_view()[i - 1] == gx@);
                assert(self@ + rel.deep_view().take(i as int) =~= (self@
                    + rel.deep_view().take(i - 1)).push(rel.deep_view()[i - 1]));
            }
        }
        proof {
            assert(rel.deep_view().take(rel@.len() as int) =~= rel.deep_view());
        }
        out
    }

    /// The last component, if the path has one.
    pub fn file_name(&self) -> (r: Option<&String>)
        ensures
            match r {
                Some(s) => self@.len() > 0 && s@ == self@.last(),
                None => self@.len() == 0,
            },
    {
        if self.parts.len() > 0 {
            Some(&self.parts[self.parts.len() - 1])
        } else {
            None
        }
    }

    pub fn len(&self) -> (n: usize)
        ensures
            n == self@.len(),
    {
        self.parts.len()
    }
}

} // verus!
