//! The path resolver: maps a canonical source path to its deterministic
//! location under the cache root.
//!
//! Paths are handled as sequences of components below the filesystem root,
//! the form canonicalization leaves them in. If the source lies under the
//! cache root's parent, the part below that parent is mirrored beneath the
//! cache root; otherwise the whole component sequence is mirrored. Either
//! way the mapping is a pure function of (cache root, source), and sources
//! handled by the same rule never collide.

use vstd::prelude::*;

use crate::str_views;

verus! {

/// Whether `p` is a prefix of `q`, component by component.
pub open spec fn is_path_prefix(p: Seq<Seq<char>>, q: Seq<Seq<char>>) -> bool {
    p.len() <= q.len() && p == q.subrange(0, p.len() as int)
}

/// The parent of the cache root: all its components but the last. The
/// filesystem root itself (no components) has no parent and keeps none.
pub open spec fn root_parent(root: Seq<Seq<char>>) -> Seq<Seq<char>> {
    if root.len() > 0 {
        root.drop_last()
    } else {
        root
    }
}

/// The cache location for a source path: the cache root, followed by the
/// source's components below the cache root's parent when the source lies
/// under it, and by all of the source's components otherwise.
pub open spec fn resolved_cache_path(root: Seq<Seq<char>>, source: Seq<Seq<char>>) -> Seq<
    Seq<char>,
> {
    if root.len() > 0 && is_path_prefix(root_parent(root), source) {
        root + source.skip(root_parent(root).len() as int)
    } else {
        root + source
    }
}

/// Decides whether `p` names a component-wise prefix of `q`.
fn is_prefix_of(p: &Vec<String>, q: &Vec<String>) -> (r: bool)
    ensures
        r == is_path_prefix(str_views(p@), str_views(q@)),
{
    if p.len() > q.len() {
        proof {
            assert(str_views(p@).len() == p@.len());
            assert(str_views(q@).len() == q@.len());
        }
        return false;
    }
    let mut j: usize = 0;
    while j < p.len()
        invariant
            0 <= j <= p@.len() <= q@.len(),
            forall|m: int| 0 <= m < j ==> str_views(p@)[m] == str_views(q@)[m],
        decreases p@.len() - j,
    {
        if !string_eq(&p[j], &q[j]) {
            proof {
                let pv = str_views(p@);
                let qv = str_views(q@);
                assert(pv[j as int] == p@[j as int]@);
                assert(qv[j as int] == q@[j as int]@);
                assert(qv.subrange(0, pv.len() as int)[j as int] == qv[j as int]);
            }
            return false;
        }
        j = j + 1;
    }
    proof {
        assert(str_views(p@) =~= str_views(q@).subrange(
            0,
            str_views(p@).len() as int,
        ));
    }
    true
}

/// Compares two owned strings character for character.
fn string_eq(a: &String, b: &String) -> (r: bool)
    ensures
        r == (a@ == b@),
{
    a.eq(b)
}

/// Maps a canonical source path to its location under the cache root,
/// mirroring the source's structure so that the same source always lands on
/// the same cache file.
pub fn resolve_cache_path(cache_root: &Vec<String>, source: &Vec<String>) -> (r: Vec<String>)
    ensures
        str_views(r@) == resolved_cache_path(
            str_views(cache_root@),
            str_views(source@),
        ),
{
    let ghost rootv = str_views(cache_root@);
    let ghost sourcev = str_views(source@);
    let mut r: Vec<String> = Vec::new();
    proof {
        assert(str_views(r@) =~= str_views(cache_root@).subrange(0, 0));
    }
    let mut j: usize = 0;
    while j < cache_root.len()
        invariant
            0 <= j <= cache_root@.len(),
            str_views(r@) == str_views(cache_root@).subrange(0, j as int),
        decreases cache_root@.len() - j,
    {
        let ghost prev = r@;
        r.push(cache_root[j].clone());
        proof {
            assert(str_views(r@) =~= str_views(prev).push(cache_root@[j as int]@));
            assert(str_views(r@) =~= str_views(cache_root@).subrange(0, j + 1));
        }
        j = j + 1;
    }
    proof {
        assert(str_views(cache_root@).subrange(0, cache_root@.len() as int) =~= rootv);
    }
    let skip_count: usize = if cache_root.len() > 0 {
        let mut parent: Vec<String> = Vec::new();
        proof {
            assert(str_views(parent@) =~= str_views(cache_root@).subrange(0, 0));
        }
        let mut m: usize = 0;
        let last = cache_root.len() - 1;
        while m < last
            invariant
                cache_root@.len() > 0,
                last == cache_root@.len() - 1,
                0 <= m <= last,
                str_views(parent@) == str_views(cache_root@).subrange(0, m as int),
        decreases cache_root@.len() - m,
        {
            let ghost prev = parent@;
            parent.push(cache_root[m].clone());
            proof {
                assert(str_views(parent@) =~= str_views(prev).push(
                    cache_root@[m as int]@,
                ));
                assert(str_views(parent@) =~= str_views(cache_root@).subrange(
                    0,
                    m + 1,
                ));
            }
            m = m + 1;
        }
        proof {
            assert(str_views(cache_root@).subrange(0, cache_root@.len() - 1)
                =~= root_parent(rootv));
        }
        if is_prefix_of(&parent, source) {
            parent.len()
        } else {
            0
        }
    } else {
        0
    };
    proof {
        if rootv.len() > 0 && is_path_prefix(root_parent(rootv), sourcev) {
            assert(skip_count == root_parent(rootv).len());
        } else {
            assert(skip_count == 0);
            assert(sourcev.skip(0) =~= sourcev);
        }
    }
    proof {
        assert(str_views(r@) =~= rootv + str_views(source@).subrange(
            skip_count as int,
            skip_count as int,
        ));
    }
    let mut j: usize = skip_count;
    while j < source.len()
        invariant
            skip_count <= j <= source@.len(),
            str_views(r@) == rootv + str_views(source@).subrange(
                skip_count as int,
                j as int,
            ),
        decreases source@.len() - j,
    {
        let ghost prev = r@;
        r.push(source[j].clone());
        proof {
            assert(str_views(r@) =~= str_views(prev).push(source@[j as int]@));
            assert(str_views(r@) =~= rootv + str_views(source@).subrange(
                skip_count as int,
                j + 1,
            ));
        }
        j = j + 1;
    }
    proof {
        assert(str_views(source@).subrange(skip_count as int, source@.len() as int)
            =~= sourcev.skip(skip_count as int));
        assert(str_views(r@) =~= resolved_cache_path(rootv, sourcev));
    }
    r
}

/// The mapping is a pure function of its inputs: the same (cache root,
/// source) pair resolves to the same cache location, run after run.
pub proof fn lemma_resolve_deterministic(
    root1: Seq<Seq<char>>,
    source1: Seq<Seq<char>>,
    root2: Seq<Seq<char>>,
    source2: Seq<Seq<char>>,
)
    requires
        root1 == root2,
        source1 == source2,
    ensures
        resolved_cache_path(root1, source1) == resolved_cache_path(root2, source2),
{
}

/// Distinct canonical sources resolve to distinct cache locations, provided
/// the same mapping rule covers both: either both lie under the cache root's
/// parent, or neither does.
pub proof fn lemma_resolve_injective(
    root: Seq<Seq<char>>,
    source1: Seq<Seq<char>>,
    source2: Seq<Seq<char>>,
)
    requires
        source1 != source2,
        is_path_prefix(root_parent(root), source1) == is_path_prefix(root_parent(root), source2),
    ensures
        resolved_cache_path(root, source1) != resolved_cache_path(root, source2),
{
    let parent = root_parent(root);
    if root.len() > 0 && is_path_prefix(parent, source1) {
        let k = parent.len() as int;
        root.lemma_concat_injective(source1.skip(k), source2.skip(k));
        if source1.skip(k) == source2.skip(k) {
            assert(source1 =~= parent + source1.skip(k)) by {
                assert(source1.subrange(0, k) == parent);
            }
            assert(source2 =~= parent + source2.skip(k)) by {
                assert(source2.subrange(0, k) == parent);
            }
        }
    } else {
        root.lemma_concat_injective(source1, source2);
    }
}

} // verus!
