//! Duplicate-free vectors used as finite sets.
//!
//! The node state machines keep their sets of broadcast values and node
//! names in plain vectors without duplicates; the contracts speak of the
//! mathematical set of elements (`to_set` of the sequence view).

use vstd::prelude::*;

verus! {

broadcast use vstd::seq_lib::group_seq_properties;

/// Whether a value vector holds `x`.
pub fn vec_set_contains(v: &Vec<usize>, x: usize) -> (r: bool)
    ensures
        r == v@.contains(x),
{
    let mut i: usize = 0;
    while i < v.len()
        invariant
            0 <= i <= v@.len(),
            forall|j: int| 0 <= j < i ==> v@[j] != x,
        decreases v@.len() - i,
    {
        if v[i] == x {
            return true;
        }
        i += 1;
    }
    false
}

/// Add `x` to a duplicate-free value vector, as a set insertion.
pub fn vec_set_insert(v: &mut Vec<usize>, x: usize)
    requires
        old(v)@.no_duplicates(),
    ensures
        final(v)@.no_duplicates(),
        final(v)@.to_set() == old(v)@.to_set().insert(x),
{
    let present = vec_set_contains(v, x);
    if !present {
        v.push(x);
        proof {
            assert(v@.to_set() =~= old(v)@.to_set().insert(x));
        }
    } else {
        proof {
            assert(v@.to_set() =~= old(v)@.to_set().insert(x));
        }
    }
}

/// Union a value vector into a duplicate-free value vector.
pub fn vec_set_merge(dst: &mut Vec<usize>, src: &Vec<usize>)
    requires
        old(dst)@.no_duplicates(),
    ensures
        final(dst)@.no_duplicates(),
        final(dst)@.to_set() == old(dst)@.to_set().union(src@.to_set()),
{
    let mut i: usize = 0;
    while i < src.len()
        invariant
            0 <= i <= src@.len(),
            dst@.no_duplicates(),
            dst@.to_set() == old(dst)@.to_set().union(src@.take(i as int).to_set()),
        decreases src@.len() - i,
    {
        let ghost prev = dst@.to_set();
        vec_set_insert(dst, src[i]);
        proof {
            assert(src@.take(i + 1) =~= src@.take(i as int).push(src@[i as int]));
            src@.take(i as int).lemma_push_to_set_commute(src@[i as int]);
            assert(dst@.to_set() =~= old(dst)@.to_set().union(src@.take(i + 1).to_set()));
        }
        i += 1;
    }
    proof {
        assert(src@.take(src@.len() as int) =~= src@);
    }
}

/// Remove every element of `src` from a duplicate-free value vector, as a
/// set difference.
pub fn vec_set_remove_all(dst: &mut Vec<usize>, src: &Vec<usize>)
    requires
        old(dst)@.no_duplicates(),
    ensures
        final(dst)@.no_duplicates(),
        final(dst)@.to_set() == old(dst)@.to_set().difference(src@.to_set()),
{
    let mut kept: Vec<usize> = Vec::new();
    let mut i: usize = 0;
    while i < dst.len()
        invariant
            0 <= i <= dst@.len(),
            dst@.no_duplicates(),
            kept@.no_duplicates(),
            forall|y: usize| kept@.contains(y) <==> (dst@.take(i as int).contains(y)
                && !src@.contains(y)),
        decreases dst@.len() - i,
    {
        let e = dst[i];
        let drop = vec_set_contains(src, e);
        if !drop {
            proof {
                if kept@.contains(e) {
                    assert(dst@.take(i as int).contains(e));
                    let j = choose|j: int| 0 <= j < i && dst@.take(i as int)[j] == e;
                    assert(dst@[j] == dst@[i as int]);
                }
            }
            kept.push(e);
        }
        proof {
            assert(dst@.take(i + 1) =~= dst@.take(i as int).push(dst@[i as int]));
        }
        i += 1;
    }
    proof {
        assert(dst@.take(dst@.len() as int) =~= dst@);
    }
    *dst = kept;
    proof {
        assert(dst@.to_set() =~= old(dst)@.to_set().difference(src@.to_set()));
    }
}

/// Remove one value from a duplicate-free value vector, as a set removal.
pub fn vec_set_remove(v: &mut Vec<usize>, x: usize)
    requires
        old(v)@.no_duplicates(),
    ensures
        final(v)@.no_duplicates(),
        final(v)@.to_set() == old(v)@.to_set().remove(x),
{
    let mut single: Vec<usize> = Vec::new();
    single.push(x);
    vec_set_remove_all(v, &single);
    proof {
        assert(single@ =~= seq![x]);
        assert(single@.to_set() =~= Set::empty().insert(x));
        assert(v@.to_set() =~= old(v)@.to_set().remove(x));
    }
}

/// Clone a value vector, keeping its exact contents.
pub fn clone_values(v: &Vec<usize>) -> (r: Vec<usize>)
    ensures
        r@ == v@,
{
    let r = v.clone();
    proof {
        assert(r@ =~= v@);
    }
    r
}

/// Clone a name vector, keeping the exact sequence of names.
pub fn clone_names(v: &Vec<String>) -> (r: Vec<String>)
    ensures
        r.deep_view() == v.deep_view(),
{
    let r = v.clone();
    proof {
        assert forall|i: int| 0 <= i < r@.len() implies r.deep_view()[i] == v.deep_view()[i] by {
            assert(cloned::<String>(v@[i], r@[i]));
        }
        assert(r.deep_view() =~= v.deep_view());
    }
    r
}

/// Whether a vector of node names holds the name `x`.
pub fn vec_names_contains(v: &Vec<String>, x: &String) -> (r: bool)
    ensures
        r == v.deep_view().contains(x@),
{
    let mut i: usize = 0;
    while i < v.len()
        invariant
            0 <= i <= v@.len(),
            forall|j: int| 0 <= j < i ==> v.deep_view()[j] != x@,
        decreases v@.len() - i,
    {
        if v[i].eq(x) {
            proof {
                assert(v.deep_view()[i as int] == x@);
            }
            return true;
        }
        i += 1;
    }
    false
}

/// Add a name to a duplicate-free name vector, as a set insertion.
pub fn vec_names_insert(v: &mut Vec<String>, x: &String)
    requires
        old(v).deep_view().no_duplicates(),
    ensures
        final(v).deep_view().no_duplicates(),
        final(v).deep_view().to_set() == old(v).deep_view().to_set().insert(x@),
{
    let present = vec_names_contains(v, x);
    if !present {
        let ghost pre = v.deep_view();
        v.push(x.clone());
        proof {
            assert(v@.last() == x);
            assert(v.deep_view() =~= pre.push(x@));
            pre.lemma_push_to_set_commute(x@);
        }
    } else {
        proof {
            assert(v.deep_view().to_set() =~= old(v).deep_view().to_set().insert(x@));
        }
    }
}

/// Union a name vector into a duplicate-free name vector.
pub fn vec_names_merge(dst: &mut Vec<String>, src: &Vec<String>)
    requires
        old(dst).deep_view().no_duplicates(),
    ensures
        final(dst).deep_view().no_duplicates(),
        final(dst).deep_view().to_set() == old(dst).deep_view().to_set().union(
            src.deep_view().to_set(),
        ),
{
    let mut i: usize = 0;
    while i < src.len()
        invariant
            0 <= i <= src@.len(),
            dst.deep_view().no_duplicates(),
            dst.deep_view().to_set() == old(dst).deep_view().to_set().union(
                src.deep_view().take(i as int).to_set(),
            ),
        decreases src@.len() - i,
    {
        vec_names_insert(dst, &src[i]);
        proof {
            assert(src.deep_view().take(i + 1) =~= src.deep_view().take(i as int).push(
                src.deep_view()[i as int],
            ));
            src.deep_view().take(i as int).lemma_push_to_set_commute(src.deep_view()[i as int]);
            assert(dst.deep_view().to_set() =~= old(dst).deep_view().to_set().union(
                src.deep_view().take(i + 1).to_set(),
            ));
        }
        i += 1;
    }
    proof {
        assert(src.deep_view().take(src@.len() as int) =~= src.deep_view());
    }
}

} // verus!
