//! Positions in sequences and removing every copy of a value.
use vstd::prelude::*;

verus! {

/// `i` is the position of the first `x` in `s`.
pub open spec fn is_first_index<A>(s: Seq<A>, x: A, i: int) -> bool {
    &&& 0 <= i < s.len()
    &&& s[i] == x
    &&& forall|j: int| 0 <= j < i ==> s[j] != x
}

/// The position of the first `x` in `s`, where `s` holds one.
pub open spec fn first_index<A>(s: Seq<A>, x: A) -> int {
    choose|i: int| is_first_index(s, x, i)
}

/// The first position of `x` is the only position that is first.
pub proof fn lemma_first_index<A>(s: Seq<A>, x: A, i: int)
    requires
        is_first_index(s, x, i),
    ensures
        first_index(s, x) == i,
{
    let k = first_index(s, x);
    assert(is_first_index(s, x, k));
    if k < i {
        assert(s[k] != x);
    }
    if i < k {
        assert(s[i] != x);
    }
}

/// A sequence that holds `x` has a first position of `x`.
pub proof fn lemma_first_index_exists<A>(s: Seq<A>, x: A)
    requires
        s.contains(x),
    ensures
        is_first_index(s, x, first_index(s, x)),
    decreases s.len(),
{
    let d = s.drop_last();
    if d.contains(x) {
        lemma_first_index_exists(d, x);
        let i = first_index(d, x);
        assert(s[i] == d[i]);
        assert forall|j: int| 0 <= j < i implies s[j] != x by {
            assert(s[j] == d[j]);
        }
        assert(is_first_index(s, x, i));
        lemma_first_index(s, x, i);
    } else {
        let k = choose|k: int| 0 <= k < s.len() && s[k] == x;
        if k < s.len() - 1 {
            assert(d[k] == x);
        }
        assert forall|j: int| 0 <= j < s.len() - 1 implies s[j] != x by {
            if s[j] == x {
                assert(d[j] == x);
            }
        }
        assert(is_first_index(s, x, s.len() - 1));
        lemma_first_index(s, x, s.len() - 1);
    }
}

/// `s` with every `x` taken out, the rest in order.
pub open spec fn without<A>(s: Seq<A>, x: A) -> Seq<A>
    decreases s.len(),
{
    if s.len() == 0 {
        s
    } else if s.last() == x {
        without(s.drop_last(), x)
    } else {
        without(s.drop_last(), x).push(s.last())
    }
}

/// What is left after taking every `x` out holds no `x`, and holds every
/// other value of `s`.
pub proof fn lemma_without_contains<A>(s: Seq<A>, x: A, y: A)
    ensures
        without(s, x).contains(y) <==> (s.contains(y) && y != x),
    decreases s.len(),
{
    if s.len() > 0 {
        lemma_without_contains(s.drop_last(), x, y);
        let d = s.drop_last();
        if s.contains(y) && y != x {
            let i = choose|i: int| 0 <= i < s.len() && s[i] == y;
            if i < s.len() - 1 {
                assert(d[i] == y);
            }
        }
        if d.contains(y) {
            let i = choose|i: int| 0 <= i < d.len() && d[i] == y;
            assert(s[i] == y);
        }
        if s.last() != x {
            let w = without(d, x);
            if w.push(s.last()).contains(y) && y != s.last() {
                let i = choose|i: int| 0 <= i < w.push(s.last()).len() && w.push(s.last())[i] == y;
                assert(w[i] == y);
            }
            if w.contains(y) {
                let i = choose|i: int| 0 <= i < w.len() && w[i] == y;
                assert(w.push(s.last())[i] == y);
            }
            assert(w.push(s.last())[w.len() as int] == s.last());
        }
    }
}

/// Taking a value out never lengthens a sequence, and shortens one that
/// holds it.
pub proof fn lemma_without_len<A>(s: Seq<A>, x: A)
    ensures
        without(s, x).len() <= s.len(),
        s.contains(x) ==> without(s, x).len() < s.len(),
    decreases s.len(),
{
    if s.len() > 0 {
        let d = s.drop_last();
        lemma_without_len(d, x);
        if s.contains(x) && s.last() != x {
            let i = choose|i: int| 0 <= i < s.len() && s[i] == x;
            if i < s.len() - 1 {
                assert(d[i] == x);
            } else {
                assert(s[i] == s.last());
            }
        }
    }
}

/// Taking `x` out of `s` followed by `y` is taking it out of `s`, then
/// adding `y` if it is not `x`.
pub proof fn lemma_without_push<A>(s: Seq<A>, x: A, y: A)
    ensures
        without(s.push(y), x) == if y == x { without(s, x) } else { without(s, x).push(y) },
{
    assert(s.push(y).drop_last() =~= s);
}

/// Taking out a value that is not there changes nothing.
pub proof fn lemma_without_absent<A>(s: Seq<A>, x: A)
    requires
        !s.contains(x),
    ensures
        without(s, x) == s,
    decreases s.len(),
{
    if s.len() > 0 {
        let d = s.drop_last();
        if d.contains(x) {
            let i = choose|i: int| 0 <= i < d.len() && d[i] == x;
            assert(s[i] == x);
        }
        lemma_without_absent(d, x);
        assert(s.last() != x) by {
            assert(s[s.len() - 1] == s.last());
        }
        assert(d.push(s.last()) =~= s);
    }
}

/// The position of the first `x` in `v`, or `None` if `v` holds no `x`.
pub fn position_of(v: &Vec<u64>, x: u64) -> (r: Option<usize>)
    ensures
        match r {
            Some(i) => is_first_index(v@, x, i as int) && v@.contains(x) && first_index(v@, x) == i,
            None => !v@.contains(x),
        },
{
    let mut i: usize = 0;
    while i < v.len()
        invariant
            i <= v@.len(),
            forall|j: int| 0 <= j < i ==> v@[j] != x,
        decreases v@.len() - i,
    {
        if v[i] == x {
            proof {
                assert(is_first_index(v@, x, i as int));
                lemma_first_index(v@, x, i as int);
            }
            return Some(i);
        }
        i += 1;
    }
    None
}

/// `v` with every `x` taken out, the rest in order.
pub fn retain_not_equal(v: &mut Vec<u64>, x: u64)
    ensures
        final(v)@ == without(old(v)@, x),
{
    let mut kept: Vec<u64> = Vec::new();
    let mut i: usize = 0;
    while i < v.len()
        invariant
            i <= v@.len(),
            v@ == old(v)@,
            kept@ == without(old(v)@.take(i as int), x),
        decreases v@.len() - i,
    {
        proof {
            lemma_without_push(old(v)@.take(i as int), x, old(v)@[i as int]);
            assert(old(v)@.take(i as int).push(old(v)@[i as int]) =~= old(v)@.take(i + 1));
        }
        if v[i] != x {
            kept.push(v[i]);
        }
        i += 1;
    }
    proof {
        assert(old(v)@.take(v@.len() as int) =~= old(v)@);
    }
    *v = kept;
}

} // verus!
