//! Name order and a stable insertion sort of entry positions by name.
use vstd::prelude::*;
use vstd::string::*;

use crate::filters::views;

verus! {

/// Lexicographic order on character sequences, by code point: on UTF-8 names
/// this is the byte order that file names compare by.
pub open spec fn name_less(a: Seq<char>, b: Seq<char>) -> bool
    decreases a.len(),
{
    if a.len() == 0 {
        b.len() > 0
    } else if b.len() == 0 {
        false
    } else if a[0] != b[0] {
        (a[0] as u32) < (b[0] as u32)
    } else {
        name_less(a.drop_first(), b.drop_first())
    }
}

/// `s`, sorted by key, with `x` placed after every element whose key is not
/// greater than its own.
pub open spec fn insert_by_name(keys: Seq<Seq<char>>, s: Seq<usize>, x: usize) -> Seq<usize>
    decreases s.len(),
{
    if s.len() == 0 {
        seq![x]
    } else if !name_less(keys[x as int], keys[s.last() as int]) {
        s.push(x)
    } else {
        insert_by_name(keys, s.drop_last(), x).push(s.last())
    }
}

/// The positions of `s` sorted by their keys; equal keys keep their order.
pub open spec fn sort_by_name(keys: Seq<Seq<char>>, s: Seq<usize>) -> Seq<usize>
    decreases s.len(),
{
    if s.len() == 0 {
        Seq::empty()
    } else {
        insert_by_name(keys, sort_by_name(keys, s.drop_last()), s.last())
    }
}

/// Whether `a` comes before `b` in name order.
pub(crate) fn less_name(a: &str, b: &str) -> (r: bool)
    ensures
        r == name_less(a@, b@),
{
    let n = a.unicode_len();
    let m = b.unicode_len();
    let mut k: usize = 0;
    assert(a@.subrange(0, n as int) =~= a@);
    assert(b@.subrange(0, m as int) =~= b@);
    while k < n && k < m && a.get_char(k) == b.get_char(k)
        invariant
            n == a@.len(),
            m == b@.len(),
            k <= n,
            k <= m,
            name_less(a@, b@) == name_less(
                a@.subrange(k as int, n as int),
                b@.subrange(k as int, m as int),
            ),
        decreases n - k,
    {
        assert(a@.subrange(k as int, n as int).drop_first() =~= a@.subrange(k + 1, n as int));
        assert(b@.subrange(k as int, m as int).drop_first() =~= b@.subrange(k + 1, m as int));
        k = k + 1;
    }
    if k == n {
        k < m
    } else if k == m {
        false
    } else {
        (a.get_char(k) as u32) < (b.get_char(k) as u32)
    }
}

/// Moving the insertion point one place to the left.
proof fn lemma_insert_step(keys: Seq<Seq<char>>, s: Seq<usize>, x: usize, p: int)
    requires
        0 < p <= s.len(),
        name_less(keys[x as int], keys[s[p - 1] as int]),
    ensures
        insert_by_name(keys, s.subrange(0, p), x) + s.subrange(p, s.len() as int) == insert_by_name(
            keys,
            s.subrange(0, p - 1),
            x,
        ) + s.subrange(p - 1, s.len() as int),
{
    let pre = s.subrange(0, p);
    assert(pre.drop_last() =~= s.subrange(0, p - 1));
    assert(pre.last() == s[p - 1]);
    let a = insert_by_name(keys, s.subrange(0, p - 1), x);
    assert(a.push(s[p - 1]) + s.subrange(p, s.len() as int) =~= a + s.subrange(
        p - 1,
        s.len() as int,
    ));
}

/// Inserts `x` into `v`, already sorted by the names that `names` gives.
pub(crate) fn insert_sorted(names: &Vec<String>, v: &mut Vec<usize>, x: usize)
    requires
        x < names@.len(),
        forall|j: int| 0 <= j < old(v)@.len() ==> old(v)@[j] < names@.len(),
    ensures
        final(v)@ == insert_by_name(views(names@), old(v)@, x),
        forall|j: int| 0 <= j < final(v)@.len() ==> final(v)@[j] < names@.len(),
{
    let ghost keys = views(names@);
    let ghost s = v@;
    let mut p: usize = v.len();
    assert(s.subrange(0, s.len() as int) =~= s);
    assert(s.subrange(s.len() as int, s.len() as int) =~= Seq::<usize>::empty());
    while p > 0 && less_name(names[x].as_str(), names[v[p - 1]].as_str())
        invariant
            v@ == s,
            p <= s.len(),
            x < names@.len(),
            keys == views(names@),
            forall|j: int| 0 <= j < s.len() ==> s[j] < names@.len(),
            insert_by_name(keys, s, x) == insert_by_name(keys, s.subrange(0, p as int), x)
                + s.subrange(p as int, s.len() as int),
        decreases p,
    {
        proof {
            lemma_insert_step(keys, s, x, p as int);
        }
        p = p - 1;
    }
    proof {
        let pre = s.subrange(0, p as int);
        if p > 0 {
            assert(pre.last() == s[p - 1]);
        }
        assert(insert_by_name(keys, pre, x) =~= pre.push(x));
        assert(pre.push(x) + s.subrange(p as int, s.len() as int) =~= s.insert(p as int, x));
    }
    v.insert(p, x);
}

} // verus!
