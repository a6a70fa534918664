//! String-keyed association lists, read as maps: a later pair for a key
//! overrides an earlier one, as successive inserts into a map would.
use vstd::prelude::*;

verus! {

/// The map that the pairs of `s` describe, read from first to last.
pub open spec fn pairs_map(s: Seq<(String, String)>) -> Map<Seq<char>, Seq<char>>
    decreases s.len(),
{
    if s.len() == 0 {
        Map::empty()
    } else {
        pairs_map(s.drop_last()).insert(s.last().0@, s.last().1@)
    }
}

/// No key occurs twice.
pub open spec fn keys_unique(s: Seq<(String, String)>) -> bool {
    forall|i: int, j: int| 0 <= i < j < s.len() ==> s[i].0@ != s[j].0@
}

/// A key that no pair holds is not in the map.
pub proof fn lemma_pairs_map_absent(s: Seq<(String, String)>, k: Seq<char>)
    requires
        forall|j: int| 0 <= j < s.len() ==> s[j].0@ != k,
    ensures
        !pairs_map(s).contains_key(k),
    decreases s.len(),
{
    if s.len() > 0 {
        lemma_pairs_map_absent(s.drop_last(), k);
    }
}

/// The map holds, for a key, the value of the last pair with that key.
pub proof fn lemma_pairs_map_last(s: Seq<(String, String)>, i: int)
    requires
        0 <= i < s.len(),
        forall|j: int| i < j < s.len() ==> s[j].0@ != s[i].0@,
    ensures
        pairs_map(s).contains_key(s[i].0@),
        pairs_map(s)[s[i].0@] == s[i].1@,
    decreases s.len(),
{
    if i < s.len() - 1 {
        lemma_pairs_map_last(s.drop_last(), i);
    }
}

/// Replacing the last pair of a key by a pair with that key changes the map
/// at that key alone.
pub proof fn lemma_pairs_map_update(s: Seq<(String, String)>, i: int, p: (String, String))
    requires
        0 <= i < s.len(),
        p.0@ == s[i].0@,
        forall|j: int| i < j < s.len() ==> s[j].0@ != s[i].0@,
    ensures
        pairs_map(s.update(i, p)) == pairs_map(s).insert(p.0@, p.1@),
    decreases s.len(),
{
    let t = s.update(i, p);
    if i == s.len() - 1 {
        assert(t.drop_last() =~= s.drop_last());
        assert(pairs_map(t) =~= pairs_map(s).insert(p.0@, p.1@));
    } else {
        assert(t.drop_last() =~= s.drop_last().update(i, p));
        lemma_pairs_map_update(s.drop_last(), i, p);
        assert(pairs_map(t) =~= pairs_map(s).insert(p.0@, p.1@));
    }
}

/// Finds the position of the last pair whose key is `k`.
pub fn find_last(s: &Vec<(String, String)>, k: &String) -> (r: Option<usize>)
    ensures
        r is None ==> forall|j: int| 0 <= j < s@.len() ==> s@[j].0@ != k@,
        r is None ==> !pairs_map(s@).contains_key(k@),
        r is Some ==> {
            let i = r->Some_0 as int;
            &&& 0 <= i < s@.len()
            &&& s@[i].0@ == k@
            &&& forall|j: int| i < j < s@.len() ==> s@[j].0@ != k@
            &&& pairs_map(s@).contains_key(k@)
            &&& pairs_map(s@)[k@] == s@[i].1@
        },
{
    let mut i: usize = s.len();
    while i > 0
        invariant
            i <= s@.len(),
            forall|j: int| i <= j < s@.len() ==> s@[j].0@ != k@,
        decreases i,
    {
        i = i - 1;
        if s[i].0 == *k {
            proof {
                lemma_pairs_map_last(s@, i as int);
            }
            return Some(i);
        }
    }
    proof {
        lemma_pairs_map_absent(s@, k@);
    }
    None
}

} // verus!
