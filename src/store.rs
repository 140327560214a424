//! Index entries and their store: a sequence of entries with distinct keys,
//! viewed as a map from key to entry.

use vstd::prelude::*;

verus! {

/// One indexed book.
pub struct CacheItem {
    /// The key of `relative_path`; also the name of its cover file.
    pub key: String,
    /// The archive's path relative to the library root.
    pub relative_path: String,
    /// The archive's modification time, in milliseconds since the epoch,
    /// when it was indexed.
    pub last_modified: u128,
    /// The title shown for the book.
    pub title: String,
    /// Whether a cover was found for the book.
    pub has_cover: bool,
}

impl CacheItem {
    /// A copy of the entry.
    pub fn duplicate(&self) -> (r: CacheItem)
        ensures
            r == *self,
    {
        CacheItem {
            key: self.key.clone(),
            relative_path: self.relative_path.clone(),
            last_modified: self.last_modified,
            title: self.title.clone(),
            has_cover: self.has_cover,
        }
    }
}

/// The entries of a sequence by key; a later entry hides an earlier one of
/// the same key.
pub open spec fn entries(s: Seq<CacheItem>) -> Map<Seq<char>, CacheItem>
    decreases s.len(),
{
    if s.len() == 0 {
        Map::empty()
    } else {
        entries(s.drop_last()).insert(s.last().key@, s.last())
    }
}

/// No two entries of the sequence share a key.
pub open spec fn distinct_keys(s: Seq<CacheItem>) -> bool {
    forall|i: int, j: int| 0 <= i < j < s.len() ==> s[i].key@ != s[j].key@
}

/// The sequence without the entries of key `k`, order kept.
pub open spec fn without(s: Seq<CacheItem>, k: Seq<char>) -> Seq<CacheItem>
    decreases s.len(),
{
    if s.len() == 0 {
        s
    } else if s.last().key@ == k {
        without(s.drop_last(), k)
    } else {
        without(s.drop_last(), k).push(s.last())
    }
}

pub proof fn lemma_entries_dom(s: Seq<CacheItem>, k: Seq<char>)
    ensures
        entries(s).contains_key(k) <==> exists|i: int| 0 <= i < s.len() && s[i].key@ == k,
    decreases s.len(),
{
    if s.len() > 0 {
        lemma_entries_dom(s.drop_last(), k);
        if entries(s.drop_last()).contains_key(k) {
            let i = choose|i: int| 0 <= i < s.drop_last().len() && s.drop_last()[i].key@ == k;
            assert(s[i].key@ == k);
        }
        if exists|i: int| 0 <= i < s.len() && s[i].key@ == k {
            let i = choose|i: int| 0 <= i < s.len() && s[i].key@ == k;
            if i < s.len() - 1 {
                assert(s.drop_last()[i].key@ == k);
            }
        }
    }
}

pub proof fn lemma_entries_at(s: Seq<CacheItem>, i: int)
    requires
        distinct_keys(s),
        0 <= i < s.len(),
    ensures
        entries(s).contains_key(s[i].key@),
        entries(s)[s[i].key@] == s[i],
    decreases s.len(),
{
    if i < s.len() - 1 {
        assert(distinct_keys(s.drop_last()));
        lemma_entries_at(s.drop_last(), i);
        assert(s.drop_last()[i] == s[i]);
    }
}

pub proof fn lemma_without(s: Seq<CacheItem>, k: Seq<char>)
    ensures
        entries(without(s, k)) == entries(s).remove(k),
        forall|i: int| 0 <= i < without(s, k).len() ==> (#[trigger] without(s, k)[i]).key@ != k,
        forall|i: int|
            0 <= i < without(s, k).len() ==> exists|j: int|
                0 <= j < s.len() && s[j] == #[trigger] without(s, k)[i],
        distinct_keys(s) ==> distinct_keys(without(s, k)),
    decreases s.len(),
{
    if s.len() > 0 {
        let d = s.drop_last();
        lemma_without(d, k);
        let w = without(d, k);
        if s.last().key@ == k {
            assert(entries(s).remove(k) =~= entries(d).remove(k));
            assert forall|i: int| 0 <= i < w.len() implies exists|j: int|
                0 <= j < s.len() && s[j] == #[trigger] w[i] by {
                let j = choose|j: int| 0 <= j < d.len() && d[j] == w[i];
                assert(s[j] == d[j]);
            }
            if distinct_keys(s) {
                assert(distinct_keys(d));
            }
        } else {
            let x = s.last();
            assert(w.push(x).drop_last() =~= w);
            assert(entries(w.push(x)) == entries(w).insert(x.key@, x));
            assert(entries(s).remove(k) =~= entries(d).remove(k).insert(x.key@, x));
            assert forall|i: int| 0 <= i < w.push(x).len() implies exists|j: int|
                0 <= j < s.len() && s[j] == #[trigger] w.push(x)[i] by {
                if i < w.len() {
                    let j = choose|j: int| 0 <= j < d.len() && d[j] == w[i];
                    assert(s[j] == d[j]);
                    assert(w.push(x)[i] == w[i]);
                } else {
                    assert(s[s.len() - 1] == w.push(x)[i]);
                }
            }
            if distinct_keys(s) {
                assert(distinct_keys(d));
                assert forall|a: int, b: int| 0 <= a < b < w.push(x).len() implies w.push(x)[a].key@
                    != w.push(x)[b].key@ by {
                    if b == w.len() {
                        let j = choose|j: int| 0 <= j < d.len() && d[j] == w[a];
                        assert(s[j] == w[a]);
                        assert(s[s.len() - 1] == x);
                    } else {
                        assert(w.push(x)[a] == w[a]);
                        assert(w.push(x)[b] == w[b]);
                    }
                }
            }
        }
    }
}

/// Where the entry of key `k` stands, if there is one.
pub fn find_key(s: &Vec<CacheItem>, k: &String) -> (r: Option<usize>)
    requires
        distinct_keys(s@),
    ensures
        r is None ==> !entries(s@).contains_key(k@),
        r matches Some(i) ==> i < s@.len() && s@[i as int].key@ == k@ && entries(s@).contains_key(
            k@,
        ) && entries(s@)[k@] == s@[i as int],
{
    let mut i: usize = 0;
    while i < s.len()
        invariant
            distinct_keys(s@),
            i <= s@.len(),
            forall|j: int| 0 <= j < i ==> s@[j].key@ != k@,
        decreases s.len() - i,
    {
        if s[i].key == *k {
            proof {
                lemma_entries_at(s@, i as int);
            }
            return Some(i);
        }
        i += 1;
    }
    proof {
        lemma_entries_dom(s@, k@);
    }
    None
}

/// `s` without the entries of key `k`.
pub fn remove_key(s: &Vec<CacheItem>, k: &String) -> (r: Vec<CacheItem>)
    ensures
        r@ == without(s@, k@),
{
    let mut out: Vec<CacheItem> = Vec::new();
    let mut i: usize = 0;
    while i < s.len()
        invariant
            i <= s@.len(),
            out@ == without(s@.subrange(0, i as int), k@),
        decreases s.len() - i,
    {
        assert(s@.subrange(0, i + 1).drop_last() =~= s@.subrange(0, i as int));
        if s[i].key != *k {
            out.push(s[i].duplicate());
        }
        i += 1;
    }
    assert(s@.subrange(0, s@.len() as int) =~= s@);
    out
}

/// `s` with `item` in place of any entry of its key.
pub open spec fn upserted(s: Seq<CacheItem>, item: CacheItem) -> Seq<CacheItem> {
    without(s, item.key@).push(item)
}

pub proof fn lemma_upserted(s: Seq<CacheItem>, item: CacheItem)
    ensures
        entries(upserted(s, item)) == entries(s).insert(item.key@, item),
        distinct_keys(s) ==> distinct_keys(upserted(s, item)),
{
    let w = without(s, item.key@);
    lemma_without(s, item.key@);
    assert(w.push(item).drop_last() =~= w);
    assert(entries(s).remove(item.key@).insert(item.key@, item) =~= entries(s).insert(
        item.key@,
        item,
    ));
    if distinct_keys(s) {
        assert forall|a: int, b: int| 0 <= a < b < w.push(item).len() implies w.push(item)[a].key@
            != w.push(item)[b].key@ by {
            assert(w.push(item)[a] == w[a]);
            if b < w.len() {
                assert(w.push(item)[b] == w[b]);
            }
        }
    }
}

} // verus!
