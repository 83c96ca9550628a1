//! Tables from texts to texts.
use vstd::prelude::*;

use crate::text::{owned, same};

verus! {

/// A table from texts to texts.
pub struct TextMap {
    entries: Vec<(String, String)>,
}

/// The table that a list of pairs stands for: a later pair overrides an
/// earlier one with the same key.
pub open spec fn table_of(pairs: Seq<(Seq<char>, Seq<char>)>) -> Map<Seq<char>, Seq<char>>
    decreases pairs.len(),
{
    if pairs.len() == 0 {
        Map::empty()
    } else {
        table_of(pairs.drop_last()).insert(pairs.last().0, pairs.last().1)
    }
}

/// The texts of a list of string pairs.
pub open spec fn pair_texts(v: Seq<(String, String)>) -> Seq<(Seq<char>, Seq<char>)> {
    Seq::new(v.len(), |i: int| (v[i].0@, v[i].1@))
}

impl View for TextMap {
    type V = Map<Seq<char>, Seq<char>>;

    closed spec fn view(&self) -> Map<Seq<char>, Seq<char>> {
        table_of(pair_texts(self.entries@))
    }
}

/// A key that no pair has is not in the table.
proof fn lemma_table_without(pairs: Seq<(Seq<char>, Seq<char>)>, key: Seq<char>)
    requires
        forall|i: int| 0 <= i < pairs.len() ==> (#[trigger] pairs[i]).0 != key,
    ensures
        !table_of(pairs).contains_key(key),
    decreases pairs.len(),
{
    if pairs.len() > 0 {
        assert(pairs.last() == pairs[pairs.len() - 1]);
        assert forall|i: int| 0 <= i < pairs.drop_last().len() implies (
        #[trigger] pairs.drop_last()[i]).0 != key by {
            assert(pairs.drop_last()[i] == pairs[i]);
        }
        lemma_table_without(pairs.drop_last(), key);
    }
}

/// The last pair with a key decides what it maps to.
proof fn lemma_table_last(pairs: Seq<(Seq<char>, Seq<char>)>, at: int, key: Seq<char>)
    requires
        0 <= at < pairs.len(),
        pairs[at].0 == key,
        forall|i: int| at < i < pairs.len() ==> (#[trigger] pairs[i]).0 != key,
    ensures
        table_of(pairs).contains_key(key),
        table_of(pairs)[key] == pairs[at].1,
    decreases pairs.len(),
{
    if at == pairs.len() - 1 {
        assert(pairs.last() == pairs[at]);
    } else {
        assert(pairs.last() == pairs[pairs.len() - 1]);
        let front = pairs.drop_last();
        assert(front[at] == pairs[at]);
        assert forall|i: int| at < i < front.len() implies (#[trigger] front[i]).0 != key by {
            assert(front[i] == pairs[i]);
        }
        lemma_table_last(front, at, key);
    }
}

/// A pair whose key no later pair has decides what the key maps to.
pub proof fn lemma_table_entry(pairs: Seq<(Seq<char>, Seq<char>)>, at: int)
    requires
        0 <= at < pairs.len(),
        forall|i: int, j: int|
            0 <= i < j < pairs.len() ==> (#[trigger] pairs[i]).0 != (#[trigger] pairs[j]).0,
    ensures
        table_of(pairs).contains_key(pairs[at].0),
        table_of(pairs)[pairs[at].0] == pairs[at].1,
{
    lemma_table_last(pairs, at, pairs[at].0);
}

/// One more pair sets one more key.
pub proof fn lemma_table_step(pairs: Seq<(Seq<char>, Seq<char>)>, i: int)
    requires
        0 <= i < pairs.len(),
    ensures
        table_of(pairs.take(i + 1)) == table_of(pairs.take(i)).insert(pairs[i].0, pairs[i].1),
{
    assert(pairs.take(i + 1).drop_last() =~= pairs.take(i));
    assert(pairs.take(i + 1).last() == pairs[i]);
}

impl TextMap {
    /// An empty table.
    pub fn new() -> (r: TextMap)
        ensures
            r@ == Map::<Seq<char>, Seq<char>>::empty(),
    {
        let r = TextMap { entries: Vec::new() };
        assert(pair_texts(r.entries@) =~= Seq::empty());
        r
    }

    /// Map a key to a value, in place of what it mapped to.
    pub fn insert(&mut self, key: &str, value: &str)
        ensures
            final(self)@ == old(self)@.insert(key@, value@),
    {
        let ghost before = pair_texts(self.entries@);
        self.entries.push((owned(key), owned(value)));
        let ghost after = pair_texts(self.entries@);
        assert(after.drop_last() =~= before);
        assert(after.last() == (key@, value@));
    }

    /// The value that a key maps to.
    pub fn get(&self, key: &str) -> (r: Option<String>)
        ensures
            match r {
                Some(value) => self@.contains_key(key@) && self@[key@] == value@,
                None => !self@.contains_key(key@),
            },
    {
        let ghost pairs = pair_texts(self.entries@);
        let mut i: usize = self.entries.len();
        while i > 0
            invariant
                i <= self.entries@.len(),
                pairs == pair_texts(self.entries@),
                forall|j: int| i <= j < pairs.len() ==> (#[trigger] pairs[j]).0 != key@,
            decreases i,
        {
            i -= 1;
            let entry = &self.entries[i];
            assert(pairs[i as int] == (entry.0@, entry.1@));
            if same(entry.0.as_str(), key) {
                proof {
                    lemma_table_last(pairs, i as int, key@);
                }
                return Some(owned(entry.1.as_str()));
            }
        }
        proof {
            lemma_table_without(pairs, key@);
        }
        None
    }

    /// Add every entry of `other`; where both have a key, `other` wins.
    pub fn extend(&mut self, other: &TextMap)
        ensures
            final(self)@ == old(self)@.union_prefer_right(other@),
    {
        let ghost base = self@;
        let ghost pairs = pair_texts(other.entries@);
        let mut i: usize = 0;
        assert(pairs.take(0) =~= Seq::empty());
        assert(base.union_prefer_right(Map::empty()) =~= base);
        while i < other.entries.len()
            invariant
                i <= other.entries@.len(),
                pairs == pair_texts(other.entries@),
                self@ == base.union_prefer_right(table_of(pairs.take(i as int))),
            decreases other.entries@.len() - i,
        {
            let entry = &other.entries[i];
            let ghost so_far = table_of(pairs.take(i as int));
            self.insert(entry.0.as_str(), entry.1.as_str());
            i += 1;
            assert(pairs.take(i as int).drop_last() =~= pairs.take(i - 1));
            assert(pairs.take(i as int).last() == (entry.0@, entry.1@));
            assert(base.union_prefer_right(so_far).insert(entry.0@, entry.1@)
                =~= base.union_prefer_right(so_far.insert(entry.0@, entry.1@)));
        }
        assert(pairs.take(i as int) =~= pairs);
    }
}

} // verus!
