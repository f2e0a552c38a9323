use vstd::prelude::*;

verus! {

/// A mapping from names to values, kept as the list of writes made to it.
/// A name stands for the value written under it last.
#[derive(Debug)]
pub struct TextMap<V> {
    pub entries: Vec<(String, V)>,
}

/// The value that the writes `entries` leave under `key`: that of the last
/// write whose name is `key`, if there is one.
pub open spec fn last_write<V>(entries: Seq<(String, V)>, key: Seq<char>) -> Option<V>
    decreases entries.len(),
{
    if entries.len() == 0 {
        None
    } else if entries.last().0@ == key {
        Some(entries.last().1)
    } else {
        last_write(entries.drop_last(), key)
    }
}

impl<V> View for TextMap<V> {
    type V = Map<Seq<char>, V>;

    open spec fn view(&self) -> Map<Seq<char>, V> {
        Map::new(
            |k: Seq<char>| last_write(self.entries@, k) is Some,
            |k: Seq<char>| last_write(self.entries@, k)->0,
        )
    }
}

impl<V> TextMap<V> {
    /// The value under `key`, if any.
    pub open spec fn spec_get(&self, key: Seq<char>) -> Option<V> {
        last_write(self.entries@, key)
    }

    /// An empty mapping.
    pub fn new() -> (m: Self)
        ensures
            m@ == Map::<Seq<char>, V>::empty(),
            m.entries@.len() == 0,
    {
        let m = TextMap { entries: Vec::new() };
        assert(m@ =~= Map::<Seq<char>, V>::empty());
        m
    }

    /// Writes `value` under `key`, in place of what the name stood for before.
    pub fn insert(&mut self, key: String, value: V)
        ensures
            final(self)@ == old(self)@.insert(key@, value),
            final(self).entries@ == old(self).entries@.push((key, value)),
    {
        let ghost before = self.entries@;
        self.entries.push((key, value));
        proof {
            let after = self.entries@;
            assert(after.drop_last() =~= before);
            assert(self@ =~= old(self)@.insert(key@, value));
        }
    }

    /// The value under `key`, if any.
    pub fn get(&self, key: &str) -> (r: Option<&V>)
        ensures
            r == match self.spec_get(key@) {
                Some(v) => Some(&v),
                None => None,
            },
            r is Some <==> self@.contains_key(key@),
            r matches Some(v) ==> *v == self@[key@],
    {
        let probe = String::from_str(key);
        let mut i: usize = self.entries.len();
        assert(self.entries@.subrange(0, i as int) =~= self.entries@);
        while i > 0
            invariant
                i <= self.entries@.len(),
                probe@ == key@,
                last_write(self.entries@, key@) == last_write(
                    self.entries@.subrange(0, i as int),
                    key@,
                ),
            decreases i,
        {
            let ghost prefix = self.entries@.subrange(0, i as int);
            assert(prefix.drop_last() =~= self.entries@.subrange(0, i - 1));
            i -= 1;
            if self.entries[i].0 == probe {
                return Some(&self.entries[i].1);
            }
        }
        None
    }
}

} // verus!
