//! A context: the key-value fields that one scope contributes.

use vstd::prelude::*;
use crate::fields::{
    Field, key_index, has_key, value_of, rank, sorted_keys, upsert, without_key, overlay,
    lemma_key_index, lemma_rank, lemma_sorted_distinct, lemma_upsert_sorted,
    lemma_value_of_without_key,
};
use crate::order::{key_less, str_less};
use crate::text::str_eq;

verus! {

/// A mapping from keys to values, kept as fields in ascending order of their keys.
///
/// The view lists the fields in that order, each as the characters of its key and of
/// its value. The order in which keys were set leaves no trace: two contexts that
/// hold the same mapping have the same view.
pub struct Context {
    fields: Vec<(String, String)>,
}

/// The fields of `pairs`, as contracts speak of them.
pub open spec fn pairs_view(pairs: Seq<(String, String)>) -> Seq<Field> {
    pairs.map_values(|f: (String, String)| (f.0@, f.1@))
}

/// The position of the pair of `pairs` that gives `key` its value.
pub(crate) fn find(pairs: &Vec<(String, String)>, key: &str) -> (r: Option<usize>)
    ensures
        match r {
            Some(i) => i < pairs.len() && key_index(pairs_view(pairs@), key@) == i,
            None => !has_key(pairs_view(pairs@), key@),
        },
{
    let mut i: usize = pairs.len();
    while i > 0
        invariant
            i <= pairs.len(),
            forall|j: int| i <= j < pairs.len() ==> pairs_view(pairs@)[j].0 != key@,
        decreases i,
    {
        i -= 1;
        if str_eq(pairs[i].0.as_str(), key) {
            proof {
                lemma_key_index(pairs_view(pairs@), key@, i as int);
            }
            return Some(i);
        }
    }
    proof {
        lemma_key_index(pairs_view(pairs@), key@, -1);
    }
    None
}

/// The position at which `key` belongs among the ascending keys of `pairs`.
fn place(pairs: &Vec<(String, String)>, key: &str) -> (r: usize)
    ensures
        r <= pairs.len(),
        r == rank(pairs_view(pairs@), key@),
{
    let mut i: usize = 0;
    while i < pairs.len()
        invariant
            i <= pairs.len(),
            forall|j: int| 0 <= j < i ==> key_less(pairs_view(pairs@)[j].0, key@),
        decreases pairs.len() - i,
    {
        if !str_less(pairs[i].0.as_str(), key) {
            proof {
                lemma_rank(pairs_view(pairs@), key@, i as int);
            }
            return i;
        }
        i += 1;
    }
    proof {
        lemma_rank(pairs_view(pairs@), key@, i as int);
    }
    i
}

impl View for Context {
    type V = Seq<Field>;

    closed spec fn view(&self) -> Seq<Field> {
        pairs_view(self.fields@)
    }
}

impl Context {
    /// The invariant of the type: the keys ascend strictly, so no two fields share a
    /// key.
    #[verifier::type_invariant]
    pub open spec fn keys_ascend(&self) -> bool {
        sorted_keys(self@)
    }

    /// Moves the fields out and leaves none behind.
    fn take_fields(&mut self) -> (r: Vec<(String, String)>)
        ensures
            pairs_view(r@) == old(self)@,
            sorted_keys(pairs_view(r@)),
            final(self)@ == Seq::<Field>::empty(),
    {
        proof {
            use_type_invariant(&*self);
        }
        let mut r: Vec<(String, String)> = Vec::new();
        assert(pairs_view(r@) =~= Seq::<Field>::empty());
        std::mem::swap(&mut self.fields, &mut r);
        r
    }

    /// A context without fields.
    pub fn new() -> (r: Context)
        ensures
            r@ == Seq::<Field>::empty(),
    {
        let r = Context { fields: Vec::new() };
        assert(r@ =~= Seq::<Field>::empty());
        r
    }

    /// The number of fields.
    pub fn len(&self) -> (n: usize)
        ensures
            n == self@.len(),
    {
        self.fields.len()
    }

    /// Whether the context has no field.
    pub fn is_empty(&self) -> (r: bool)
        ensures
            r == (self@.len() == 0),
    {
        self.fields.len() == 0
    }

    /// Whether a field has the key `key`.
    pub fn contains_key(&self, key: &str) -> (r: bool)
        ensures
            r == has_key(self@, key@),
    {
        find(&self.fields, key).is_some()
    }

    /// The value of the field with the key `key`, if there is one.
    pub fn get(&self, key: &str) -> (r: Option<&String>)
        ensures
            match r {
                Some(v) => value_of(self@, key@) == Some(v@),
                None => value_of(self@, key@).is_none(),
            },
    {
        match find(&self.fields, key) {
            Some(i) => Some(&self.fields[i].1),
            None => None,
        }
    }

    /// The key and the value of the field at position `i`, if there is one.
    pub fn field_at(&self, i: usize) -> (r: Option<(&String, &String)>)
        ensures
            match r {
                Some(f) => i < self@.len() && self@[i as int] == (f.0@, f.1@),
                None => i >= self@.len(),
            },
    {
        if i < self.fields.len() {
            Some((&self.fields[i].0, &self.fields[i].1))
        } else {
            None
        }
    }

    /// Sets `key` to `value`. A key that is present gets the new value; a new key
    /// takes its place among the ascending keys.
    pub fn insert(&mut self, key: String, value: String)
        ensures
            final(self)@ == upsert(old(self)@, key@, value@),
    {
        let mut pairs = self.take_fields();
        proof {
            lemma_upsert_sorted(pairs_view(pairs@), key@, value@);
        }
        let ghost before = pairs_view(pairs@);
        match find(&pairs, key.as_str()) {
            Some(i) => {
                pairs.set(i, (key, value));
            },
            None => {
                let at = place(&pairs, key.as_str());
                pairs.insert(at, (key, value));
            },
        }
        assert(pairs_view(pairs@) =~= upsert(before, key@, value@));
        self.fields = pairs;
    }

    /// Takes out the field with the key `key`, if there is one.
    pub fn remove(&mut self, key: &str)
        ensures
            final(self)@ == without_key(old(self)@, key@),
            !has_key(final(self)@, key@),
    {
        let mut pairs = self.take_fields();
        proof {
            lemma_sorted_distinct(pairs_view(pairs@));
            lemma_value_of_without_key(pairs_view(pairs@), key@, key@);
        }
        let ghost before = pairs_view(pairs@);
        match find(&pairs, key) {
            Some(i) => {
                pairs.remove(i);
            },
            None => {},
        }
        assert(pairs_view(pairs@) =~= without_key(before, key@));
        self.fields = pairs;
    }

    /// Sets every field of `other` in turn. Where both define a key, the value of
    /// `other` replaces the one that was there.
    pub fn extend(&mut self, other: &Context)
        ensures
            final(self)@ == overlay(old(self)@, other@),
    {
        let mut i: usize = 0;
        while i < other.fields.len()
            invariant
                i <= other.fields.len(),
                self@ == overlay(old(self)@, other@.take(i as int)),
            decreases other.fields.len() - i,
        {
            proof {
                assert(other@.take(i + 1).drop_last() =~= other@.take(i as int));
            }
            self.insert(other.fields[i].0.clone(), other.fields[i].1.clone());
            i += 1;
        }
        assert(other@.take(i as int) =~= other@);
    }

    /// The fields as pairs of key and value, in ascending order of the keys.
    pub fn to_pairs(&self) -> (r: Vec<(String, String)>)
        ensures
            pairs_view(r@) == self@,
    {
        let mut r: Vec<(String, String)> = Vec::new();
        let mut i: usize = 0;
        while i < self.fields.len()
            invariant
                i <= self.fields.len(),
                pairs_view(r@) == self@.take(i as int),
            decreases self.fields.len() - i,
        {
            let ghost before = pairs_view(r@);
            r.push((self.fields[i].0.clone(), self.fields[i].1.clone()));
            assert(pairs_view(r@) =~= before.push(self@[i as int]));
            assert(self@.take(i + 1) =~= self@.take(i as int).push(self@[i as int]));
            i += 1;
        }
        assert(self@.take(i as int) =~= self@);
        r
    }

    /// The context that results from setting the pairs of `pairs` in turn, starting
    /// with none: of two pairs with one key the later gives the value.
    pub fn from_pairs(pairs: Vec<(String, String)>) -> (r: Context)
        ensures
            r@ == overlay(Seq::<Field>::empty(), pairs_view(pairs@)),
    {
        let mut r = Context::new();
        let mut i: usize = 0;
        while i < pairs.len()
            invariant
                i <= pairs.len(),
                r@ == overlay(Seq::<Field>::empty(), pairs_view(pairs@).take(i as int)),
            decreases pairs.len() - i,
        {
            proof {
                assert(pairs_view(pairs@).take(i + 1).drop_last() =~= pairs_view(pairs@).take(
                    i as int,
                ));
            }
            r.insert(pairs[i].0.clone(), pairs[i].1.clone());
            i += 1;
        }
        assert(pairs_view(pairs@).take(i as int) =~= pairs_view(pairs@));
        r
    }
}

impl Clone for Context {
    /// A context with the same fields in the same order.
    fn clone(&self) -> (r: Context)
        ensures
            r@ == self@,
    {
        proof {
            use_type_invariant(self);
        }
        let r = Context { fields: self.to_pairs() };
        r
    }
}

} // verus!
