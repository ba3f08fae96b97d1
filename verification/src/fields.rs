//! The mathematical model of a context: a sequence of fields.
//!
//! Every contract of this crate speaks of contexts through the functions of this
//! module. A `Context` keeps its fields in ascending order of their keys, so two
//! contexts that hold the same mapping have the same fields in the same order. The
//! functions are defined for every sequence: where one holds a key more than once, the
//! last field with the key is the one that counts.

use vstd::prelude::*;
use crate::order::{
    key_less, lemma_key_less_irreflexive, lemma_key_less_total, lemma_key_less_transitive,
};

verus! {

/// A field, as contracts speak of it: the characters of its key, then those of its
/// value.
pub type Field = (Seq<char>, Seq<char>);

/// The position of the last field of `fields` whose key is `key`, or -1 where no field
/// has that key.
pub open spec fn key_index(fields: Seq<Field>, key: Seq<char>) -> int
    decreases fields.len(),
{
    if fields.len() == 0 {
        -1
    } else if fields.last().0 == key {
        fields.len() - 1
    } else {
        key_index(fields.drop_last(), key)
    }
}

/// Whether some field of `fields` has the key `key`.
pub open spec fn has_key(fields: Seq<Field>, key: Seq<char>) -> bool {
    key_index(fields, key) >= 0
}

/// The value that `fields` gives to `key`.
pub open spec fn value_of(fields: Seq<Field>, key: Seq<char>) -> Option<Seq<char>> {
    if has_key(fields, key) {
        Some(fields[key_index(fields, key)].1)
    } else {
        None
    }
}

/// No two fields of `fields` share a key.
pub open spec fn distinct_keys(fields: Seq<Field>) -> bool {
    forall|i: int, j: int| 0 <= i < j < fields.len() ==> fields[i].0 != fields[j].0
}

/// The keys of `fields` ascend strictly.
pub open spec fn sorted_keys(fields: Seq<Field>) -> bool {
    forall|i: int, j: int| 0 <= i < j < fields.len() ==> key_less(fields[i].0, fields[j].0)
}

/// The position of the first field of `fields` whose key does not come before `key`,
/// or the length of `fields` where every key comes before it: the place of `key` among
/// ascending keys.
pub open spec fn rank(fields: Seq<Field>, key: Seq<char>) -> int
    decreases fields.len(),
{
    if fields.len() == 0 {
        0
    } else if !key_less(fields[0].0, key) {
        0
    } else {
        1 + rank(fields.drop_first(), key)
    }
}

/// `fields` with `key` set to `value`: in place where the key is present, at the rank
/// of the key where it is not.
pub open spec fn upsert(fields: Seq<Field>, key: Seq<char>, value: Seq<char>) -> Seq<Field> {
    if has_key(fields, key) {
        fields.update(key_index(fields, key), (key, value))
    } else {
        fields.insert(rank(fields, key), (key, value))
    }
}

/// `base`, followed by the fields of `extra` whose keys are not met before, in the
/// order of `extra`.
pub open spec fn fill_missing(base: Seq<Field>, extra: Seq<Field>) -> Seq<Field>
    decreases extra.len(),
{
    if extra.len() == 0 {
        base
    } else {
        let prior = fill_missing(base, extra.drop_last());
        if has_key(prior, extra.last().0) {
            prior
        } else {
            prior.push(extra.last())
        }
    }
}

/// `fields` without the field that gives `key` its value.
pub open spec fn without_key(fields: Seq<Field>, key: Seq<char>) -> Seq<Field> {
    if has_key(fields, key) {
        fields.remove(key_index(fields, key))
    } else {
        fields
    }
}

/// `base` with every field of `extra` set in turn. Where both define a key, `extra`
/// wins.
pub open spec fn overlay(base: Seq<Field>, extra: Seq<Field>) -> Seq<Field>
    decreases extra.len(),
{
    if extra.len() == 0 {
        base
    } else {
        upsert(overlay(base, extra.drop_last()), extra.last().0, extra.last().1)
    }
}

/// `key_index` is the one position that holds `key` and has no field with `key`
/// behind it.
pub proof fn lemma_key_index(fields: Seq<Field>, key: Seq<char>, i: int)
    requires
        -1 <= i < fields.len(),
        forall|j: int| i < j < fields.len() ==> fields[j].0 != key,
        i >= 0 ==> fields[i].0 == key,
    ensures
        key_index(fields, key) == i,
    decreases fields.len(),
{
    if fields.len() > 0 && i < fields.len() - 1 {
        lemma_key_index(fields.drop_last(), key, i);
    }
}

/// What `key_index` returns is -1 or lies within `fields`; a field found there has the
/// key, and no field behind it has.
pub proof fn lemma_key_index_found(fields: Seq<Field>, key: Seq<char>)
    ensures
        -1 <= key_index(fields, key) < fields.len(),
        has_key(fields, key) ==> fields[key_index(fields, key)].0 == key,
        forall|j: int| key_index(fields, key) < j < fields.len() ==> fields[j].0 != key,
    decreases fields.len(),
{
    if fields.len() > 0 && fields.last().0 != key {
        let front = fields.drop_last();
        lemma_key_index_found(front, key);
        assert forall|j: int| key_index(fields, key) < j < fields.len() implies fields[j].0
            != key by {
            if j < front.len() {
                assert(front[j] == fields[j]);
            }
        }
    }
}

/// A key is present exactly if some field carries it.
pub proof fn lemma_has_key_iff(fields: Seq<Field>, key: Seq<char>)
    ensures
        has_key(fields, key) <==> exists|i: int| 0 <= i < fields.len() && fields[i].0 == key,
{
    lemma_key_index_found(fields, key);
    if has_key(fields, key) {
        assert(fields[key_index(fields, key)].0 == key);
    }
}

/// What a key's value is after a field was appended.
pub proof fn lemma_value_of_push(fields: Seq<Field>, field: Field, key: Seq<char>)
    ensures
        value_of(fields.push(field), key) == if field.0 == key {
            Some(field.1)
        } else {
            value_of(fields, key)
        },
{
    lemma_key_index_found(fields, key);
    assert(fields.push(field).drop_last() =~= fields);
}

/// `rank` is the one position that has only keys before `key` in front of it and
/// no such key at it.
pub proof fn lemma_rank(fields: Seq<Field>, key: Seq<char>, i: int)
    requires
        0 <= i <= fields.len(),
        forall|j: int| 0 <= j < i ==> key_less(fields[j].0, key),
        i < fields.len() ==> !key_less(fields[i].0, key),
    ensures
        rank(fields, key) == i,
    decreases fields.len(),
{
    if fields.len() > 0 && i > 0 {
        let rest = fields.drop_first();
        assert(key_less(fields[0].0, key));
        assert forall|j: int| 0 <= j < i - 1 implies key_less(rest[j].0, key) by {
            assert(rest[j] == fields[j + 1]);
        }
        lemma_rank(rest, key, i - 1);
    }
}

/// What `rank` returns lies within `fields` or just behind it; every key in front of
/// it comes before `key`, and the key at it does not.
pub proof fn lemma_rank_found(fields: Seq<Field>, key: Seq<char>)
    ensures
        0 <= rank(fields, key) <= fields.len(),
        forall|j: int| 0 <= j < rank(fields, key) ==> key_less(fields[j].0, key),
        rank(fields, key) < fields.len() ==> !key_less(fields[rank(fields, key)].0, key),
    decreases fields.len(),
{
    if fields.len() > 0 && key_less(fields[0].0, key) {
        let rest = fields.drop_first();
        lemma_rank_found(rest, key);
        assert forall|j: int| 0 <= j < rank(fields, key) implies key_less(fields[j].0, key) by {
            if j > 0 {
                assert(rest[j - 1] == fields[j]);
            }
        }
    }
}

/// Keys that ascend strictly are unique.
pub proof fn lemma_sorted_distinct(fields: Seq<Field>)
    requires
        sorted_keys(fields),
    ensures
        distinct_keys(fields),
{
    assert forall|i: int, j: int| 0 <= i < j < fields.len() implies fields[i].0
        != fields[j].0 by {
        lemma_key_less_irreflexive(fields[i].0);
    }
}

/// Ascending fields are fixed by the mapping that they hold: two ascending sequences
/// that give every key the same value are equal.
pub proof fn lemma_sorted_canonical(a: Seq<Field>, b: Seq<Field>)
    requires
        sorted_keys(a),
        sorted_keys(b),
        forall|key: Seq<char>| value_of(a, key) == value_of(b, key),
    ensures
        a == b,
    decreases a.len(),
{
    if a.len() == 0 || b.len() == 0 {
        if a.len() > 0 {
            lemma_key_index(a, a.last().0, a.len() - 1);
            assert(value_of(a, a.last().0).is_some());
            assert(value_of(b, a.last().0).is_none());
        }
        if b.len() > 0 {
            lemma_key_index(b, b.last().0, b.len() - 1);
            assert(value_of(b, b.last().0).is_some());
            assert(value_of(a, b.last().0).is_none());
        }
        assert(a =~= b);
    } else {
        let la = a.last();
        let lb = b.last();
        lemma_key_index(a, la.0, a.len() - 1);
        lemma_key_index(b, lb.0, b.len() - 1);
        lemma_key_index_found(b, la.0);
        lemma_key_index_found(a, lb.0);
        assert(value_of(a, la.0) == Some(la.1));
        assert(value_of(b, lb.0) == Some(lb.1));
        assert(has_key(b, la.0));
        assert(has_key(a, lb.0));
        let i = key_index(b, la.0);
        let j = key_index(a, lb.0);
        if la.0 != lb.0 {
            assert(key_less(b[i].0, lb.0));
            assert(key_less(a[j].0, la.0));
            lemma_key_less_transitive(la.0, lb.0, la.0);
            lemma_key_less_irreflexive(la.0);
        }
        let fa = a.drop_last();
        let fb = b.drop_last();
        lemma_sorted_distinct(a);
        lemma_sorted_distinct(b);
        assert forall|key: Seq<char>| value_of(fa, key) == value_of(fb, key) by {
            lemma_has_key_iff(fa, key);
            lemma_has_key_iff(fb, key);
            assert(fa.push(la) =~= a);
            assert(fb.push(lb) =~= b);
            lemma_value_of_push(fa, la, key);
            lemma_value_of_push(fb, lb, key);
            assert(value_of(a, key) == value_of(b, key));
        }
        lemma_sorted_canonical(fa, fb);
        assert(a =~= fa.push(la));
        assert(b =~= fb.push(lb));
    }
}

/// What a key's value is after `upsert`: the new value for the key that was set, the
/// old value for every other key.
pub proof fn lemma_value_of_upsert(
    fields: Seq<Field>,
    key: Seq<char>,
    value: Seq<char>,
    other: Seq<char>,
)
    ensures
        value_of(upsert(fields, key, value), other) == if other == key {
            Some(value)
        } else {
            value_of(fields, other)
        },
{
    lemma_key_index_found(fields, key);
    lemma_key_index_found(fields, other);
    lemma_rank_found(fields, key);
    if has_key(fields, key) {
        let set = fields.update(key_index(fields, key), (key, value));
        lemma_key_index(set, other, key_index(fields, other));
    } else {
        let r = rank(fields, key);
        let o = key_index(fields, other);
        let grown = fields.insert(r, (key, value));
        lemma_has_key_iff(fields, key);
        assert forall|j: int| 0 <= j < grown.len() implies grown[j] == if j < r {
            fields[j]
        } else if j == r {
            (key, value)
        } else {
            fields[j - 1]
        } by {}
        if other == key {
            lemma_key_index(grown, other, r);
        } else if o < r {
            lemma_key_index(grown, other, o);
        } else {
            lemma_key_index(grown, other, o + 1);
        }
    }
}

/// `upsert` keeps keys unique.
pub proof fn lemma_upsert_distinct(fields: Seq<Field>, key: Seq<char>, value: Seq<char>)
    requires
        distinct_keys(fields),
    ensures
        distinct_keys(upsert(fields, key, value)),
{
    lemma_key_index_found(fields, key);
    lemma_has_key_iff(fields, key);
    lemma_rank_found(fields, key);
    if !has_key(fields, key) {
        let r = rank(fields, key);
        let grown = fields.insert(r, (key, value));
        assert forall|j: int| 0 <= j < grown.len() implies grown[j] == if j < r {
            fields[j]
        } else if j == r {
            (key, value)
        } else {
            fields[j - 1]
        } by {}
    }
}

/// `upsert` keeps keys ascending.
pub proof fn lemma_upsert_sorted(fields: Seq<Field>, key: Seq<char>, value: Seq<char>)
    requires
        sorted_keys(fields),
    ensures
        sorted_keys(upsert(fields, key, value)),
{
    lemma_key_index_found(fields, key);
    lemma_has_key_iff(fields, key);
    lemma_rank_found(fields, key);
    if !has_key(fields, key) {
        let r = rank(fields, key);
        let grown = fields.insert(r, (key, value));
        assert forall|j: int| 0 <= j < grown.len() implies grown[j] == if j < r {
            fields[j]
        } else if j == r {
            (key, value)
        } else {
            fields[j - 1]
        } by {}
        assert forall|j: int| r <= j < fields.len() implies key_less(key, fields[j].0) by {
            lemma_key_less_total(key, fields[r].0);
            if j > r {
                lemma_key_less_transitive(key, fields[r].0, fields[j].0);
            }
        }
        assert forall|i: int, j: int| 0 <= i < j < grown.len() implies key_less(
            grown[i].0,
            grown[j].0,
        ) by {
            if j == r {
                assert(key_less(fields[i].0, key));
            } else if i == r {
                assert(key_less(key, fields[j - 1].0));
            }
        }
    }
}

/// What a key's value is after `without_key`: the old value for every other key, and,
/// where keys are unique, none for the key that was removed. Unique keys stay unique
/// and ascending keys stay ascending.
pub proof fn lemma_value_of_without_key(fields: Seq<Field>, key: Seq<char>, other: Seq<char>)
    ensures
        other != key ==> value_of(without_key(fields, key), other) == value_of(fields, other),
        distinct_keys(fields) ==> !has_key(without_key(fields, key), key),
        distinct_keys(fields) ==> distinct_keys(without_key(fields, key)),
        sorted_keys(fields) ==> sorted_keys(without_key(fields, key)),
{
    lemma_key_index_found(fields, key);
    lemma_key_index_found(fields, other);
    if has_key(fields, key) {
        let k = key_index(fields, key);
        let o = key_index(fields, other);
        let rest = fields.remove(k);
        if other != key {
            if o < k {
                lemma_key_index(rest, other, o);
            } else {
                lemma_key_index(rest, other, o - 1);
            }
        }
        if distinct_keys(fields) {
            lemma_key_index(rest, key, -1);
        }
    }
}

/// What a key's value is after `overlay`: that of `extra`, and that of `base` where
/// `extra` has none.
pub proof fn lemma_value_of_overlay(base: Seq<Field>, extra: Seq<Field>, key: Seq<char>)
    ensures
        value_of(overlay(base, extra), key) == if has_key(extra, key) {
            value_of(extra, key)
        } else {
            value_of(base, key)
        },
    decreases extra.len(),
{
    if extra.len() > 0 {
        let front = extra.drop_last();
        let last = extra.last();
        lemma_value_of_overlay(base, front, key);
        lemma_value_of_upsert(overlay(base, front), last.0, last.1, key);
        assert(front.push(last) =~= extra);
        lemma_value_of_push(front, last, key);
    }
}

/// `overlay` keeps the keys of `base` unique, whatever `extra` holds.
pub proof fn lemma_overlay_distinct(base: Seq<Field>, extra: Seq<Field>)
    requires
        distinct_keys(base),
    ensures
        distinct_keys(overlay(base, extra)),
    decreases extra.len(),
{
    if extra.len() > 0 {
        lemma_overlay_distinct(base, extra.drop_last());
        lemma_upsert_distinct(overlay(base, extra.drop_last()), extra.last().0, extra.last().1);
    }
}

/// What a key's value is after `fill_missing`, where the keys of `extra` are unique:
/// that of `base`, and that of `extra` where `base` has none.
pub proof fn lemma_value_of_fill_missing(base: Seq<Field>, extra: Seq<Field>, key: Seq<char>)
    requires
        distinct_keys(extra),
    ensures
        value_of(fill_missing(base, extra), key) == if has_key(base, key) {
            value_of(base, key)
        } else {
            value_of(extra, key)
        },
    decreases extra.len(),
{
    if extra.len() > 0 {
        let front = extra.drop_last();
        let last = extra.last();
        let prior = fill_missing(base, front);
        lemma_value_of_fill_missing(base, front, key);
        lemma_value_of_fill_missing(base, front, last.0);
        lemma_value_of_push(prior, last, key);
        assert(front.push(last) =~= extra);
        lemma_value_of_push(front, last, key);
        lemma_has_key_iff(front, last.0);
        lemma_key_index_found(base, key);
    }
}

/// `fill_missing` keeps the keys of `base` unique, whatever `extra` holds.
pub proof fn lemma_fill_missing_distinct(base: Seq<Field>, extra: Seq<Field>)
    requires
        distinct_keys(base),
    ensures
        distinct_keys(fill_missing(base, extra)),
    decreases extra.len(),
{
    if extra.len() > 0 {
        let prior = fill_missing(base, extra.drop_last());
        lemma_fill_missing_distinct(base, extra.drop_last());
        lemma_has_key_iff(prior, extra.last().0);
    }
}

} // verus!
