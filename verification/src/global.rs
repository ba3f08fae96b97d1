//! The process-wide store: the last resort for context that lost every structural
//! link to the scope that set it.

use vstd::prelude::*;
use crate::context::Context;
use crate::fields::{Field, value_of, upsert, overlay};

verus! {

/// The state of the store, as contracts speak of it.
pub struct StoreModel {
    /// The fields that were set, in ascending order of their keys.
    pub fields: Seq<Field>,
    /// Whether the lock that guards the store was found poisoned.
    pub poisoned: bool,
}

impl StoreModel {
    /// The fields that readers see: none of a poisoned store.
    pub open spec fn visible(self) -> Seq<Field> {
        if self.poisoned {
            Seq::empty()
        } else {
            self.fields
        }
    }

    /// The store after `key` was set to `value`: unchanged where it is poisoned.
    pub open spec fn set(self, key: Seq<char>, value: Seq<char>) -> StoreModel {
        if self.poisoned {
            self
        } else {
            StoreModel { fields: upsert(self.fields, key, value), poisoned: false }
        }
    }

    /// The store after every field of `fields` was set in turn: unchanged where it is
    /// poisoned.
    pub open spec fn publish(self, fields: Seq<Field>) -> StoreModel {
        if self.poisoned {
            self
        } else {
            StoreModel { fields: overlay(self.fields, fields), poisoned: false }
        }
    }
}

/// A flat map of everything that was ever published. Entries are added or
/// overwritten, never removed. Once poisoned, the store reads as empty and ignores
/// writes.
pub struct GlobalContextStore {
    entries: Context,
    poisoned: bool,
}

impl View for GlobalContextStore {
    type V = StoreModel;

    closed spec fn view(&self) -> StoreModel {
        StoreModel { fields: self.entries@, poisoned: self.poisoned }
    }
}

impl GlobalContextStore {
    /// A usable store without entries.
    pub fn new() -> (r: GlobalContextStore)
        ensures
            r@ == (StoreModel { fields: Seq::empty(), poisoned: false }),
    {
        GlobalContextStore { entries: Context::new(), poisoned: false }
    }

    /// Whether the store is poisoned.
    pub fn is_poisoned(&self) -> (r: bool)
        ensures
            r == self@.poisoned,
    {
        self.poisoned
    }

    /// Marks the store as poisoned: its lock was found unusable.
    pub fn poison(&mut self)
        ensures
            final(self)@ == (StoreModel { fields: old(self)@.fields, poisoned: true }),
    {
        self.poisoned = true;
    }

    /// Sets `key` to `value`, replacing a value that was there. A poisoned store stays
    /// as it is.
    pub fn set(&mut self, key: &str, value: &str)
        ensures
            final(self)@ == old(self)@.set(key@, value@),
    {
        if !self.poisoned {
            self.entries.insert(key.to_owned(), value.to_owned());
        }
    }

    /// The value of `key`, if the store is usable and has one.
    pub fn get(&self, key: &str) -> (r: Option<String>)
        ensures
            match r {
                Some(v) => value_of(self@.visible(), key@) == Some(v@),
                None => value_of(self@.visible(), key@).is_none(),
            },
    {
        if self.poisoned {
            return None;
        }
        match self.entries.get(key) {
            Some(v) => Some(v.clone()),
            None => None,
        }
    }

    /// A copy of all entries, or nothing where the store is empty or poisoned.
    pub fn snapshot(&self) -> (r: Option<Context>)
        ensures
            match r {
                Some(c) => c@ == self@.visible() && c@.len() > 0,
                None => self@.visible().len() == 0,
            },
    {
        if self.poisoned || self.entries.is_empty() {
            None
        } else {
            Some(self.entries.clone())
        }
    }

    /// Sets every field of `context` in turn, each write on its own. A poisoned store
    /// stays as it is.
    pub fn publish(&mut self, context: &Context)
        ensures
            final(self)@ == old(self)@.publish(context@),
    {
        if !self.poisoned {
            self.entries.extend(context);
        }
    }
}

} // verus!
