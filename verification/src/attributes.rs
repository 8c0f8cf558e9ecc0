//! Typed object attributes: the key taxonomy, the value wrapper and the
//! unique-keyed collection that maps a key to an optional value.

use std::borrow::Cow;
use crate::assoc::distinct_keys;
use crate::assoc::lemma_distinct_push;
use crate::assoc::lemma_same_pairs;
use crate::assoc::lemma_seq_map_keys;
use crate::assoc::lemma_seq_map_len;
use crate::assoc::lemma_seq_map_remove;
use crate::assoc::lemma_seq_map_value;
use crate::assoc::seq_map;
use vstd::prelude::*;
use vstd::std_specs::cmp::PartialEqSpecImpl;
use vstd::std_specs::convert::FromSpecImpl;
use vstd::std_specs::iter::IteratorSpec;

verus! {

/// Compares two string slices with `str`'s own `==`; the result says whether
/// they hold the same characters.
#[verifier::external_body]
pub(crate) fn str_eq(a: &str, b: &str) -> (same: bool)
    ensures
        same == (a@ == b@),
{
    a == b
}

/// A copy of the text in the same storage mode.
pub(crate) fn clone_text(text: &Cow<'static, str>) -> (copy: Cow<'static, str>)
    ensures
        copy@ == text@,
{
    match text {
        Cow::Borrowed(b) => Cow::Borrowed(*b),
        Cow::Owned(o) => Cow::Owned(o.clone()),
    }
}

/// Borrows the text held by either storage mode.
pub(crate) fn cow_str<'a>(text: &'a Cow<'static, str>) -> (s: &'a str)
    ensures
        s@ == text@,
{
    match text {
        Cow::Borrowed(b) => b,
        Cow::Owned(o) => o.as_str(),
    }
}

/// Additional object attribute types
#[non_exhaustive]
#[derive(Debug, Hash)]
pub enum Attribute {
    /// Specifies how the object should be handled by a browser
    ContentDisposition,
    /// Specifies the encodings applied to the object
    ContentEncoding,
    /// Specifies the language of the object
    ContentLanguage,
    /// Specifies the MIME type of the object
    ContentType,
    /// Overrides cache control policy of the object
    CacheControl,
    /// Specifies a user-defined metadata field for the object
    ///
    /// The string is a user-defined key
    Metadata(Cow<'static, str>),
    /// Specifies a provider-specific attribute
    ///
    /// The string is the provider-specific key
    ProviderSpecific(Cow<'static, str>),
}

/// What an [`Attribute`] denotes: its variant and, for the open variants,
/// the characters of the carried key, whatever their storage.
pub ghost enum AttributeKey {
    ContentDisposition,
    ContentEncoding,
    ContentLanguage,
    ContentType,
    CacheControl,
    Metadata(Seq<char>),
    ProviderSpecific(Seq<char>),
}

impl View for Attribute {
    type V = AttributeKey;

    open spec fn view(&self) -> AttributeKey {
        match self {
            Attribute::ContentDisposition => AttributeKey::ContentDisposition,
            Attribute::ContentEncoding => AttributeKey::ContentEncoding,
            Attribute::ContentLanguage => AttributeKey::ContentLanguage,
            Attribute::ContentType => AttributeKey::ContentType,
            Attribute::CacheControl => AttributeKey::CacheControl,
            Attribute::Metadata(k) => AttributeKey::Metadata(k@),
            Attribute::ProviderSpecific(k) => AttributeKey::ProviderSpecific(k@),
        }
    }
}

impl Clone for Attribute {
    fn clone(&self) -> (copy: Attribute)
        ensures
            copy@ == self@,
    {
        match self {
            Attribute::ContentDisposition => Attribute::ContentDisposition,
            Attribute::ContentEncoding => Attribute::ContentEncoding,
            Attribute::ContentLanguage => Attribute::ContentLanguage,
            Attribute::ContentType => Attribute::ContentType,
            Attribute::CacheControl => Attribute::CacheControl,
            Attribute::Metadata(k) => Attribute::Metadata(clone_text(k)),
            Attribute::ProviderSpecific(k) => Attribute::ProviderSpecific(clone_text(k)),
        }
    }
}

impl PartialEq for Attribute {
    fn eq(&self, other: &Attribute) -> (same: bool) {
        match (self, other) {
            (Attribute::ContentDisposition, Attribute::ContentDisposition) => true,
            (Attribute::ContentEncoding, Attribute::ContentEncoding) => true,
            (Attribute::ContentLanguage, Attribute::ContentLanguage) => true,
            (Attribute::ContentType, Attribute::ContentType) => true,
            (Attribute::CacheControl, Attribute::CacheControl) => true,
            (Attribute::Metadata(a), Attribute::Metadata(b)) => str_eq(cow_str(a), cow_str(b)),
            (Attribute::ProviderSpecific(a), Attribute::ProviderSpecific(b)) => str_eq(
                cow_str(a),
                cow_str(b),
            ),
            _ => false,
        }
    }
}

impl PartialEqSpecImpl for Attribute {
    open spec fn obeys_eq_spec() -> bool {
        true
    }

    open spec fn eq_spec(&self, other: &Attribute) -> bool {
        self@ == other@
    }
}

impl Eq for Attribute {

}

/// The value of an [`Attribute`]
///
/// Holds either static text or an owned string; only the text is observable.
#[derive(Debug, Hash)]
pub struct AttributeValue(Cow<'static, str>);

impl View for AttributeValue {
    type V = Seq<char>;

    closed spec fn view(&self) -> Seq<char> {
        self.0@
    }
}

impl AttributeValue {
    /// The text of this value.
    pub fn as_str(&self) -> (s: &str)
        ensures
            s@ == self@,
    {
        cow_str(&self.0)
    }
}

impl Clone for AttributeValue {
    fn clone(&self) -> (copy: AttributeValue)
        ensures
            copy@ == self@,
    {
        AttributeValue(clone_text(&self.0))
    }
}

impl AsRef<str> for AttributeValue {
    fn as_ref(&self) -> (s: &str)
        ensures
            s@ == self@,
    {
        cow_str(&self.0)
    }
}

impl std::ops::Deref for AttributeValue {
    type Target = str;

    fn deref(&self) -> (s: &str)
        ensures
            s@ == self@,
    {
        cow_str(&self.0)
    }
}

impl PartialEq for AttributeValue {
    fn eq(&self, other: &AttributeValue) -> (same: bool) {
        str_eq(cow_str(&self.0), cow_str(&other.0))
    }
}

impl PartialEqSpecImpl for AttributeValue {
    open spec fn obeys_eq_spec() -> bool {
        true
    }

    open spec fn eq_spec(&self, other: &AttributeValue) -> bool {
        self@ == other@
    }
}

impl Eq for AttributeValue {

}

impl From<&'static str> for AttributeValue {
    fn from(value: &'static str) -> (v: AttributeValue)
        ensures
            v@ == value@,
    {
        AttributeValue(Cow::Borrowed(value))
    }
}

impl FromSpecImpl<&'static str> for AttributeValue {
    open spec fn obeys_from_spec() -> bool {
        true
    }

    closed spec fn from_spec(value: &'static str) -> AttributeValue {
        AttributeValue(Cow::Borrowed(value))
    }
}

impl From<String> for AttributeValue {
    fn from(value: String) -> (v: AttributeValue)
        ensures
            v@ == value@,
    {
        AttributeValue(Cow::Owned(value))
    }
}

impl FromSpecImpl<String> for AttributeValue {
    open spec fn obeys_from_spec() -> bool {
        true
    }

    closed spec fn from_spec(value: String) -> AttributeValue {
        AttributeValue(Cow::Owned(value))
    }
}

/// The text of an optional value, if it is set.
pub open spec fn value_view(value: Option<AttributeValue>) -> Option<Seq<char>> {
    match value {
        Some(v) => Some(v@),
        None => None,
    }
}

/// What a stored pair denotes: the key it stands for and the text of its
/// value, if one is set.
pub open spec fn entry_view(entry: (Attribute, Option<AttributeValue>)) -> (
    AttributeKey,
    Option<Seq<char>>,
) {
    (entry.0@, value_view(entry.1))
}

/// The pairs of a sequence, each by what it denotes.
pub open spec fn entry_views(pairs: Seq<(Attribute, Option<AttributeValue>)>) -> Seq<
    (AttributeKey, Option<Seq<char>>),
> {
    pairs.map_values(|entry: (Attribute, Option<AttributeValue>)| entry_view(entry))
}

/// The mapping that a sequence of pairs denotes when each pair is inserted
/// in turn: of two pairs with one key, the later one stays.
pub open spec fn pairs_map(pairs: Seq<(Attribute, Option<AttributeValue>)>) -> Map<
    AttributeKey,
    Option<Seq<char>>,
> {
    seq_map(entry_views(pairs))
}

/// Pairs with distinct keys, inserted one after the other, give a
/// collection with one key for each pair.
pub proof fn lemma_distinct_inserts_len(pairs: Seq<(Attribute, Option<AttributeValue>)>)
    requires
        distinct_keys(entry_views(pairs)),
    ensures
        pairs_map(pairs).dom().finite(),
        pairs_map(pairs).dom().len() == pairs.len(),
{
    lemma_seq_map_len(entry_views(pairs));
}

/// After a key is inserted, it is present with the value just inserted,
/// and every other key is as it was.
pub proof fn lemma_get_after_insert(
    before: Map<AttributeKey, Option<Seq<char>>>,
    key: AttributeKey,
    value: Option<Seq<char>>,
    other: AttributeKey,
)
    requires
        other != key,
    ensures
        before.insert(key, value).contains_key(key),
        before.insert(key, value)[key] == value,
        before.insert(key, value).contains_key(other) == before.contains_key(other),
        before.contains_key(other) ==> before.insert(key, value)[other] == before[other],
{
}

/// Inserting a key a second time leaves only the second value, and an
/// insert of a key that is present does not change the number of keys.
pub proof fn lemma_insert_twice(
    before: Map<AttributeKey, Option<Seq<char>>>,
    key: AttributeKey,
    first: Option<Seq<char>>,
    second: Option<Seq<char>>,
)
    requires
        before.dom().finite(),
    ensures
        before.insert(key, first).insert(key, second) == before.insert(key, second),
        before.insert(key, first).insert(key, second).dom().len() == before.insert(
            key,
            first,
        ).dom().len(),
        before.contains_key(key) ==> before.insert(key, second).dom().len() == before.dom().len(),
        !before.contains_key(key) ==> before.insert(key, second).dom().len() == before.dom().len()
            + 1,
{
    assert(before.insert(key, first).insert(key, second) =~= before.insert(key, second));
    if before.contains_key(key) {
        assert(before.insert(key, second).dom() =~= before.dom());
    }
}

/// Removing a key that is present leaves one key fewer and no other
/// change; removing an absent key changes nothing.
pub proof fn lemma_remove_len(before: Map<AttributeKey, Option<Seq<char>>>, key: AttributeKey)
    requires
        before.dom().finite(),
    ensures
        !before.remove(key).contains_key(key),
        before.contains_key(key) ==> before.remove(key).dom().len() == before.dom().len() - 1,
        !before.contains_key(key) ==> before.remove(key) == before,
{
    if !before.contains_key(key) {
        assert(before.remove(key) =~= before);
    }
}

/// `pairs` holds each entry of `entries` once and nothing else: every pair
/// is a key of `entries` with the value stored for it, no key comes twice,
/// and every key of `entries` comes.
pub open spec fn lists_exactly(
    pairs: Seq<(&Attribute, &Option<AttributeValue>)>,
    entries: Map<AttributeKey, Option<Seq<char>>>,
) -> bool {
    &&& pairs.len() == entries.dom().len()
    &&& forall|i: int|
        0 <= i < pairs.len() ==> entries.contains_key((#[trigger] pairs[i]).0@)
            && entries[pairs[i].0@] == value_view(*pairs[i].1)
    &&& forall|i: int, j: int|
        0 <= i < j < pairs.len() ==> (#[trigger] pairs[i]).0@ != (#[trigger] pairs[j]).0@
    &&& forall|key: AttributeKey|
        entries.contains_key(key) ==> exists|i: int|
            0 <= i < pairs.len() && (#[trigger] pairs[i]).0@ == key
}

/// Additional attributes of an object: a mapping from [`Attribute`] to an
/// optional [`AttributeValue`], where a key may be present without a value.
#[derive(Debug)]
pub struct Attributes {
    entries: Vec<(Attribute, Option<AttributeValue>)>,
}

impl View for Attributes {
    type V = Map<AttributeKey, Option<Seq<char>>>;

    closed spec fn view(&self) -> Map<AttributeKey, Option<Seq<char>>> {
        pairs_map(self.entries@)
    }
}

impl Attributes {
    /// Each key is stored once.
    #[verifier::type_invariant]
    spec fn wf(self) -> bool {
        distinct_keys(entry_views(self.entries@))
    }

    /// Create a new empty [`Attributes`]
    pub fn new() -> (attrs: Attributes)
        ensures
            attrs@ == Map::<AttributeKey, Option<Seq<char>>>::empty(),
    {
        Attributes { entries: Vec::new() }
    }

    /// Create a new [`Attributes`] with space for `capacity` [`Attribute`]
    pub fn with_capacity(capacity: usize) -> (attrs: Attributes)
        ensures
            attrs@ == Map::<AttributeKey, Option<Seq<char>>>::empty(),
    {
        Attributes { entries: Vec::with_capacity(capacity) }
    }

    /// Moves the stored pairs out and leaves the collection empty.
    fn take_entries(&mut self) -> (entries: Vec<(Attribute, Option<AttributeValue>)>)
        ensures
            entries@ == old(self).entries@,
    {
        let mut taken = Attributes::new();
        std::mem::swap(self, &mut taken);
        taken.entries
    }

    /// The place at which `key` is stored, if it is present.
    fn position(&self, key: &Attribute) -> (at: Option<usize>)
        ensures
            match at {
                Some(i) => i < self.entries@.len() && self.entries@[i as int].0@ == key@,
                None => !self@.contains_key(key@),
            },
    {
        proof {
            use_type_invariant(self);
        }
        let mut i: usize = 0;
        while i < self.entries.len()
            invariant
                i <= self.entries@.len(),
                forall|j: int| 0 <= j < i ==> (#[trigger] self.entries@[j]).0@ != key@,
            decreases self.entries@.len() - i,
        {
            if self.entries[i].0 == *key {
                return Some(i);
            }
            i += 1;
        }
        proof {
            lemma_seq_map_keys(entry_views(self.entries@), key@);
            if self@.contains_key(key@) {
                let at = choose|at: int|
                    0 <= at < self.entries@.len() && (#[trigger] entry_views(self.entries@)[at]).0
                        == key@;
                assert(self.entries@[at].0@ == key@);
            }
        }
        None
    }

    /// Insert a new [`Attribute`], [`AttributeValue`] pair
    ///
    /// Returns the previous value for `key` if any
    pub fn insert(&mut self, key: Attribute, value: Option<AttributeValue>) -> (previous: Option<
        Option<AttributeValue>,
    >)
        ensures
            final(self)@ == old(self)@.insert(key@, value_view(value)),
            match previous {
                Some(prior) => old(self)@.contains_key(key@) && value_view(prior) == old(self)@[key@],
                None => !old(self)@.contains_key(key@),
            },
    {
        let previous = self.remove(&key);
        proof {
            use_type_invariant(&*self);
            lemma_distinct_push(entry_views(self.entries@), entry_view((key, value)));
            assert(entry_views(self.entries@.push((key, value))) =~= entry_views(self.entries@).push(
                entry_view((key, value)),
            ));
            assert(old(self)@.remove(key@).insert(key@, value_view(value)) =~= old(self)@.insert(
                key@,
                value_view(value),
            ));
        }
        let mut entries = self.take_entries();
        entries.push((key, value));
        *self = Attributes { entries };
        previous
    }

    /// Returns the [`AttributeValue`] for `key` if any
    pub fn get(&self, key: &Attribute) -> (found: Option<&Option<AttributeValue>>)
        ensures
            match found {
                Some(value) => self@.contains_key(key@) && value_view(*value) == self@[key@],
                None => !self@.contains_key(key@),
            },
    {
        proof {
            use_type_invariant(self);
        }
        match self.position(key) {
            Some(i) => {
                proof {
                    lemma_seq_map_value(entry_views(self.entries@), i as int);
                }
                Some(&self.entries[i].1)
            },
            None => None,
        }
    }

    /// Removes the [`AttributeValue`] for `key` if any
    pub fn remove(&mut self, key: &Attribute) -> (previous: Option<Option<AttributeValue>>)
        ensures
            final(self)@ == old(self)@.remove(key@),
            match previous {
                Some(prior) => old(self)@.contains_key(key@) && value_view(prior) == old(self)@[key@],
                None => !old(self)@.contains_key(key@),
            },
    {
        proof {
            use_type_invariant(&*self);
        }
        match self.position(key) {
            Some(i) => {
                proof {
                    lemma_seq_map_value(entry_views(self.entries@), i as int);
                    lemma_seq_map_remove(entry_views(self.entries@), i as int);
                    assert(entry_views(self.entries@.remove(i as int)) =~= entry_views(
                        self.entries@,
                    ).remove(i as int));
                }
                let mut entries = self.take_entries();
                let taken = entries.remove(i);
                *self = Attributes { entries };
                Some(taken.1)
            },
            None => {
                assert(self@.remove(key@) =~= self@);
                None
            },
        }
    }

    /// Returns every stored pair once, in no particular order.
    pub fn iter(&self) -> (pairs: Vec<(&Attribute, &Option<AttributeValue>)>)
        ensures
            pairs@.len() == self@.dom().len(),
            forall|i: int|
                0 <= i < pairs@.len() ==> self@.contains_key((#[trigger] pairs@[i]).0@)
                    && self@[pairs@[i].0@] == value_view(*pairs@[i].1),
            forall|i: int, j: int|
                0 <= i < j < pairs@.len() ==> (#[trigger] pairs@[i]).0@ != (#[trigger] pairs@[j]).0@,
            forall|key: AttributeKey|
                self@.contains_key(key) ==> exists|i: int|
                    0 <= i < pairs@.len() && (#[trigger] pairs@[i]).0@ == key,
    {
        proof {
            use_type_invariant(self);
        }
        let mut pairs: Vec<(&Attribute, &Option<AttributeValue>)> = Vec::new();
        let mut i: usize = 0;
        while i < self.entries.len()
            invariant
                i <= self.entries@.len(),
                pairs@.len() == i,
                forall|j: int|
                    0 <= j < i ==> *(#[trigger] pairs@[j]).0 == self.entries@[j].0 && *pairs@[j].1
                        == self.entries@[j].1,
            decreases self.entries@.len() - i,
        {
            pairs.push((&self.entries[i].0, &self.entries[i].1));
            i += 1;
        }
        proof {
            lemma_seq_map_len(entry_views(self.entries@));
            assert forall|j: int| 0 <= j < pairs@.len() implies self@.contains_key(
                (#[trigger] pairs@[j]).0@,
            ) && self@[pairs@[j].0@] == value_view(*pairs@[j].1) by {
                lemma_seq_map_value(entry_views(self.entries@), j);
            }
            assert forall|a: int, b: int| 0 <= a < b < pairs@.len() implies (#[trigger] pairs@[a]).0@
                != (#[trigger] pairs@[b]).0@ by {
                assert(entry_views(self.entries@)[a].0 != entry_views(self.entries@)[b].0);
            }
            assert forall|key: AttributeKey| self@.contains_key(key) implies exists|j: int|
                0 <= j < pairs@.len() && (#[trigger] pairs@[j]).0@ == key by {
                lemma_seq_map_keys(entry_views(self.entries@), key);
                let j = choose|j: int|
                    0 <= j < self.entries@.len() && (#[trigger] self.entries@[j]).0@ == key;
                assert(pairs@[j].0@ == key);
            }
        }
        pairs
    }

    /// Returns every pair whose value is set, once each, in no particular
    /// order; keys that are present without a value are left out.
    pub fn iter_set_values(&self) -> (pairs: Vec<(&Attribute, &AttributeValue)>)
        ensures
            forall|i: int|
                0 <= i < pairs@.len() ==> self@.contains_key((#[trigger] pairs@[i]).0@)
                    && self@[pairs@[i].0@] == Some(pairs@[i].1@),
            forall|i: int, j: int|
                0 <= i < j < pairs@.len() ==> (#[trigger] pairs@[i]).0@ != (#[trigger] pairs@[j]).0@,
            forall|key: AttributeKey|
                self@.contains_key(key) && self@[key] is Some ==> exists|i: int|
                    0 <= i < pairs@.len() && (#[trigger] pairs@[i]).0@ == key,
    {
        proof {
            use_type_invariant(self);
        }
        let mut pairs: Vec<(&Attribute, &AttributeValue)> = Vec::new();
        let ghost mut from: Seq<int> = Seq::empty();
        let mut i: usize = 0;
        while i < self.entries.len()
            invariant
                i <= self.entries@.len(),
                from.len() == pairs@.len(),
                forall|j: int|
                    0 <= j < pairs@.len() ==> 0 <= (#[trigger] from[j]) < i && *pairs@[j].0
                        == self.entries@[from[j]].0 && self.entries@[from[j]].1 == Some(
                        *pairs@[j].1,
                    ),
                forall|a: int, b: int| 0 <= a < b < from.len() ==> from[a] < from[b],
                forall|k: int|
                    0 <= k < i && (#[trigger] self.entries@[k]).1 is Some ==> exists|j: int|
                        0 <= j < from.len() && (#[trigger] from[j]) == k,
            decreases self.entries@.len() - i,
        {
            match &self.entries[i].1 {
                Some(value) => {
                    proof {
                        let ghost before = from;
                        from = from.push(i as int);
                        assert forall|k: int|
                            0 <= k < i + 1 && (#[trigger] self.entries@[k]).1 is Some implies exists|
                            j: int,
                        | 0 <= j < from.len() && (#[trigger] from[j]) == k by {
                            if k < i {
                                let j = choose|j: int|
                                    0 <= j < before.len() && (#[trigger] before[j]) == k;
                                assert(from[j] == k);
                            } else {
                                assert(from[from.len() - 1] == k);
                            }
                        }
                    }
                    pairs.push((&self.entries[i].0, value));
                },
                None => {},
            }
            i += 1;
        }
        proof {
            assert forall|j: int| 0 <= j < pairs@.len() implies self@.contains_key(
                (#[trigger] pairs@[j]).0@,
            ) && self@[pairs@[j].0@] == Some(pairs@[j].1@) by {
                lemma_seq_map_value(entry_views(self.entries@), from[j]);
            }
            assert forall|a: int, b: int| 0 <= a < b < pairs@.len() implies (#[trigger] pairs@[a]).0@
                != (#[trigger] pairs@[b]).0@ by {
                assert(from[a] < from[b]);
                assert(entry_views(self.entries@)[from[a]].0 != entry_views(self.entries@)[from[b]].0);
            }
            assert forall|key: AttributeKey| self@.contains_key(key) && self@[key] is Some implies exists|
                j: int,
            | 0 <= j < pairs@.len() && (#[trigger] pairs@[j]).0@ == key by {
                lemma_seq_map_keys(entry_views(self.entries@), key);
                let k = choose|k: int|
                    0 <= k < self.entries@.len() && (#[trigger] self.entries@[k]).0@ == key;
                lemma_seq_map_value(entry_views(self.entries@), k);
                let j = choose|j: int| 0 <= j < from.len() && (#[trigger] from[j]) == k;
                assert(pairs@[j].0@ == key);
            }
        }
        pairs
    }

    /// Builds a collection from pairs, inserting each in turn: of two pairs
    /// with one key, the later one stays.
    pub fn from_iter(pairs: Vec<(Attribute, Option<AttributeValue>)>) -> (attrs: Attributes)
        ensures
            attrs@ == pairs_map(pairs@),
    {
        let ghost all = pairs@;
        let mut attrs = Attributes::with_capacity(pairs.len());
        for pair in it: pairs.into_iter()
            invariant
                it.seq() == all,
                    attrs@ == pairs_map(all.take(it.index())),
        {
            proof {
                let ghost upto = all.take(it.index() + 1);
                assert(upto.drop_last() == all.take(it.index()));
                assert(entry_views(upto).drop_last() =~= entry_views(upto.drop_last()));
                assert(entry_views(upto).last() == entry_view(pair));
            }
            attrs.insert(pair.0, pair.1);
        }
        proof {
            assert(all.take(all.len() as int) == all);
        }
        attrs
    }

    /// Returns the number of [`Attribute`] in this collection
    pub fn len(&self) -> (n: usize)
        ensures
            self@.dom().finite(),
            n == self@.dom().len(),
    {
        proof {
            use_type_invariant(self);
            lemma_seq_map_len(entry_views(self.entries@));
        }
        self.entries.len()
    }

    /// Returns true if this contains no [`Attribute`]
    pub fn is_empty(&self) -> (empty: bool)
        ensures
            empty == (self@ == Map::<AttributeKey, Option<Seq<char>>>::empty()),
    {
        proof {
            use_type_invariant(self);
            lemma_seq_map_len(entry_views(self.entries@));
            if self.entries@.len() == 0 {
                assert(self@ =~= Map::<AttributeKey, Option<Seq<char>>>::empty());
            }
        }
        self.entries.len() == 0
    }
}

impl Clone for Attributes {
    fn clone(&self) -> (copy: Attributes)
        ensures
            copy@ == self@,
    {
        proof {
            use_type_invariant(self);
        }
        let mut entries: Vec<(Attribute, Option<AttributeValue>)> = Vec::with_capacity(
            self.entries.len(),
        );
        let mut i: usize = 0;
        while i < self.entries.len()
            invariant
                i <= self.entries@.len(),
                entries@.len() == i,
                entry_views(entries@) == entry_views(self.entries@).take(i as int),
            decreases self.entries@.len() - i,
        {
            let key = self.entries[i].0.clone();
            let value = match &self.entries[i].1 {
                Some(v) => Some(v.clone()),
                None => None,
            };
            proof {
                assert(key@ == self.entries@[i as int].0@);
                assert(value_view(value) == value_view(self.entries@[i as int].1));
                let ghost grown = entry_views(entries@.push((key, value)));
                let ghost wanted = entry_views(self.entries@).take(i + 1);
                assert forall|j: int| 0 <= j < grown.len() implies grown[j] == wanted[j] by {
                    if j < i {
                        assert(grown[j] == entry_views(entries@)[j]);
                        assert(entry_views(self.entries@).take(i as int)[j] == wanted[j]);
                    }
                }
                assert(grown =~= wanted);
            }
            entries.push((key, value));
            i += 1;
        }
        proof {
            assert(entry_views(self.entries@).take(i as int) == entry_views(self.entries@));
        }
        Attributes { entries }
    }
}

impl PartialEq for Attributes {
    fn eq(&self, other: &Attributes) -> (same: bool) {
        proof {
            use_type_invariant(self);
            use_type_invariant(other);
            lemma_seq_map_len(entry_views(self.entries@));
            lemma_seq_map_len(entry_views(other.entries@));
        }
        if self.entries.len() != other.entries.len() {
            return false;
        }
        let mut i: usize = 0;
        while i < self.entries.len()
            invariant
                i <= self.entries@.len(),
                self.entries@.len() == other.entries@.len(),
                forall|j: int|
                    0 <= j < i ==> other@.contains_key((#[trigger] entry_views(self.entries@)[j]).0)
                        && other@[entry_views(self.entries@)[j].0] == entry_views(
                        self.entries@,
                    )[j].1,
            decreases self.entries@.len() - i,
        {
            proof {
                use_type_invariant(self);
                lemma_seq_map_value(entry_views(self.entries@), i as int);
            }
            let matched = match other.get(&self.entries[i].0) {
                Some(theirs) => match (&self.entries[i].1, theirs) {
                    (Some(a), Some(b)) => a == b,
                    (None, None) => true,
                    _ => false,
                },
                None => false,
            };
            if !matched {
                return false;
            }
            i += 1;
        }
        proof {
            use_type_invariant(self);
            use_type_invariant(other);
            lemma_same_pairs(entry_views(self.entries@), entry_views(other.entries@));
        }
        true
    }
}

impl PartialEqSpecImpl for Attributes {
    open spec fn obeys_eq_spec() -> bool {
        true
    }

    open spec fn eq_spec(&self, other: &Attributes) -> bool {
        self@ == other@
    }
}

impl Eq for Attributes {

}

impl<'a> IntoIterator for &'a Attributes {
    type Item = (&'a Attribute, &'a Option<AttributeValue>);

    type IntoIter = std::vec::IntoIter<(&'a Attribute, &'a Option<AttributeValue>)>;

    fn into_iter(self) -> (pairs: std::vec::IntoIter<(&'a Attribute, &'a Option<AttributeValue>)>)
        ensures
            lists_exactly(IteratorSpec::remaining(&pairs), self@),
            IteratorSpec::decrease(&pairs) is Some,
            IteratorSpec::initial_value_relation(&pairs, &pairs),
    {
        broadcast use vstd::std_specs::vec::axiom_spec_into_iter;

        self.iter().into_iter()
    }
}

impl Default for Attributes {
    fn default() -> (attrs: Attributes)
        ensures
            attrs@ == Map::<AttributeKey, Option<Seq<char>>>::empty(),
    {
        Attributes::new()
    }
}

} // verus!
