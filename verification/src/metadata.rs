//! Client-supplied descriptive metadata of an upload, and its wire form.

use crate::text::same_text;
use base64::Engine;
use vstd::prelude::*;
use vstd::utf8::*;

verus! {

/// One key with its value, as texts.
pub type EntryView = (Seq<char>, Seq<char>);

/// Key-value metadata of an upload, for instance its file name.
///
/// The entries are kept in the order in which their keys first arrived. A
/// well-formed value holds each key once, so it stands for a mapping.
#[derive(Debug)]
pub struct Metadata {
    pub entries: Vec<(String, String)>,
}

impl View for Metadata {
    type V = Seq<EntryView>;

    open spec fn view(&self) -> Seq<EntryView> {
        self.entries@.map_values(|e: (String, String)| (e.0@, e.1@))
    }
}

impl Clone for Metadata {
    /// Metadata with the same entries in the same order.
    fn clone(&self) -> (copy: Self)
        ensures
            copy@ == self@,
    {
        let mut entries: Vec<(String, String)> = Vec::new();
        let mut i: usize = 0;
        while i < self.entries.len()
            invariant
                i <= self.entries.len(),
                entries@.len() == i,
                forall|k: int|
                    0 <= k < i ==> (#[trigger] entries@[k]).0@ == self.entries@[k].0@
                        && entries@[k].1@ == self.entries@[k].1@,
            decreases self.entries.len() - i,
        {
            entries.push((self.entries[i].0.clone(), self.entries[i].1.clone()));
            i = i + 1;
        }
        let copy = Metadata { entries };
        assert(copy@ =~= self@);
        copy
    }
}

/// No key occurs in two entries.
pub open spec fn distinct_keys(entries: Seq<EntryView>) -> bool {
    forall|i: int, j: int|
        0 <= i < j < entries.len() ==> (#[trigger] entries[i]).0 != (#[trigger] entries[j]).0
}

/// Some entry has the key.
pub open spec fn has_key(entries: Seq<EntryView>, key: Seq<char>) -> bool {
    exists|i: int| 0 <= i < entries.len() && (#[trigger] entries[i]).0 == key
}

/// Entry `i` has the key and no earlier entry has it.
pub open spec fn is_first_match(entries: Seq<EntryView>, key: Seq<char>, i: int) -> bool {
    &&& 0 <= i < entries.len()
    &&& entries[i].0 == key
    &&& forall|j: int| 0 <= j < i ==> (#[trigger] entries[j]).0 != key
}

/// The position of the first entry with the key, if there is one.
pub open spec fn position_of(entries: Seq<EntryView>, key: Seq<char>) -> Option<int> {
    if exists|i: int| is_first_match(entries, key, i) {
        Some(choose|i: int| is_first_match(entries, key, i))
    } else {
        None
    }
}

/// The value stored under the key, if there is one.
pub open spec fn lookup(entries: Seq<EntryView>, key: Seq<char>) -> Option<Seq<char>> {
    match position_of(entries, key) {
        Some(i) => Some(entries[i].1),
        None => None,
    }
}

/// The entries after the value of `key` has been set: an entry with the key
/// takes the new value in place, otherwise a new entry goes to the end.
pub open spec fn with_entry(entries: Seq<EntryView>, key: Seq<char>, value: Seq<char>) -> Seq<
    EntryView,
> {
    match position_of(entries, key) {
        Some(i) => entries.update(i, (key, value)),
        None => entries.push((key, value)),
    }
}

/// A first match is the position that `position_of` reports.
pub proof fn lemma_first_match_is_position(entries: Seq<EntryView>, key: Seq<char>, i: int)
    requires
        is_first_match(entries, key, i),
    ensures
        position_of(entries, key) == Some(i),
{
    let c = choose|c: int| is_first_match(entries, key, c);
    assert(is_first_match(entries, key, c));
    if c < i {
        assert(entries[c].0 != key);
    }
    if i < c {
        assert(entries[i].0 != key);
    }
}

/// Without the key there is no position.
pub proof fn lemma_no_key_no_position(entries: Seq<EntryView>, key: Seq<char>)
    requires
        forall|j: int| 0 <= j < entries.len() ==> (#[trigger] entries[j]).0 != key,
    ensures
        position_of(entries, key) is None,
        !has_key(entries, key),
{
    if exists|i: int| is_first_match(entries, key, i) {
        let c = choose|c: int| is_first_match(entries, key, c);
        assert(entries[c].0 != key);
    }
}

/// Setting a value keeps the keys distinct, and the key then maps to it.
pub proof fn lemma_with_entry(entries: Seq<EntryView>, key: Seq<char>, value: Seq<char>)
    requires
        distinct_keys(entries),
    ensures
        distinct_keys(with_entry(entries, key, value)),
        lookup(with_entry(entries, key, value), key) == Some(value),
        forall|other: Seq<char>|
            other != key ==> lookup(with_entry(entries, key, value), other) == lookup(
                entries,
                other,
            ),
{
    let after = with_entry(entries, key, value);
    match position_of(entries, key) {
        Some(i) => {
            assert(is_first_match(entries, key, i));
            assert forall|a: int, b: int| 0 <= a < b < after.len() implies (#[trigger] after[a]).0
                != (#[trigger] after[b]).0 by {
                assert(entries[a].0 != entries[b].0);
            }
            assert(is_first_match(after, key, i)) by {
                assert forall|j: int| 0 <= j < i implies (#[trigger] after[j]).0 != key by {
                    assert(entries[j].0 != key);
                }
            }
            lemma_first_match_is_position(after, key, i);
            assert forall|other: Seq<char>| other != key implies lookup(after, other) == lookup(
                entries,
                other,
            ) by {
                lemma_same_keys_same_lookup(entries, after, other, i);
            }
        },
        None => {
            assert forall|j: int| 0 <= j < entries.len() implies (#[trigger] entries[j]).0
                != key by {
                if entries[j].0 == key {
                    lemma_some_match_has_first(entries, key, j);
                }
            }
            let n = entries.len() as int;
            assert forall|a: int, b: int| 0 <= a < b < after.len() implies (#[trigger] after[a]).0
                != (#[trigger] after[b]).0 by {
                if b < n {
                    assert(entries[a].0 != entries[b].0);
                } else {
                    assert(entries[a].0 != key);
                }
            }
            assert(is_first_match(after, key, n)) by {
                assert forall|j: int| 0 <= j < n implies (#[trigger] after[j]).0 != key by {
                    assert(entries[j].0 != key);
                }
            }
            lemma_first_match_is_position(after, key, n);
            assert forall|other: Seq<char>| other != key implies lookup(after, other) == lookup(
                entries,
                other,
            ) by {
                lemma_push_other_key(entries, key, value, other);
            }
        },
    }
}

/// If some entry has the key, some entry is the first to have it.
pub proof fn lemma_some_match_has_first(entries: Seq<EntryView>, key: Seq<char>, i: int)
    requires
        0 <= i < entries.len(),
        entries[i].0 == key,
    ensures
        exists|f: int| is_first_match(entries, key, f),
    decreases i,
{
    if forall|j: int| 0 <= j < i ==> (#[trigger] entries[j]).0 != key {
        assert(is_first_match(entries, key, i));
    } else {
        let j = choose|j: int| 0 <= j < i && (#[trigger] entries[j]).0 == key;
        lemma_some_match_has_first(entries, key, j);
    }
}

proof fn lemma_same_keys_same_lookup(
    before: Seq<EntryView>,
    after: Seq<EntryView>,
    other: Seq<char>,
    i: int,
)
    requires
        0 <= i < before.len(),
        after.len() == before.len(),
        after[i].0 == before[i].0,
        before[i].0 != other,
        forall|j: int| 0 <= j < before.len() && j != i ==> after[j] == before[j],
    ensures
        lookup(after, other) == lookup(before, other),
{
    if exists|f: int| is_first_match(before, other, f) {
        let f = choose|f: int| is_first_match(before, other, f);
        assert(is_first_match(after, other, f)) by {
            assert forall|j: int| 0 <= j < f implies (#[trigger] after[j]).0 != other by {
                assert(before[j].0 != other);
            }
        }
        lemma_first_match_is_position(after, other, f);
    } else {
        if exists|g: int| is_first_match(after, other, g) {
            let g = choose|g: int| is_first_match(after, other, g);
            assert(is_first_match(before, other, g)) by {
                assert forall|j: int| 0 <= j < g implies (#[trigger] before[j]).0 != other by {
                    assert(after[j].0 != other);
                }
            }
        }
    }
}

proof fn lemma_push_other_key(
    entries: Seq<EntryView>,
    key: Seq<char>,
    value: Seq<char>,
    other: Seq<char>,
)
    requires
        other != key,
    ensures
        lookup(entries.push((key, value)), other) == lookup(entries, other),
{
    let after = entries.push((key, value));
    if exists|f: int| is_first_match(entries, other, f) {
        let f = choose|f: int| is_first_match(entries, other, f);
        assert(is_first_match(after, other, f)) by {
            assert forall|j: int| 0 <= j < f implies (#[trigger] after[j]).0 != other by {
                assert(entries[j].0 != other);
            }
        }
        lemma_first_match_is_position(after, other, f);
    } else {
        if exists|g: int| is_first_match(after, other, g) {
            let g = choose|g: int| is_first_match(after, other, g);
            assert(after[g].0 == other);
            assert(g < entries.len());
            assert(is_first_match(entries, other, g)) by {
                assert forall|j: int| 0 <= j < g implies (#[trigger] entries[j]).0 != other by {
                    assert(after[j].0 != other);
                }
            }
        }
    }
}

impl Metadata {
    /// Each key occurs once.
    pub open spec fn wf(&self) -> bool {
        distinct_keys(self@)
    }

    /// Metadata without entries.
    pub fn new() -> (metadata: Metadata)
        ensures
            metadata@ == Seq::<EntryView>::empty(),
            metadata.wf(),
    {
        let metadata = Metadata { entries: Vec::new() };
        assert(metadata@ =~= Seq::<EntryView>::empty());
        metadata
    }

    /// The number of entries.
    pub fn len(&self) -> (n: usize)
        ensures
            n == self@.len(),
    {
        self.entries.len()
    }

    /// Whether there is no entry.
    pub fn is_empty(&self) -> (empty: bool)
        ensures
            empty == (self@.len() == 0),
    {
        self.entries.len() == 0
    }

    /// The index of the first entry with the key.
    fn find(&self, key: &str) -> (found: Option<usize>)
        ensures
            match found {
                Some(i) => position_of(self@, key@) == Some(i as int),
                None => position_of(self@, key@) is None && !has_key(self@, key@),
            },
    {
        let mut i: usize = 0;
        while i < self.entries.len()
            invariant
                i <= self.entries.len(),
                forall|j: int| 0 <= j < i ==> (#[trigger] self@[j]).0 != key@,
            decreases self.entries.len() - i,
        {
            if same_text(self.entries[i].0.as_str(), key) {
                proof {
                    assert(is_first_match(self@, key@, i as int));
                    lemma_first_match_is_position(self@, key@, i as int);
                }
                return Some(i);
            }
            i = i + 1;
        }
        proof {
            lemma_no_key_no_position(self@, key@);
        }
        None
    }

    /// The value stored under the key.
    pub fn get(&self, key: &str) -> (value: Option<&String>)
        ensures
            match value {
                Some(v) => lookup(self@, key@) == Some(v@),
                None => lookup(self@, key@) is None,
            },
    {
        match self.find(key) {
            Some(i) => Some(&self.entries[i].1),
            None => None,
        }
    }

    /// Stores the value under the key, replacing the value the key had.
    pub fn insert(&mut self, key: String, value: String)
        ensures
            final(self)@ == with_entry(old(self)@, key@, value@),
            old(self).wf() ==> final(self).wf(),
    {
        let found = self.find(key.as_str());
        let ghost before = self@;
        let ghost k = key@;
        let ghost v = value@;
        match found {
            Some(i) => {
                self.entries.set(i, (key, value));
                assert(self@ =~= before.update(i as int, (k, v)));
            },
            None => {
                self.entries.push((key, value));
                assert(self@ =~= before.push((k, v)));
            },
        }
        proof {
            if distinct_keys(before) {
                lemma_with_entry(before, k, v);
            }
        }
    }
}

/// The standard base64 text, with padding, of a byte sequence.
pub uninterp spec fn base64_text(bytes: Seq<u8>) -> Seq<char>;

/// A letter, a digit, `+`, `/` or the padding sign `=`.
pub open spec fn is_base64_char(c: char) -> bool {
    ||| 'A' <= c <= 'Z'
    ||| 'a' <= c <= 'z'
    ||| '0' <= c <= '9'
    ||| c == '+'
    ||| c == '/'
    ||| c == '='
}

/// Encodes bytes as base64 text.
///
/// Trusted: stands for `Engine::encode` of the `base64` crate's `STANDARD`
/// engine, whose output is a function of the input and is drawn from the
/// standard alphabet and the padding sign. The engine gives up only where
/// the text, a third longer than the input, cannot be allocated.
#[verifier::external_body]
pub(crate) fn base64_encode(bytes: &[u8]) -> (text: String)
    ensures
        text@ == base64_text(bytes@),
        forall|i: int| 0 <= i < text@.len() ==> is_base64_char(#[trigger] text@[i]),
{
    base64::engine::general_purpose::STANDARD.encode(bytes)
}

/// The base64 text of the value holds only letters, digits, `+`, `/`, `=`.
pub open spec fn clean_value(value: Seq<char>) -> bool {
    forall|i: int|
        0 <= i < base64_text(encode_utf8(value)).len() ==> is_base64_char(
            #[trigger] base64_text(encode_utf8(value))[i],
        )
}

/// Every value has a clean base64 text.
pub open spec fn clean_values(entries: Seq<EntryView>) -> bool {
    forall|i: int| 0 <= i < entries.len() ==> clean_value((#[trigger] entries[i]).1)
}

/// The wire form of one entry: the key, a space, the value in base64.
pub open spec fn entry_text(entry: EntryView) -> Seq<char> {
    entry.0 + seq![' '] + base64_text(encode_utf8(entry.1))
}

/// The wire form of the entries: their texts in order, joined by commas.
pub open spec fn metadata_text(entries: Seq<EntryView>) -> Seq<char>
    decreases entries.len(),
{
    if entries.len() == 0 {
        Seq::empty()
    } else if entries.len() == 1 {
        entry_text(entries[0])
    } else {
        metadata_text(entries.drop_last()) + seq![','] + entry_text(entries.last())
    }
}

impl Metadata {
    /// The entries in their wire form, or nothing when there is no entry.
    pub fn to_wire(&self) -> (wire: Option<String>)
        ensures
            self@.len() == 0 <==> wire is None,
            wire matches Some(text) ==> text@ == metadata_text(self@),
            clean_values(self@),
    {
        if self.entries.len() == 0 {
            return None;
        }
        let mut text = String::new();
        let mut i: usize = 0;
        while i < self.entries.len()
            invariant
                i <= self.entries.len(),
                text@ == metadata_text(self@.take(i as int)),
                forall|k: int| 0 <= k < i ==> clean_value((#[trigger] self@[k]).1),
            decreases self.entries.len() - i,
        {
            let encoded = base64_encode(self.entries[i].1.as_str().as_bytes());
            assert(clean_value(self@[i as int].1));
            proof {
                let next = self@.take(i + 1);
                assert(next.drop_last() =~= self@.take(i as int));
                assert(next.last() == self@[i as int]);
                reveal_strlit(",");
                reveal_strlit(" ");
                assert(","@ =~= seq![',']);
                assert(" "@ =~= seq![' ']);
            }
            if i > 0 {
                text.append(",");
            }
            text.append(self.entries[i].0.as_str());
            text.append(" ");
            text.append(encoded.as_str());
            proof {
                let next = self@.take(i + 1);
                assert(text@ =~= metadata_text(next));
            }
            i = i + 1;
        }
        proof {
            assert(self@.take(self@.len() as int) =~= self@);
        }
        Some(text)
    }
}

} // verus!
