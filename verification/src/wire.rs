//! Reading the wire form of metadata back into metadata.

use crate::metadata::{base64_text, clean_value, clean_values, distinct_keys, entry_text};
use crate::metadata::{is_base64_char, lemma_no_key_no_position, metadata_text, with_entry};
use crate::metadata::{EntryView, Metadata};
use crate::text::push_char;
use base64::Engine;
use vstd::prelude::*;
use vstd::std_specs::iter::IteratorSpec;
use vstd::utf8::*;

verus! {

broadcast use vstd::string::group_string_axioms;

/// The first position at or after `from` that holds `c`, or the length of
/// the text where there is none.
pub open spec fn find_char(s: Seq<char>, c: char, from: int) -> int
    decreases s.len() - from,
{
    if from < 0 || from >= s.len() {
        s.len() as int
    } else if s[from] == c {
        from
    } else {
        find_char(s, c, from + 1)
    }
}

/// `find_char` stays within the text and stops at the first `c`.
pub proof fn lemma_find_char(s: Seq<char>, c: char, from: int)
    requires
        0 <= from <= s.len(),
    ensures
        from <= find_char(s, c, from) <= s.len(),
        forall|k: int| from <= k < find_char(s, c, from) ==> s[k] != c,
        find_char(s, c, from) < s.len() ==> s[find_char(s, c, from)] == c,
    decreases s.len() - from,
{
    if from < s.len() && s[from] != c {
        lemma_find_char(s, c, from + 1);
    }
}

/// A position that is the first to hold `c` is the one `find_char` reports.
pub proof fn lemma_find_char_is(s: Seq<char>, c: char, from: int, at: int)
    requires
        0 <= from <= at <= s.len(),
        forall|k: int| from <= k < at ==> s[k] != c,
        at < s.len() ==> s[at] == c,
    ensures
        find_char(s, c, from) == at,
    decreases at - from,
{
    if from < at {
        lemma_find_char_is(s, c, from + 1, at);
    }
}

/// The bytes that a base64 text stands for, where it is well-formed.
pub uninterp spec fn base64_bytes(text: Seq<char>) -> Option<Seq<u8>>;

/// Why the `base64` crate refused a text.
#[verifier::external_type_specification]
#[verifier::external_body]
pub struct ExDecodeError(base64::DecodeError);

/// Why the standard library refused bytes as UTF-8.
#[verifier::external_type_specification]
#[verifier::external_body]
pub struct ExFromUtf8Error(std::string::FromUtf8Error);

/// Decodes base64 text.
///
/// Trusted: stands for `Engine::decode` of the `base64` crate's `STANDARD`
/// engine. Whether it succeeds, and with which bytes, is a function of the
/// text; and a text that the same engine produced by encoding some bytes
/// decodes to those bytes.
#[verifier::external_body]
pub(crate) fn base64_decode(text: &str) -> (bytes: Result<Vec<u8>, base64::DecodeError>)
    ensures
        match bytes {
            Ok(b) => base64_bytes(text@) == Some(b@),
            Err(_) => base64_bytes(text@) is None,
        },
        forall|source: Seq<u8>|
            text@ == #[trigger] base64_text(source) ==> bytes is Ok && bytes->Ok_0@ == source,
{
    base64::engine::general_purpose::STANDARD.decode(text)
}

/// Turns bytes into a string where they are valid UTF-8.
///
/// Trusted: stands for `String::from_utf8` of the standard library, which
/// accepts exactly the valid UTF-8 sequences and then holds the text that
/// the bytes encode.
#[verifier::external_body]
pub(crate) fn string_from_utf8(bytes: Vec<u8>) -> (text: Result<String, std::string::FromUtf8Error>)
    ensures
        match text {
            Ok(t) => valid_utf8(bytes@) && t@ == decode_utf8(bytes@),
            Err(_) => !valid_utf8(bytes@),
        },
{
    String::from_utf8(bytes)
}

/// The text that a base64 value stands for: its bytes, read as UTF-8.
pub open spec fn decoded_value(text: Seq<char>) -> Option<Seq<char>> {
    match base64_bytes(text) {
        Some(bytes) => if valid_utf8(bytes) {
            Some(decode_utf8(bytes))
        } else {
            None
        },
        None => None,
    }
}

/// One entry read back: the key is what stands before the first space, the
/// value is what the base64 text after it stands for. An entry without a
/// space is a key with an empty value.
pub open spec fn parse_entry(e: Seq<char>) -> Option<EntryView> {
    let i = find_char(e, ' ', 0);
    if i >= e.len() {
        Some((e, Seq::empty()))
    } else {
        match decoded_value(e.skip(i + 1)) {
            Some(value) => Some((e.take(i), value)),
            None => None,
        }
    }
}

/// The entries read from position `from` on: the text is cut at each comma
/// and every piece is read as an entry. One bad piece spoils the whole.
pub open spec fn parse_entries(s: Seq<char>, from: int) -> Option<Seq<EntryView>>
    decreases s.len() - from,
{
    let j = find_char(s, ',', from);
    if from < 0 || from > s.len() || j < from {
        None
    } else {
        match parse_entry(s.subrange(from, j)) {
            None => None,
            Some(entry) => if j >= s.len() {
                Some(seq![entry])
            } else {
                match parse_entries(s, j + 1) {
                    None => None,
                    Some(rest) => Some(seq![entry] + rest),
                }
            },
        }
    }
}

/// The entries gathered into metadata one after the other, a later value
/// for a key replacing the earlier one.
pub open spec fn collected(entries: Seq<EntryView>) -> Seq<EntryView>
    decreases entries.len(),
{
    if entries.len() == 0 {
        Seq::empty()
    } else {
        with_entry(collected(entries.drop_last()), entries.last().0, entries.last().1)
    }
}

/// The metadata that a wire text stands for: none for the empty text,
/// otherwise the entries between the commas, gathered.
pub open spec fn parse_wire(s: Seq<char>) -> Option<Seq<EntryView>> {
    if s.len() == 0 {
        Some(Seq::empty())
    } else {
        match parse_entries(s, 0) {
            Some(entries) => Some(collected(entries)),
            None => None,
        }
    }
}

/// Entries read so far, followed by what the rest of the text yields.
pub open spec fn followed_by(read: Seq<EntryView>, rest: Option<Seq<EntryView>>) -> Option<
    Seq<EntryView>,
> {
    match rest {
        Some(r) => Some(read + r),
        None => None,
    }
}

/// The text decodes to the bytes of which it is the encoding.
pub open spec fn decodes_own_encoding(text: Seq<char>) -> bool {
    forall|source: Seq<u8>|
        text == #[trigger] base64_text(source) ==> base64_bytes(text) == Some(source)
}

/// The value part of the piece, where it has one, decodes to the bytes of
/// which it is the encoding.
pub open spec fn piece_honest(e: Seq<char>) -> bool {
    let i = find_char(e, ' ', 0);
    i < e.len() ==> decodes_own_encoding(e.skip(i + 1))
}

/// Every piece that is read from position `from` on is honest.
pub open spec fn pieces_honest(s: Seq<char>, from: int) -> bool
    decreases s.len() - from,
{
    let j = find_char(s, ',', from);
    if from < 0 || from > s.len() || j < from {
        true
    } else {
        &&& piece_honest(s.subrange(from, j))
        &&& parse_entry(s.subrange(from, j)) is Some && j < s.len() ==> pieces_honest(s, j + 1)
    }
}

/// The key holds neither a comma nor a space.
pub open spec fn plain_key(key: Seq<char>) -> bool {
    forall|i: int| 0 <= i < key.len() ==> #[trigger] key[i] != ',' && key[i] != ' '
}

/// No key holds a comma or a space.
pub open spec fn plain_keys(entries: Seq<EntryView>) -> bool {
    forall|i: int| 0 <= i < entries.len() ==> plain_key((#[trigger] entries[i]).0)
}

/// The wire form of several entries starts with the first entry and a comma.
pub proof fn lemma_text_front(entries: Seq<EntryView>)
    requires
        entries.len() >= 2,
    ensures
        metadata_text(entries) == entry_text(entries[0]) + seq![','] + metadata_text(
            entries.drop_first(),
        ),
    decreases entries.len(),
{
    let head = entry_text(entries[0]);
    let last = entry_text(entries.last());
    if entries.len() == 2 {
        reveal_with_fuel(metadata_text, 2);
        assert(entries.drop_last().len() == 1);
        assert(entries.drop_first().len() == 1);
        assert(entries.drop_last()[0] == entries[0]);
        assert(entries.drop_first()[0] == entries.last());
    } else {
        lemma_text_front(entries.drop_last());
        let middle = entries.drop_last().drop_first();
        assert(entries.drop_first().drop_last() =~= middle);
        assert(entries.drop_last()[0] == entries[0]);
        assert(entries.drop_first().last() == entries.last());
        assert((head + seq![','] + metadata_text(middle)) + seq![','] + last =~= head + seq![',']
            + (metadata_text(middle) + seq![','] + last));
    }
}

/// The wire form of one entry holds no comma where the key is plain and
/// the value clean, and its first space is the one after the key.
pub proof fn lemma_entry_text_shape(entry: EntryView)
    requires
        plain_key(entry.0),
        clean_value(entry.1),
    ensures
        forall|k: int| 0 <= k < entry_text(entry).len() ==> entry_text(entry)[k] != ',',
        find_char(entry_text(entry), ' ', 0) == entry.0.len(),
        entry.0.len() < entry_text(entry).len(),
        entry_text(entry).take(entry.0.len() as int) == entry.0,
        entry_text(entry).skip(entry.0.len() as int + 1) == base64_text(encode_utf8(entry.1)),
{
    let t = entry_text(entry);
    let n = entry.0.len() as int;
    let enc = base64_text(encode_utf8(entry.1));
    assert forall|k: int| 0 <= k < t.len() implies t[k] != ',' by {
        if k < n {
            assert(t[k] == entry.0[k]);
        } else if k == n {
            assert(t[k] == ' ');
        } else {
            assert(t[k] == enc[k - n - 1]);
            assert(is_base64_char(enc[k - n - 1]));
        }
    }
    assert forall|k: int| 0 <= k < n implies t[k] != ' ' by {
        assert(t[k] == entry.0[k]);
    }
    assert(t[n] == ' ');
    lemma_find_char_is(t, ' ', 0, n);
    assert(t.take(n) =~= entry.0);
    assert(t.skip(n + 1) =~= enc);
}

/// An honest piece that is the wire form of an entry reads back as it.
pub proof fn lemma_entry_reads_back(entry: EntryView)
    requires
        plain_key(entry.0),
        clean_value(entry.1),
        piece_honest(entry_text(entry)),
    ensures
        parse_entry(entry_text(entry)) == Some(entry),
{
    lemma_entry_text_shape(entry);
    let enc = base64_text(encode_utf8(entry.1));
    assert(decodes_own_encoding(enc));
    assert(base64_bytes(enc) == Some(encode_utf8(entry.1)));
    encode_utf8_valid_utf8(entry.1);
    encode_utf8_decode_utf8(entry.1);
}

/// Where the text from `from` on is the wire form of entries with plain
/// keys and clean values, and its pieces are honest, it reads back as them.
pub proof fn lemma_entries_read_back(s: Seq<char>, from: int, entries: Seq<EntryView>)
    requires
        0 <= from <= s.len(),
        entries.len() > 0,
        s.subrange(from, s.len() as int) == metadata_text(entries),
        plain_keys(entries),
        clean_values(entries),
        pieces_honest(s, from),
    ensures
        parse_entries(s, from) == Some(entries),
    decreases entries.len(),
{
    let tail = s.subrange(from, s.len() as int);
    let head = entry_text(entries[0]);
    lemma_entry_text_shape(entries[0]);
    if entries.len() == 1 {
        assert(tail == head);
        assert forall|k: int| from <= k < s.len() implies s[k] != ',' by {
            assert(s[k] == tail[k - from]);
        }
        lemma_find_char_is(s, ',', from, s.len() as int);
        lemma_entry_reads_back(entries[0]);
        assert(seq![entries[0]] =~= entries);
    } else {
        lemma_text_front(entries);
        let rest = entries.drop_first();
        let j = from + head.len();
        assert(tail == head + seq![','] + metadata_text(rest));
        assert forall|k: int| from <= k < j implies s[k] != ',' by {
            assert(s[k] == tail[k - from]);
            assert(tail[k - from] == head[k - from]);
        }
        assert(s[j] == tail[j - from]);
        assert(tail[j - from] == ',');
        lemma_find_char_is(s, ',', from, j);
        assert(s.subrange(from, j) =~= head);
        lemma_entry_reads_back(entries[0]);
        let after = s.subrange(j + 1, s.len() as int);
        let text = metadata_text(rest);
        assert(tail.len() == head.len() + 1 + text.len());
        assert(after.len() == text.len());
        assert forall|k: int| 0 <= k < text.len() implies after[k] == text[k] by {
            assert(after[k] == s[j + 1 + k]);
            assert(s[j + 1 + k] == tail[j + 1 + k - from]);
            assert(tail[head.len() + 1 + k] == text[k]);
        }
        assert(after =~= text);
        assert forall|i: int| 0 <= i < rest.len() implies plain_key((#[trigger] rest[i]).0) by {
            assert(rest[i] == entries[i + 1]);
        }
        assert forall|i: int| 0 <= i < rest.len() implies clean_value((#[trigger] rest[i]).1) by {
            assert(rest[i] == entries[i + 1]);
        }
        lemma_entries_read_back(s, j + 1, rest);
        assert(seq![entries[0]] + rest =~= entries);
    }
}

/// Entries with distinct keys are gathered as they are.
pub proof fn lemma_collected_distinct(entries: Seq<EntryView>)
    requires
        distinct_keys(entries),
    ensures
        collected(entries) == entries,
    decreases entries.len(),
{
    if entries.len() > 0 {
        let front = entries.drop_last();
        assert forall|i: int, j: int| 0 <= i < j < front.len() implies (#[trigger] front[i]).0 != (
        #[trigger] front[j]).0 by {
            assert(entries[i].0 != entries[j].0);
        }
        lemma_collected_distinct(front);
        assert forall|k: int| 0 <= k < front.len() implies (#[trigger] front[k]).0
            != entries.last().0 by {
            assert(entries[k].0 != entries[entries.len() - 1].0);
        }
        lemma_no_key_no_position(front, entries.last().0);
        assert(front.push((entries.last().0, entries.last().1)) =~= entries);
    } else {
        assert(entries =~= Seq::<EntryView>::empty());
    }
}

/// The wire form of entries with plain, distinct keys and clean values
/// reads back as exactly those entries, where the pieces of the text are
/// honest.
pub proof fn lemma_wire_reads_back(s: Seq<char>, entries: Seq<EntryView>)
    requires
        s == metadata_text(entries),
        plain_keys(entries),
        distinct_keys(entries),
        clean_values(entries),
        s.len() > 0 ==> pieces_honest(s, 0),
    ensures
        parse_wire(s) == Some(entries),
{
    if entries.len() == 0 {
        assert(entries =~= Seq::<EntryView>::empty());
    } else {
        lemma_text_not_empty(entries);
        assert(s.subrange(0, s.len() as int) =~= s);
        lemma_entries_read_back(s, 0, entries);
        lemma_collected_distinct(entries);
    }
}

/// The wire form of at least one entry is not empty.
pub proof fn lemma_text_not_empty(entries: Seq<EntryView>)
    requires
        entries.len() > 0,
    ensures
        metadata_text(entries).len() > 0,
{
    assert(entry_text(entries.last()).len() > 0);
}

/// The characters of a string.
fn chars_of(text: &str) -> (chars: Vec<char>)
    ensures
        chars@ == text@,
{
    let mut it = text.chars();
    let mut chars: Vec<char> = Vec::new();
    assert(chars@ + it.remaining() =~= text@);
    loop
        invariant
            it.obeys_prophetic_iter_laws(),
            it.decrease() is Some,
            chars@ + it.remaining() == text@,
        ensures
            chars@ == text@,
        decreases it.decrease()->0,
    {
        let ghost before = it.remaining();
        let ghost earlier = chars@;
        match it.next() {
            Some(c) => {
                chars.push(c);
                assert(chars@ + it.remaining() =~= earlier + before);
            },
            None => {
                assert(chars@ + it.remaining() =~= chars@);
                break;
            },
        }
    }
    chars
}

/// The first position at or after `from` that holds `c`.
fn scan(chars: &Vec<char>, c: char, from: usize) -> (at: usize)
    requires
        from <= chars@.len(),
    ensures
        at == find_char(chars@, c, from as int),
        from <= at <= chars@.len(),
{
    let mut i: usize = from;
    while i < chars.len() && chars[i] != c
        invariant
            from <= i <= chars@.len(),
            forall|k: int| from <= k < i ==> chars@[k] != c,
        decreases chars@.len() - i,
    {
        i = i + 1;
    }
    proof {
        lemma_find_char_is(chars@, c, from as int, i as int);
    }
    i
}

/// The characters from `from` up to `to`.
fn piece_of(chars: &Vec<char>, from: usize, to: usize) -> (piece: Vec<char>)
    requires
        from <= to <= chars@.len(),
    ensures
        piece@ == chars@.subrange(from as int, to as int),
{
    let mut piece: Vec<char> = Vec::new();
    let mut i: usize = from;
    while i < to
        invariant
            from <= i <= to <= chars@.len(),
            piece@ == chars@.subrange(from as int, i as int),
        decreases to - i,
    {
        piece.push(chars[i]);
        assert(piece@ =~= chars@.subrange(from as int, i + 1));
        i = i + 1;
    }
    piece
}

/// The characters from `from` up to `to`, as a string.
fn text_of(chars: &Vec<char>, from: usize, to: usize) -> (text: String)
    requires
        from <= to <= chars@.len(),
    ensures
        text@ == chars@.subrange(from as int, to as int),
{
    let mut text = String::new();
    let mut i: usize = from;
    assert(text@ =~= chars@.subrange(from as int, from as int));
    while i < to
        invariant
            from <= i <= to <= chars@.len(),
            text@ == chars@.subrange(from as int, i as int),
        decreases to - i,
    {
        push_char(&mut text, chars[i]);
        assert(text@ =~= chars@.subrange(from as int, i + 1));
        i = i + 1;
    }
    text
}

/// Reads one entry.
fn read_entry(piece: &Vec<char>) -> (entry: Option<(String, String)>)
    ensures
        match entry {
            Some(e) => parse_entry(piece@) == Some((e.0@, e.1@)),
            None => parse_entry(piece@) is None,
        },
        piece_honest(piece@),
{
    let n = piece.len();
    let i = scan(piece, ' ', 0);
    if i >= n {
        let key = text_of(piece, 0, n);
        assert(key@ =~= piece@);
        return Some((key, String::new()));
    }
    let key = text_of(piece, 0, i);
    let encoded = text_of(piece, i + 1, n);
    assert(key@ =~= piece@.take(i as int));
    assert(encoded@ =~= piece@.skip(i + 1));
    match base64_decode(encoded.as_str()) {
        Err(_) => None,
        Ok(bytes) => match string_from_utf8(bytes) {
            Err(_) => None,
            Ok(value) => Some((key, value)),
        },
    }
}

impl Metadata {
    /// Reads metadata from its wire form. The empty text is metadata
    /// without entries. Otherwise the text is cut at commas, each piece at
    /// its first space, and the part after the space is decoded from
    /// base64 to a UTF-8 text; where a piece cannot be decoded there is no
    /// result.
    ///
    /// This undoes [`Metadata::to_wire`]: the wire form of entries with
    /// distinct keys that hold neither comma nor space reads back as
    /// exactly those entries, whatever the values hold.
    pub fn from_wire(wire: &str) -> (metadata: Option<Metadata>)
        ensures
            match metadata {
                Some(m) => parse_wire(wire@) == Some(m@) && m.wf(),
                None => parse_wire(wire@) is None,
            },
            forall|entries: Seq<EntryView>|
                wire@ == #[trigger] metadata_text(entries) && plain_keys(entries) && distinct_keys(
                    entries,
                ) && clean_values(entries) ==> metadata is Some && metadata->0@ == entries,
    {
        let metadata = Metadata::read_wire(wire);
        proof {
            assert forall|entries: Seq<EntryView>|
                wire@ == #[trigger] metadata_text(entries) && plain_keys(entries) && distinct_keys(
                    entries,
                ) && clean_values(entries) implies metadata is Some && metadata->0@
                == entries by {
                lemma_wire_reads_back(wire@, entries);
            }
        }
        metadata
    }

    fn read_wire(wire: &str) -> (metadata: Option<Metadata>)
        ensures
            match metadata {
                Some(m) => parse_wire(wire@) == Some(m@) && m.wf(),
                None => parse_wire(wire@) is None,
            },
            wire@.len() > 0 ==> pieces_honest(wire@, 0),
    {
        let chars = chars_of(wire);
        let n = chars.len();
        let mut metadata = Metadata::new();
        if n == 0 {
            return Some(metadata);
        }
        let ghost s = chars@;
        let ghost mut read: Seq<EntryView> = Seq::empty();
        let mut pos: usize = 0;
        let mut done = false;
        assert(followed_by(read, parse_entries(s, 0)) == parse_entries(s, 0)) by {
            if parse_entries(s, 0) is Some {
                assert(read + parse_entries(s, 0)->0 =~= parse_entries(s, 0)->0);
            }
        }
        while !done
            invariant
                s == chars@,
                s == wire@,
                n == chars@.len(),
                pos <= n,
                metadata.wf(),
                metadata@ == collected(read),
                !done ==> parse_entries(s, 0) == followed_by(read, parse_entries(s, pos as int)),
                done ==> parse_entries(s, 0) == Some(read),
                !done ==> (pieces_honest(s, pos as int) ==> pieces_honest(s, 0)),
                done ==> pieces_honest(s, 0),
            decreases
                    (if done {
                        0
                    } else {
                        n - pos + 1
                    }),
        {
            let j = scan(&chars, ',', pos);
            let piece = piece_of(&chars, pos, j);
            match read_entry(&piece) {
                None => {
                    return None;
                },
                Some(entry) => {
                    let ghost e = (entry.0@, entry.1@);
                    let ghost earlier = read;
                    metadata.insert(entry.0, entry.1);
                    proof {
                        read = earlier.push(e);
                        assert(read.drop_last() =~= earlier);
                        assert(read.last() == e);
                        if j < n {
                            if parse_entries(s, j + 1) is Some {
                                let rest = parse_entries(s, j + 1)->0;
                                assert(earlier + (seq![e] + rest) =~= read + rest);
                            }
                        } else {
                            assert(earlier + seq![e] =~= read);
                        }
                    }
                    if j >= n {
                        done = true;
                    } else {
                        pos = j + 1;
                    }
                },
            }
        }
        Some(metadata)
    }
}

} // verus!
