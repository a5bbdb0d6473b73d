//! The sessions that a server knows, by id.

use crate::file_info::{FileInfo, FileInfoView};
use crate::text::same_text;
use vstd::prelude::*;

verus! {

/// The records of all live sessions, one per id.
#[derive(Debug)]
pub struct SessionTable {
    records: Vec<FileInfo>,
}

/// Record `i` carries the id.
pub open spec fn holds(records: Seq<FileInfo>, id: Seq<char>, i: int) -> bool {
    0 <= i < records.len() && records[i].id@ == id
}

/// No two records carry the same id.
pub open spec fn distinct_ids(records: Seq<FileInfo>) -> bool {
    forall|i: int, j: int|
        0 <= i < j < records.len() ==> (#[trigger] records[i]).id@ != (#[trigger] records[j]).id@
}

/// The records as a mapping from id to content.
pub open spec fn as_map(records: Seq<FileInfo>) -> Map<Seq<char>, FileInfoView> {
    Map::new(
        |id: Seq<char>| exists|i: int| holds(records, id, i),
        |id: Seq<char>| records[choose|i: int| holds(records, id, i)]@,
    )
}

proof fn lemma_held(records: Seq<FileInfo>, id: Seq<char>, i: int)
    requires
        distinct_ids(records),
        holds(records, id, i),
    ensures
        as_map(records).contains_key(id),
        as_map(records)[id] == records[i]@,
{
    let c = choose|c: int| holds(records, id, c);
    assert(holds(records, id, c));
    if c < i {
        assert(records[c].id@ != records[i].id@);
    }
    if i < c {
        assert(records[i].id@ != records[c].id@);
    }
}

proof fn lemma_absent(records: Seq<FileInfo>, id: Seq<char>)
    requires
        forall|i: int| 0 <= i < records.len() ==> (#[trigger] records[i]).id@ != id,
    ensures
        !as_map(records).contains_key(id),
{
    if exists|i: int| holds(records, id, i) {
        let c = choose|c: int| holds(records, id, c);
        assert(records[c].id@ != id);
    }
}

proof fn lemma_replaced(records: Seq<FileInfo>, i: int, info: FileInfo)
    requires
        distinct_ids(records),
        holds(records, info.id@, i),
    ensures
        distinct_ids(records.update(i, info)),
        as_map(records.update(i, info)) == as_map(records).insert(info.id@, info@),
{
    let after = records.update(i, info);
    assert forall|a: int, b: int| 0 <= a < b < after.len() implies (#[trigger] after[a]).id@ != (
    #[trigger] after[b]).id@ by {
        assert(records[a].id@ != records[b].id@);
    }
    assert forall|id: Seq<char>| #[trigger]
        as_map(after).contains_key(id) == as_map(records).insert(
            info.id@,
            info@,
        ).contains_key(id) by {
        if exists|j: int| holds(after, id, j) {
            let j = choose|j: int| holds(after, id, j);
            assert(holds(records, id, j));
        }
        if exists|j: int| holds(records, id, j) {
            let j = choose|j: int| holds(records, id, j);
            assert(holds(after, id, j));
        }
        assert(holds(after, info.id@, i));
    }
    assert forall|id: Seq<char>| as_map(after).contains_key(id) implies #[trigger] as_map(
        after,
    )[id] == as_map(records).insert(info.id@, info@)[id] by {
        let j = choose|j: int| holds(after, id, j);
        assert(holds(after, id, j));
        lemma_held(after, id, j);
        if id == info.id@ {
            lemma_held(after, id, i);
        } else {
            assert(holds(records, id, j));
            lemma_held(records, id, j);
        }
    }
    assert(as_map(after) =~= as_map(records).insert(info.id@, info@));
}

proof fn lemma_added(records: Seq<FileInfo>, info: FileInfo)
    requires
        distinct_ids(records),
        forall|i: int| 0 <= i < records.len() ==> (#[trigger] records[i]).id@ != info.id@,
    ensures
        distinct_ids(records.push(info)),
        as_map(records.push(info)) == as_map(records).insert(info.id@, info@),
{
    let after = records.push(info);
    let n = records.len() as int;
    assert forall|a: int, b: int| 0 <= a < b < after.len() implies (#[trigger] after[a]).id@ != (
    #[trigger] after[b]).id@ by {
        if b < n {
            assert(records[a].id@ != records[b].id@);
        } else {
            assert(records[a].id@ != info.id@);
        }
    }
    assert forall|id: Seq<char>| #[trigger]
        as_map(after).contains_key(id) == as_map(records).insert(
            info.id@,
            info@,
        ).contains_key(id) by {
        if exists|j: int| holds(after, id, j) {
            let j = choose|j: int| holds(after, id, j);
            if j < n {
                assert(holds(records, id, j));
            }
        }
        if exists|j: int| holds(records, id, j) {
            let j = choose|j: int| holds(records, id, j);
            assert(holds(after, id, j));
        }
        assert(holds(after, info.id@, n));
    }
    assert forall|id: Seq<char>| as_map(after).contains_key(id) implies #[trigger] as_map(
        after,
    )[id] == as_map(records).insert(info.id@, info@)[id] by {
        let j = choose|j: int| holds(after, id, j);
        assert(holds(after, id, j));
        lemma_held(after, id, j);
        if id == info.id@ {
            lemma_held(after, id, n);
        } else {
            assert(j < n);
            assert(holds(records, id, j));
            lemma_held(records, id, j);
        }
    }
    assert(as_map(after) =~= as_map(records).insert(info.id@, info@));
}

proof fn lemma_removed(records: Seq<FileInfo>, i: int)
    requires
        distinct_ids(records),
        0 <= i < records.len(),
    ensures
        distinct_ids(records.remove(i)),
        as_map(records.remove(i)) == as_map(records).remove(records[i].id@),
{
    let after = records.remove(i);
    let gone = records[i].id@;
    assert forall|a: int, b: int| 0 <= a < b < after.len() implies (#[trigger] after[a]).id@ != (
    #[trigger] after[b]).id@ by {
        let a0 = if a < i { a } else { a + 1 };
        let b0 = if b < i { b } else { b + 1 };
        assert(after[a] == records[a0]);
        assert(after[b] == records[b0]);
        assert(records[a0].id@ != records[b0].id@);
    }
    assert forall|id: Seq<char>| #[trigger]
        as_map(after).contains_key(id) == as_map(records).remove(gone).contains_key(id) by {
        if exists|j: int| holds(after, id, j) {
            let j = choose|j: int| holds(after, id, j);
            let j0 = if j < i { j } else { j + 1 };
            assert(after[j] == records[j0]);
            assert(holds(records, id, j0));
            if id == gone {
                if j0 < i {
                    assert(records[j0].id@ != records[i].id@);
                } else {
                    assert(records[i].id@ != records[j0].id@);
                }
            }
        }
        if id != gone && exists|j: int| holds(records, id, j) {
            let j = choose|j: int| holds(records, id, j);
            let j1 = if j < i { j } else { j - 1 };
            assert(after[j1] == records[j]);
            assert(holds(after, id, j1));
        }
    }
    assert forall|id: Seq<char>| as_map(after).contains_key(id) implies #[trigger] as_map(
        after,
    )[id] == as_map(records).remove(gone)[id] by {
        let j = choose|j: int| holds(after, id, j);
        assert(holds(after, id, j));
        lemma_held(after, id, j);
        let j0 = if j < i { j } else { j + 1 };
        assert(after[j] == records[j0]);
        assert(holds(records, id, j0));
        lemma_held(records, id, j0);
    }
    assert(as_map(after) =~= as_map(records).remove(gone));
}

/// Every record is stored under its own id.
pub open spec fn keyed_by_id(sessions: Map<Seq<char>, FileInfoView>) -> bool {
    forall|id: Seq<char>| sessions.contains_key(id) ==> (#[trigger] sessions[id]).id == id
}

impl View for SessionTable {
    type V = Map<Seq<char>, FileInfoView>;

    closed spec fn view(&self) -> Map<Seq<char>, FileInfoView> {
        as_map(self.records@)
    }
}

impl SessionTable {
    #[verifier::type_invariant]
    spec fn one_record_per_id(self) -> bool {
        distinct_ids(self.records@)
    }

    /// A table without sessions.
    pub fn new() -> (table: SessionTable)
        ensures
            table@ == Map::<Seq<char>, FileInfoView>::empty(),
    {
        let table = SessionTable { records: Vec::new() };
        assert(table@ =~= Map::<Seq<char>, FileInfoView>::empty());
        table
    }

    fn find(&self, id: &str) -> (found: Option<usize>)
        ensures
            match found {
                Some(i) => holds(self.records@, id@, i as int),
                None => forall|i: int|
                    0 <= i < self.records@.len() ==> (#[trigger] self.records@[i]).id@ != id@,
            },
    {
        let mut i: usize = 0;
        while i < self.records.len()
            invariant
                i <= self.records.len(),
                forall|j: int| 0 <= j < i ==> (#[trigger] self.records@[j]).id@ != id@,
            decreases self.records.len() - i,
        {
            if same_text(self.records[i].id.as_str(), id) {
                return Some(i);
            }
            i = i + 1;
        }
        None
    }

    /// Whether a session has the id.
    pub fn contains(&self, id: &str) -> (known: bool)
        ensures
            known == self@.contains_key(id@),
    {
        proof {
            use_type_invariant(self);
        }
        match self.find(id) {
            Some(i) => {
                proof {
                    lemma_held(self.records@, id@, i as int);
                }
                true
            },
            None => {
                proof {
                    lemma_absent(self.records@, id@);
                }
                false
            },
        }
    }

    /// The record of the session with the id.
    pub fn get(&self, id: &str) -> (found: Option<&FileInfo>)
        ensures
            match found {
                Some(info) => self@.contains_key(id@) && self@[id@] == info@ && info@.id == id@,
                None => !self@.contains_key(id@),
            },
    {
        proof {
            use_type_invariant(self);
        }
        match self.find(id) {
            Some(i) => {
                proof {
                    lemma_held(self.records@, id@, i as int);
                }
                Some(&self.records[i])
            },
            None => {
                proof {
                    lemma_absent(self.records@, id@);
                }
                None
            },
        }
    }

    /// Stores a record under its id, in place of the record that the id had.
    pub fn put(&mut self, info: FileInfo)
        ensures
            final(self)@ == old(self)@.insert(info.id@, info@),
    {
        proof {
            use_type_invariant(&*self);
        }
        let found = self.find(info.id.as_str());
        match found {
            Some(i) => {
                proof {
                    lemma_replaced(self.records@, i as int, info);
                }
                let mut records: Vec<FileInfo> = Vec::new();
                core::mem::swap(&mut self.records, &mut records);
                records.set(i, info);
                self.records = records;
            },
            None => {
                proof {
                    lemma_added(self.records@, info);
                }
                let mut records: Vec<FileInfo> = Vec::new();
                core::mem::swap(&mut self.records, &mut records);
                records.push(info);
                self.records = records;
            },
        }
    }

    /// Removes the session with the id and hands its record out.
    pub fn take(&mut self, id: &str) -> (taken: Option<FileInfo>)
        ensures
            match taken {
                Some(info) => old(self)@.contains_key(id@) && old(self)@[id@] == info@ && info@.id
                    == id@ && final(self)@ == old(self)@.remove(id@),
                None => !old(self)@.contains_key(id@) && final(self)@ == old(self)@,
            },
    {
        proof {
            use_type_invariant(&*self);
        }
        let found = self.find(id);
        match found {
            Some(i) => {
                proof {
                    lemma_held(self.records@, id@, i as int);
                    lemma_removed(self.records@, i as int);
                }
                let mut records: Vec<FileInfo> = Vec::new();
                core::mem::swap(&mut self.records, &mut records);
                let info = records.remove(i);
                self.records = records;
                Some(info)
            },
            None => {
                proof {
                    lemma_absent(self.records@, id@);
                }
                None
            },
        }
    }

    /// A table stores every record under the record's own id.
    pub proof fn lemma_keyed_by_id(self)
        ensures
            keyed_by_id(self@),
    {
        assert forall|id: Seq<char>| self@.contains_key(id) implies (#[trigger] self@[id]).id
            == id by {
            let i = choose|i: int| holds(self.records@, id, i);
            assert(holds(self.records@, id, i));
        }
    }
}

} // verus!
