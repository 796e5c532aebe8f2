//! The store: for each kind of record at most one group, in which a
//! canonical text occurs once.

use vstd::prelude::*;
use vstd::string::*;
use crate::data_store::error::{LoadError, ParseError};
use crate::data_store::group::{
    distinct, has, holds, inserted, inserted_all, lemma_filter_distinct, lemma_inserted_distinct,
    lemma_removed_all_holds, lemma_removed_all_none, lemma_removed_all_step, lemma_removed_at,
    lemma_removed_none, matching, not_of, removed, removed_all, texts,
};
use crate::data_store::kind::Kind;
use crate::data_store::record::{Record, RecordView, Storable};
use crate::json::{decode_document, document_text, encode_document, parsed_document};

verus! {

/// What a store holds: the kinds that have a group, and each group's records
/// in the order they came.
pub type Groups = Map<Kind, Seq<RecordView>>;

/// The records of a kind; none where the kind has no group.
pub open spec fn group_of(groups: Groups, kind: Kind) -> Seq<RecordView> {
    if groups.dom().contains(kind) {
        groups[kind]
    } else {
        Seq::empty()
    }
}

/// Whether no group holds two records of the same canonical text.
pub open spec fn unique(groups: Groups) -> bool {
    forall|kind: Kind| #[trigger] groups.dom().contains(kind) ==> distinct(groups[kind])
}

/// Whether the kind has a group that holds a record of that text.
pub open spec fn present(groups: Groups, kind: Kind, text: Seq<char>) -> bool {
    groups.dom().contains(kind) && holds(groups[kind], text)
}

/// The store after a record is added under a kind.
pub open spec fn added(groups: Groups, kind: Kind, record: RecordView) -> Groups {
    groups.insert(kind, inserted(group_of(groups, kind), record))
}

/// The store after the records are added under a kind, one after another;
/// the store as it is where no record is given.
pub open spec fn added_all(groups: Groups, kind: Kind, records: Seq<RecordView>) -> Groups
    decreases records.len(),
{
    if records.len() == 0 {
        groups
    } else {
        added(added_all(groups, kind, records.drop_last()), kind, records.last())
    }
}

/// Where a record is given, adding them one after another leaves the kind
/// with the group that its records, or none, grow into.
pub proof fn lemma_added_all(groups: Groups, kind: Kind, records: Seq<RecordView>)
    requires
        records.len() > 0,
    ensures
        added_all(groups, kind, records) == groups.insert(
            kind,
            inserted_all(group_of(groups, kind), records),
        ),
    decreases records.len(),
{
    let start = group_of(groups, kind);
    let front = records.drop_last();
    if front.len() == 0 {
        assert(inserted_all(start, front) == start);
    } else {
        lemma_added_all(groups, kind, front);
    }
    assert(added_all(groups, kind, records) =~= groups.insert(
        kind,
        inserted_all(start, records),
    ));
}

/// What a search of a kind for a pattern gives: the canonical texts of the
/// kind's records that the pattern stands in; nothing where the kind has no
/// group or no text matches.
pub open spec fn found(groups: Groups, kind: Kind, pattern: Seq<char>) -> Option<Seq<Seq<char>>> {
    if groups.dom().contains(kind) && matching(groups[kind], pattern).len() > 0 {
        Some(matching(groups[kind], pattern))
    } else {
        None
    }
}

/// The store after the record of that text is removed from a kind's group.
pub open spec fn taken(groups: Groups, kind: Kind, text: Seq<char>) -> Groups {
    if groups.dom().contains(kind) {
        groups.insert(kind, removed(groups[kind], text))
    } else {
        groups
    }
}

/// The store after the records of those texts are removed from a kind's group.
pub open spec fn taken_all(groups: Groups, kind: Kind, gone: Seq<Seq<char>>) -> Groups {
    if groups.dom().contains(kind) {
        groups.insert(kind, removed_all(groups[kind], gone))
    } else {
        groups
    }
}

/// Whether a kind's group holds a record of one of those texts.
pub open spec fn any_present(groups: Groups, kind: Kind, texts: Seq<Seq<char>>) -> bool {
    exists|i: int| 0 <= i < texts.len() && present(groups, kind, #[trigger] texts[i])
}

/// The store after a record of a kind's group is replaced by another: where
/// the group holds the first, it loses it and the second is added; else
/// nothing changes.
pub open spec fn replaced(
    groups: Groups,
    kind: Kind,
    text: Seq<char>,
    record: RecordView,
) -> Groups {
    if present(groups, kind, text) {
        groups.insert(kind, inserted(removed(groups[kind], text), record))
    } else {
        groups
    }
}

/// The entry of a kind in the store's document: the kind's name and the
/// canonical texts of its records; none where the kind has no group.
pub open spec fn entry_of(groups: Groups, kind: Kind) -> Seq<(Seq<char>, Seq<Seq<char>>)> {
    if groups.dom().contains(kind) {
        seq![(kind.name(), texts(groups[kind]))]
    } else {
        Seq::empty()
    }
}

/// The text of the store's document: the entries of the kinds that have a
/// group, notes before todo items.
pub open spec fn document_of(groups: Groups) -> Seq<char> {
    document_text(entry_of(groups, Kind::Note) + entry_of(groups, Kind::Todo))
}

/// The group that texts are read into, one after another, as records of a
/// kind; the first text that is no such record ends the reading with its error.
pub open spec fn loaded_into(kind: Kind, group: Seq<RecordView>, raw: Seq<Seq<char>>) -> Result<
    Seq<RecordView>,
    ParseError,
>
    decreases raw.len(),
{
    if raw.len() == 0 {
        Ok(group)
    } else {
        match RecordView::parsed(kind, raw[0]) {
            Ok(record) => loaded_into(kind, inserted(group, record), raw.drop_first()),
            Err(e) => Err(e),
        }
    }
}

/// The group that an entry of a document makes: its texts read as records
/// of the kind that its name stands for.
pub open spec fn loaded_value(key: Seq<char>, raw: Seq<Seq<char>>) -> Result<
    Seq<RecordView>,
    LoadError,
> {
    match Kind::named(key) {
        None => Err(LoadError::UnknownKind),
        Some(kind) => match loaded_into(kind, Seq::empty(), raw) {
            Ok(group) => Ok(group),
            Err(_) => Err(LoadError::Record),
        },
    }
}

/// The store that the entries of a document are read into, one after
/// another; the first entry that makes no group ends the reading with its
/// error. A later entry of a kind takes the place of an earlier one.
pub open spec fn loaded_onto(groups: Groups, entries: Seq<(Seq<char>, Seq<Seq<char>>)>) -> Result<
    Groups,
    LoadError,
>
    decreases entries.len(),
{
    if entries.len() == 0 {
        Ok(groups)
    } else {
        match loaded_value(entries[0].0, entries[0].1) {
            Ok(group) => loaded_onto(
                groups.insert(Kind::named(entries[0].0)->Some_0, group),
                entries.drop_first(),
            ),
            Err(e) => Err(e),
        }
    }
}

/// The store that a document's text makes.
pub open spec fn read_text(text: Seq<char>) -> Result<Groups, LoadError> {
    match parsed_document(text) {
        None => Err(LoadError::Document),
        Some(entries) => loaded_onto(Groups::empty(), entries),
    }
}

/// What came of reading a store from the text of its file.
#[derive(Debug)]
pub enum Restored {
    /// The text was read: the store holds what it says.
    Intact(Store),
    /// The text, or a record in it, was not read: the store is empty, and
    /// the file is to be set aside under another name.
    Quarantined(Store),
    /// A name in the text stands for no kind of record: nothing is recovered.
    UnknownKind,
}

/// The place of the first record of that text in a group.
fn position(group: &Vec<Record>, text: &String) -> (place: Option<usize>)
    ensures
        match place {
            Some(i) => i < group.len() && group.deep_view()[i as int].json() == text@,
            None => !holds(group.deep_view(), text@),
        },
{
    let mut i: usize = 0;
    while i < group.len()
        invariant
            i <= group.len(),
            forall|j: int| 0 <= j < i ==> (#[trigger] group.deep_view()[j]).json() != text@,
        decreases group.len() - i,
    {
        let candidate = group[i].to_json();
        proof {
            assert(group.deep_view()[i as int] == group@[i as int]@);
        }
        if candidate == *text {
            return Some(i);
        }
        i += 1;
    }
    None
}

/// The items in the opposite order.
fn reversed<T>(items: Vec<T>) -> (turned: Vec<T>)
    ensures
        turned@.len() == items@.len(),
        forall|j: int| 0 <= j < items@.len() ==> turned@[j] == items@[items@.len() - 1 - j],
{
    let ghost all = items@;
    let mut items = items;
    let mut turned: Vec<T> = Vec::new();
    while items.len() > 0
        invariant
            turned@.len() + items@.len() == all.len(),
            forall|j: int| 0 <= j < items@.len() ==> items@[j] == all[j],
            forall|j: int| 0 <= j < turned@.len() ==> turned@[j] == all[all.len() - 1 - j],
        decreases items.len(),
    {
        let item = items.pop().unwrap();
        turned.push(item);
    }
    turned
}

/// Adds a record to a group unless the group holds one of the same text.
fn insert_record(group: &mut Vec<Record>, record: Record)
    requires
        distinct(old(group).deep_view()),
    ensures
        final(group).deep_view() == inserted(old(group).deep_view(), record@),
        distinct(final(group).deep_view()),
{
    let text = record.to_json();
    let ghost before = group.deep_view();
    proof {
        lemma_inserted_distinct(before, record@);
    }
    if position(group, &text).is_none() {
        group.push(record);
        proof {
            assert(group.deep_view() =~= before.push(record@));
        }
    }
}

/// Removes the record of that text from a group, if it is there.
fn remove_record(group: &mut Vec<Record>, text: &String) -> (was_there: bool)
    requires
        distinct(old(group).deep_view()),
    ensures
        was_there == holds(old(group).deep_view(), text@),
        final(group).deep_view() == removed(old(group).deep_view(), text@),
        distinct(final(group).deep_view()),
{
    let ghost before = group.deep_view();
    proof {
        lemma_filter_distinct(before, not_of(text@));
    }
    match position(group, text) {
        Some(i) => {
            let _ = group.remove(i);
            proof {
                lemma_removed_at(before, i as int);
                assert(group.deep_view() =~= before.remove(i as int));
            }
            true
        },
        None => {
            proof {
                lemma_removed_none(before, text@);
            }
            false
        },
    }
}

/// The canonical texts of the records, in their order.
fn texts_of(records: &Vec<Record>) -> (list: Vec<String>)
    ensures
        list.deep_view() == texts(records.deep_view()),
{
    let ghost wanted = texts(records.deep_view());
    let mut list: Vec<String> = Vec::new();
    let mut i: usize = 0;
    while i < records.len()
        invariant
            i <= records.len(),
            wanted == texts(records.deep_view()),
            list@.len() == i,
            list.deep_view() == wanted.take(i as int),
        decreases records.len() - i,
    {
        let ghost before = list.deep_view();
        let text = records[i].to_json();
        proof {
            assert(records.deep_view()[i as int] == records@[i as int]@);
            assert(wanted.take(i + 1) == before.push(text@));
        }
        list.push(text);
        proof {
            assert(list.deep_view() =~= wanted.take(i + 1));
        }
        i += 1;
    }
    proof {
        assert(wanted.take(records.len() as int) == wanted);
    }
    list
}

/// Reads texts as records of a kind into a group.
fn load_group(kind: Kind, raw: &Vec<String>) -> (loaded: Result<Vec<Record>, ParseError>)
    ensures
        match loaded {
            Ok(group) => loaded_into(kind, Seq::empty(), raw.deep_view()) == Ok::<
                Seq<RecordView>,
                ParseError,
            >(group.deep_view()) && distinct(group.deep_view()),
            Err(e) => loaded_into(kind, Seq::empty(), raw.deep_view()) == Err::<
                Seq<RecordView>,
                ParseError,
            >(e),
        },
{
    let ghost all = raw.deep_view();
    let mut group: Vec<Record> = Vec::new();
    let mut i: usize = 0;
    proof {
        assert(all.skip(0) == all);
        assert(group.deep_view() =~= Seq::<RecordView>::empty());
    }
    while i < raw.len()
        invariant
            i <= raw.len(),
            all == raw.deep_view(),
            distinct(group.deep_view()),
            loaded_into(kind, Seq::empty(), all) == loaded_into(
                kind,
                group.deep_view(),
                all.skip(i as int),
            ),
        decreases raw.len() - i,
    {
        proof {
            assert(all.skip(i as int)[0] == raw@[i as int]@);
            assert(all.skip(i as int).drop_first() == all.skip(i + 1));
        }
        match Record::from_json(kind, raw[i].as_str()) {
            Ok(record) => {
                insert_record(&mut group, record);
            },
            Err(e) => {
                return Err(e);
            },
        }
        i += 1;
    }
    Ok(group)
}

/// The records of a store, grouped by kind.
#[derive(Debug)]
pub struct Store {
    notes: Option<Vec<Record>>,
    todos: Option<Vec<Record>>,
}

impl View for Store {
    type V = Groups;

    closed spec fn view(&self) -> Groups {
        Map::new(
            |kind: Kind| self.slot(kind) is Some,
            |kind: Kind| self.slot(kind)->Some_0.deep_view(),
        )
    }
}

impl Store {
    spec fn slot(&self, kind: Kind) -> Option<Vec<Record>> {
        match kind {
            Kind::Note => self.notes,
            Kind::Todo => self.todos,
        }
    }

    #[verifier::type_invariant]
    spec fn well_formed(&self) -> bool {
        &&& self.notes matches Some(records) ==> distinct(records.deep_view())
        &&& self.todos matches Some(records) ==> distinct(records.deep_view())
    }

    /// A store without any group.
    pub fn new() -> (store: Store)
        ensures
            store@ == Groups::empty(),
    {
        let store = Store { notes: None, todos: None };
        proof {
            assert(store@ =~= Groups::empty());
        }
        store
    }

    fn take_group(&mut self, kind: Kind) -> (group: Option<Vec<Record>>)
        ensures
            final(self)@ == old(self)@.remove(kind),
            match group {
                Some(records) => old(self)@.dom().contains(kind) && old(self)@[kind]
                    == records.deep_view() && distinct(records.deep_view()),
                None => !old(self)@.dom().contains(kind),
            },
    {
        proof {
            use_type_invariant(&*self);
        }
        let ghost before = *self;
        let mut group: Option<Vec<Record>> = None;
        match kind {
            Kind::Note => core::mem::swap(&mut self.notes, &mut group),
            Kind::Todo => core::mem::swap(&mut self.todos, &mut group),
        }
        proof {
            assert(before.slot(kind) == group);
            assert(self@ =~= before@.remove(kind));
        }
        group
    }

    fn put_group(&mut self, kind: Kind, group: Vec<Record>)
        requires
            distinct(group.deep_view()),
        ensures
            final(self)@ == old(self)@.insert(kind, group.deep_view()),
    {
        proof {
            use_type_invariant(&*self);
        }
        let ghost before = *self;
        match kind {
            Kind::Note => {
                self.notes = Some(group);
            },
            Kind::Todo => {
                self.todos = Some(group);
            },
        }
        proof {
            assert(self@ =~= before@.insert(kind, group.deep_view()));
        }
    }

    /// Adds a record to the group of a kind, which is made where there is none.
    fn add_record(&mut self, kind: Kind, record: Record)
        ensures
            final(self)@ == added(old(self)@, kind, record@),
    {
        let mut group = match self.take_group(kind) {
            Some(records) => records,
            None => Vec::new(),
        };
        proof {
            assert(group.deep_view() =~= group_of(old(self)@, kind));
        }
        insert_record(&mut group, record);
        self.put_group(kind, group);
        proof {
            assert(self@ =~= added(old(self)@, kind, record@));
        }
    }

    /// Adds a record to the group of its kind, which is made where there is
    /// none. A record whose canonical text the group holds already is dropped.
    pub fn add<S: Storable>(&mut self, data: S)
        ensures
            final(self)@ == added(old(self)@, S::kind_of(), data.stored()),
            unique(old(self)@),
            unique(final(self)@),
    {
        self.settled();
        let kind = S::kind();
        let record = data.into_record();
        self.add_record(kind, record);
        self.settled();
    }

    /// Adds the records, one after another, to the group of their kind, which
    /// is made where there is none and a record is given.
    pub fn add_vec<S: Storable>(&mut self, data: Vec<S>)
        ensures
            final(self)@ == added_all(
                old(self)@,
                S::kind_of(),
                data@.map_values(|item: S| item.stored()),
            ),
            unique(old(self)@),
            unique(final(self)@),
    {
        self.settled();
        let kind = S::kind();
        let ghost records = data@.map_values(|item: S| item.stored());
        if data.len() == 0 {
            self.settled();
            return ;
        }
        let ghost start = group_of(old(self)@, kind);
        let mut group = match self.take_group(kind) {
            Some(found) => found,
            None => Vec::new(),
        };
        let ghost all = data@;
        proof {
            assert(all.len() == data.len());
            assert(group.deep_view() =~= start);
            assert(records.take(0) =~= Seq::<RecordView>::empty());
        }
        let mut data = reversed(data);
        let mut i: usize = 0;
        while data.len() > 0
            invariant
                all.len() <= usize::MAX,
                i + data.len() == all.len(),
                records == all.map_values(|item: S| item.stored()),
                forall|j: int| 0 <= j < data.len() ==> data@[j] == all[all.len() - 1 - j],
                distinct(group.deep_view()),
                group.deep_view() == inserted_all(start, records.take(i as int)),
            decreases data.len(),
        {
            let item = data.pop().unwrap();
            let record = item.into_record();
            proof {
                assert(item == all[i as int]);
                assert(records.take(i + 1).drop_last() == records.take(i as int));
                assert(records.take(i + 1).last() == record@);
            }
            insert_record(&mut group, record);
            i += 1;
        }
        proof {
            assert(records.take(all.len() as int) == records);
        }
        self.put_group(kind, group);
        proof {
            lemma_added_all(old(self)@, kind, records);
            assert(self@ =~= added_all(old(self)@, kind, records));
        }
        self.settled();
    }

    /// Shows that no group holds two records of the same canonical text.
    fn settled(&self)
        ensures
            unique(self@),
    {
        proof {
            use_type_invariant(self);
            assert forall|kind: Kind| #[trigger] self@.dom().contains(kind) implies distinct(
                self@[kind],
            ) by {
                assert(self.slot(kind) is Some);
            }
        }
    }

    fn group_ref(&self, kind: Kind) -> (group: &Option<Vec<Record>>)
        ensures
            match group {
                Some(records) => self@.dom().contains(kind) && self@[kind] == records.deep_view(),
                None => !self@.dom().contains(kind),
            },
    {
        let group = match kind {
            Kind::Note => &self.notes,
            Kind::Todo => &self.todos,
        };
        proof {
            assert(self.slot(kind) == *group);
        }
        group
    }

    /// The canonical texts of the kind's records in which the pattern stands,
    /// in the order the records came; `None` where the kind has no group or
    /// no text matches.
    pub fn find<S: Storable>(&self, pattern: &str) -> (texts: Option<Vec<String>>)
        ensures
            match texts {
                Some(list) => found(self@, S::kind_of(), pattern@) == Some(list.deep_view()),
                None => found(self@, S::kind_of(), pattern@) is None,
            },
            unique(self@),
    {
        self.settled();
        let kind = S::kind();
        match self.group_ref(kind) {
            None => None,
            Some(records) => {
                let ghost all = texts(records.deep_view());
                let mut list: Vec<String> = Vec::new();
                let mut i: usize = 0;
                proof {
                    reveal(Seq::filter);
                    assert(all.take(0).filter(has(pattern@)) =~= Seq::<Seq<char>>::empty());
                }
                while i < records.len()
                    invariant
                        i <= records.len(),
                        all == texts(records.deep_view()),
                        list.deep_view() == all.take(i as int).filter(has(pattern@)),
                    decreases records.len() - i,
                {
                    let ghost before = list.deep_view();
                    let text = records[i].to_json();
                    proof {
                        assert(records.deep_view()[i as int] == records@[i as int]@);
                        assert(all.take(i + 1) == all.take(i as int).push(text@));
                        all.take(i as int).lemma_filter_push(text@, has(pattern@));
                    }
                    if crate::text::contains(text.as_str(), pattern) {
                        list.push(text);
                        proof {
                            assert(list.deep_view() =~= before.push(text@));
                        }
                    }
                    i += 1;
                }
                proof {
                    assert(all.take(records.len() as int) == all);
                }
                if list.len() == 0 {
                    None
                } else {
                    Some(list)
                }
            },
        }
    }

    /// Removes the record of the same canonical text from the kind's group.
    /// Says whether it was there.
    pub fn remove<S: Storable>(&mut self, data: &Record) -> (was_there: bool)
        ensures
            was_there == present(old(self)@, S::kind_of(), data@.json()),
            final(self)@ == taken(old(self)@, S::kind_of(), data@.json()),
            unique(old(self)@),
            unique(final(self)@),
    {
        self.settled();
        let kind = S::kind();
        let text = data.to_json();
        let was_there = match self.take_group(kind) {
            None => {
                proof {
                    assert(self@ =~= old(self)@);
                }
                false
            },
            Some(records) => {
                let mut records = records;
                let was_there = remove_record(&mut records, &text);
                self.put_group(kind, records);
                proof {
                    assert(self@ =~= taken(old(self)@, kind, text@));
                }
                was_there
            },
        };
        self.settled();
        was_there
    }

    /// Removes from the kind's group each record that has the canonical text
    /// of one of the given. Says whether any was there.
    pub fn remove_vec<S: Storable>(&mut self, data: Vec<&Record>) -> (any_there: bool)
        ensures
            any_there == any_present(old(self)@, S::kind_of(), texts(data.deep_view())),
            final(self)@ == taken_all(old(self)@, S::kind_of(), texts(data.deep_view())),
            unique(old(self)@),
            unique(final(self)@),
    {
        self.settled();
        let kind = S::kind();
        let ghost wanted = texts(data.deep_view());
        let any_there = match self.take_group(kind) {
            None => {
                proof {
                    assert(self@ =~= old(self)@);
                }
                false
            },
            Some(records) => {
                let ghost start = records.deep_view();
                let mut records = records;
                let mut any_there = false;
                let mut i: usize = 0;
                proof {
                    reveal(Seq::filter);
                    lemma_removed_all_none(start);
                    assert(wanted.take(0) =~= Seq::<Seq<char>>::empty());
                }
                while i < data.len()
                    invariant
                        i <= data.len(),
                        wanted == texts(data.deep_view()),
                        distinct(records.deep_view()),
                        records.deep_view() == removed_all(start, wanted.take(i as int)),
                        any_there == (exists|j: int|
                            0 <= j < i && holds(start, #[trigger] wanted[j])),
                    decreases data.len() - i,
                {
                    let ghost done = wanted.take(i as int);
                    let text = data[i].to_json();
                    proof {
                        assert(data.deep_view()[i as int] == data@[i as int]@);
                        lemma_removed_all_step(start, done, wanted[i as int]);
                        lemma_removed_all_holds(start, done, wanted[i as int]);
                        assert(wanted.take(i + 1) == done.push(wanted[i as int]));
                    }
                    let was_there = remove_record(&mut records, &text);
                    proof {
                        if holds(start, wanted[i as int]) && !was_there {
                            let k = choose|k: int|
                                0 <= k < done.len() && done[k] == wanted[i as int];
                            assert(holds(start, wanted[k]));
                        }
                    }
                    if was_there {
                        any_there = true;
                    }
                    i += 1;
                }
                proof {
                    assert(wanted.take(data.len() as int) == wanted);
                }
                self.put_group(kind, records);
                proof {
                    assert(self@ =~= taken_all(old(self)@, kind, wanted));
                    if any_there {
                        let j = choose|j: int|
                            0 <= j < wanted.len() && holds(start, #[trigger] wanted[j]);
                        assert(present(old(self)@, kind, wanted[j]));
                    }
                }
                any_there
            },
        };
        self.settled();
        any_there
    }

    /// Removes the kind's group and hands its records out, in the order they
    /// came; `None` where the kind has no group.
    pub fn remove_all<S: Storable>(&mut self) -> (records: Option<Vec<Record>>)
        ensures
            match records {
                Some(list) => old(self)@.dom().contains(S::kind_of()) && list.deep_view() == old(
                    self,
                )@[S::kind_of()],
                None => !old(self)@.dom().contains(S::kind_of()),
            },
            final(self)@ == old(self)@.remove(S::kind_of()),
            unique(old(self)@),
            unique(final(self)@),
    {
        self.settled();
        let kind = S::kind();
        let records = self.take_group(kind);
        self.settled();
        records
    }

    /// Replaces a record of the kind's group by another: where the group
    /// holds a record of the first's canonical text, that one leaves and the
    /// second is added; else nothing changes. Says whether it was replaced.
    pub fn replace<S: Storable>(&mut self, old_record: &Record, new_record: Record) -> (swapped:
        bool)
        ensures
            swapped == present(old(self)@, S::kind_of(), old_record@.json()),
            final(self)@ == replaced(old(self)@, S::kind_of(), old_record@.json(), new_record@),
            unique(old(self)@),
            unique(final(self)@),
    {
        self.settled();
        let kind = S::kind();
        let text = old_record.to_json();
        let swapped = match self.take_group(kind) {
            None => {
                proof {
                    assert(self@ =~= old(self)@);
                }
                false
            },
            Some(records) => {
                let mut records = records;
                let ghost start = records.deep_view();
                let swapped = remove_record(&mut records, &text);
                if swapped {
                    insert_record(&mut records, new_record);
                } else {
                    proof {
                        lemma_removed_none(start, text@);
                    }
                }
                self.put_group(kind, records);
                proof {
                    assert(self@ =~= replaced(old(self)@, kind, text@, new_record@));
                }
                swapped
            },
        };
        self.settled();
        swapped
    }

    /// The text of the store's document, as it is saved: for each kind that
    /// has a group, under the kind's name, the canonical texts of its records.
    pub fn document(&self) -> (text: String)
        ensures
            text@ == document_of(self@),
            unique(self@),
    {
        self.settled();
        let mut entries: Vec<(String, Vec<String>)> = Vec::new();
        proof {
            assert(entries.deep_view() =~= Seq::<(Seq<char>, Seq<Seq<char>>)>::empty());
        }
        self.push_entry(Kind::Note, &mut entries);
        self.push_entry(Kind::Todo, &mut entries);
        proof {
            assert(entries.deep_view() =~= entry_of(self@, Kind::Note) + entry_of(
                self@,
                Kind::Todo,
            ));
        }
        encode_document(&entries)
    }

    fn push_entry(&self, kind: Kind, entries: &mut Vec<(String, Vec<String>)>)
        ensures
            final(entries).deep_view() == old(entries).deep_view() + entry_of(self@, kind),
    {
        let ghost before = entries.deep_view();
        match self.group_ref(kind) {
            None => {
                proof {
                    assert(before + entry_of(self@, kind) =~= before);
                }
            },
            Some(records) => {
                let name = String::from_str(kind.discriminator());
                let list = texts_of(records);
                entries.push((name, list));
                proof {
                    assert(entries.deep_view() =~= before + entry_of(self@, kind));
                }
            },
        }
    }

    /// Reads the texts of a document's entry as the records of the kind that
    /// the entry's name stands for. A text whose record the group holds
    /// already adds nothing.
    pub fn load_value(key: &String, raw: Vec<String>) -> (loaded: Result<Vec<Record>, LoadError>)
        ensures
            match loaded {
                Ok(group) => loaded_value(key@, raw.deep_view()) == Ok::<
                    Seq<RecordView>,
                    LoadError,
                >(group.deep_view()) && distinct(group.deep_view()),
                Err(e) => loaded_value(key@, raw.deep_view()) == Err::<Seq<RecordView>, LoadError>(
                    e,
                ),
            },
    {
        match Kind::from_discriminator(key.as_str()) {
            None => Err(LoadError::UnknownKind),
            Some(kind) => match load_group(kind, &raw) {
                Ok(group) => Ok(group),
                Err(_) => Err(LoadError::Record),
            },
        }
    }

    /// Makes a store of the entries of a document, read one after another.
    pub fn load_store(hm: Vec<(String, Vec<String>)>) -> (loaded: Result<Store, LoadError>)
        ensures
            match loaded {
                Ok(store) => loaded_onto(Groups::empty(), hm.deep_view()) == Ok::<Groups, LoadError>(
                    store@,
                ) && unique(store@),
                Err(e) => loaded_onto(Groups::empty(), hm.deep_view()) == Err::<Groups, LoadError>(
                    e,
                ),
            },
    {
        let ghost all = hm.deep_view();
        let mut store = Store::new();
        let mut i: usize = 0;
        proof {
            assert(all.skip(0) == all);
        }
        while i < hm.len()
            invariant
                i <= hm.len(),
                all == hm.deep_view(),
                loaded_onto(Groups::empty(), all) == loaded_onto(store@, all.skip(i as int)),
            decreases hm.len() - i,
        {
            proof {
                assert(all.skip(i as int)[0] == (hm@[i as int].0@, hm@[i as int].1.deep_view()));
                assert(all.skip(i as int).drop_first() == all.skip(i + 1));
            }
            match Kind::from_discriminator(hm[i].0.as_str()) {
                None => {
                    return Err(LoadError::UnknownKind);
                },
                Some(kind) => match load_group(kind, &hm[i].1) {
                    Ok(group) => {
                        let ghost before = store@;
                        let ghost records = group.deep_view();
                        let _ = store.take_group(kind);
                        store.put_group(kind, group);
                        proof {
                            assert(store@ =~= before.insert(kind, records));
                            assert(loaded_value(all.skip(i as int)[0].0, all.skip(i as int)[0].1)
                                == Ok::<Seq<RecordView>, LoadError>(records));
                        }
                    },
                    Err(_) => {
                        return Err(LoadError::Record);
                    },
                },
            }
            i += 1;
        }
        store.settled();
        Ok(store)
    }

    /// Reads a store from the text of its document.
    pub fn read(text: &str) -> (loaded: Result<Store, LoadError>)
        ensures
            match loaded {
                Ok(store) => read_text(text@) == Ok::<Groups, LoadError>(store@) && unique(store@),
                Err(e) => read_text(text@) == Err::<Groups, LoadError>(e),
            },
    {
        match decode_document(text) {
            None => Err(LoadError::Document),
            Some(entries) => Store::load_store(entries),
        }
    }

    /// Reads a store from the text of its file and says what is to be done
    /// where that fails: a text that is no document of records gives an empty
    /// store and a file to set aside; a name of no kind gives nothing.
    pub fn restore(text: &str) -> (restored: Restored)
        ensures
            match read_text(text@) {
                Ok(groups) => restored matches Restored::Intact(store) && store@ == groups
                    && unique(store@),
                Err(LoadError::UnknownKind) => restored is UnknownKind,
                Err(_) => restored matches Restored::Quarantined(store) && store@
                    == Groups::empty(),
            },
    {
        match Store::read(text) {
            Ok(store) => Restored::Intact(store),
            Err(LoadError::UnknownKind) => Restored::UnknownKind,
            Err(_) => Restored::Quarantined(Store::new()),
        }
    }
}

} // verus!
