//! What holds of a store whatever is done to it.

use vstd::prelude::*;
use crate::data_store::error::{LoadError, ParseError};
use crate::data_store::group::{
    distinct, holds, inserted, lemma_filter_distinct, lemma_holds_record,
    lemma_inserted_all_distinct,
    lemma_inserted_distinct, lemma_inserted_holds, lemma_matching_exact, lemma_removed_holds,
    lemma_removed_none, not_among, not_of, removed, texts,
};
use crate::data_store::kind::Kind;
use crate::data_store::record::RecordView;
use crate::data_store::store::{
    added, added_all, document_of, entry_of, found, group_of, lemma_added_all, loaded_into,
    loaded_onto, loaded_value, present, read_text, replaced, taken, taken_all, unique, Groups,
};
use crate::json::parsed_document;
use crate::text::is_substring;

verus! {

/// Adding the same record a second time changes nothing, so the group keeps
/// its size.
pub proof fn lemma_add_twice(groups: Groups, kind: Kind, record: RecordView)
    ensures
        added(added(groups, kind, record), kind, record) == added(groups, kind, record),
        group_of(added(added(groups, kind, record), kind, record), kind).len() == group_of(
            added(groups, kind, record),
            kind,
        ).len(),
{
    let once = added(groups, kind, record);
    lemma_inserted_holds(group_of(groups, kind), record, record.json());
    assert(added(once, kind, record) =~= once);
}

/// Two records that differ in a field, or in their kind, are both kept: a
/// group that held neither holds two more once both are added.
pub proof fn lemma_both_kept(groups: Groups, kind: Kind, first: RecordView, second: RecordView)
    requires
        first != second,
        !group_of(groups, kind).contains(first),
        !group_of(groups, kind).contains(second),
    ensures
        group_of(added(added(groups, kind, first), kind, second), kind) == group_of(
            groups,
            kind,
        ).push(first).push(second),
{
    let before = group_of(groups, kind);
    lemma_holds_record(before, first);
    lemma_holds_record(before, second);
    lemma_inserted_holds(before, first, second.json());
    if first.json() == second.json() {
        first.lemma_text_identifies(second);
    }
}

/// A record that was not there is there once it is added. Removing it then
/// finds it and leaves the group as it was before; removing it once more
/// finds nothing.
pub proof fn lemma_add_then_remove(groups: Groups, kind: Kind, record: RecordView)
    requires
        !present(groups, kind, record.json()),
    ensures
        present(added(groups, kind, record), kind, record.json()),
        taken(added(groups, kind, record), kind, record.json()) == groups.insert(
            kind,
            group_of(groups, kind),
        ),
        !present(taken(added(groups, kind, record), kind, record.json()), kind, record.json()),
{
    let text = record.json();
    let before = group_of(groups, kind);
    let once = added(groups, kind, record);
    lemma_inserted_holds(before, record, text);
    assert(!holds(before, text));
    assert(inserted(before, record) == before.push(record));
    lemma_removed_none(before, text);
    before.lemma_filter_push(record, not_of(text));
    assert(removed(before.push(record), text) == before);
    assert(taken(once, kind, text) =~= groups.insert(kind, before));
}

/// A replacement changes the store exactly where the kind's group holds the
/// record to be replaced. Then the group holds the new record afterwards,
/// and the replaced one no more, unless the two have the same canonical text.
pub proof fn lemma_replace(
    groups: Groups,
    kind: Kind,
    old_record: RecordView,
    new_record: RecordView,
)
    ensures
        present(groups, kind, old_record.json()) ==> present(
            replaced(groups, kind, old_record.json(), new_record),
            kind,
            new_record.json(),
        ),
        present(groups, kind, old_record.json()) && new_record.json() != old_record.json()
            ==> !present(
            replaced(groups, kind, old_record.json(), new_record),
            kind,
            old_record.json(),
        ),
        !present(groups, kind, old_record.json()) ==> replaced(
            groups,
            kind,
            old_record.json(),
            new_record,
        ) == groups,
{
    if present(groups, kind, old_record.json()) {
        let without = removed(groups[kind], old_record.json());
        lemma_inserted_holds(without, new_record, new_record.json());
        lemma_inserted_holds(without, new_record, old_record.json());
        lemma_removed_holds(groups[kind], old_record.json(), old_record.json());
    }
}

/// A search gives the canonical texts of the kind in which the pattern
/// stands, all of them and no other; it gives nothing where there is none.
/// In a store without doubles it gives no text twice.
pub proof fn lemma_find_exact(groups: Groups, kind: Kind, pattern: Seq<char>, text: Seq<char>)
    ensures
        match found(groups, kind, pattern) {
            Some(list) => list.contains(text) <==> present(groups, kind, text) && is_substring(
                pattern,
                text,
            ),
            None => !(present(groups, kind, text) && is_substring(pattern, text)),
        },
        unique(groups) ==> (found(groups, kind, pattern) matches Some(list)
            ==> list.no_duplicates()),
{
    if groups.dom().contains(kind) {
        lemma_matching_exact(groups[kind], pattern, text);
    }
}

/// No operation brings two records of one canonical text into a group.
pub proof fn lemma_unique_kept(
    groups: Groups,
    kind: Kind,
    record: RecordView,
    records: Seq<RecordView>,
    text: Seq<char>,
    gone: Seq<Seq<char>>,
)
    requires
        unique(groups),
    ensures
        unique(added(groups, kind, record)),
        unique(added_all(groups, kind, records)),
        unique(taken(groups, kind, text)),
        unique(taken_all(groups, kind, gone)),
        unique(replaced(groups, kind, text, record)),
        unique(groups.remove(kind)),
{
    let before = group_of(groups, kind);
    assert(distinct(before)) by {
        if groups.dom().contains(kind) {
        }
    }
    lemma_inserted_distinct(before, record);
    if records.len() > 0 {
        lemma_inserted_all_distinct(before, records);
        lemma_added_all(groups, kind, records);
    }
    lemma_filter_distinct(before, not_of(text));
    lemma_filter_distinct(before, not_among(gone));
    lemma_inserted_distinct(removed(before, text), record);
}

/// Whether each record of the groups is read back from its canonical text
/// as a record of its group's kind.
pub open spec fn read_back(groups: Groups) -> bool {
    forall|kind: Kind, i: int|
        groups.dom().contains(kind) && 0 <= i < groups[kind].len() ==> RecordView::parsed(
            kind,
            (#[trigger] groups[kind][i]).json(),
        ) == Ok::<RecordView, ParseError>(groups[kind][i])
}

/// Records of distinct texts that are read back from their texts are read
/// into a group one after another, none dropped and none changed.
pub proof fn lemma_loaded_into(kind: Kind, group: Seq<RecordView>, rest: Seq<RecordView>)
    requires
        distinct(group + rest),
        forall|i: int|
            0 <= i < rest.len() ==> RecordView::parsed(kind, (#[trigger] rest[i]).json()) == Ok::<
                RecordView,
                ParseError,
            >(rest[i]),
    ensures
        loaded_into(kind, group, texts(rest)) == Ok::<Seq<RecordView>, ParseError>(group + rest),
    decreases rest.len(),
{
    let all = group + rest;
    if rest.len() == 0 {
        assert(all =~= group);
    } else {
        let first = rest[0];
        let later = rest.drop_first();
        assert(texts(rest)[0] == first.json());
        assert(texts(rest).drop_first() =~= texts(later));
        assert(all[group.len() as int] == first);
        assert(!holds(group, first.json())) by {
            if holds(group, first.json()) {
                let i = choose|i: int|
                    0 <= i < group.len() && (#[trigger] group[i]).json() == first.json();
                assert(all[i] == group[i]);
            }
        }
        assert(group.push(first) + later =~= all);
        assert forall|i: int| 0 <= i < later.len() implies RecordView::parsed(
            kind,
            (#[trigger] later[i]).json(),
        ) == Ok::<RecordView, ParseError>(later[i]) by {
            assert(later[i] == rest[i + 1]);
        }
        lemma_loaded_into(kind, group.push(first), later);
    }
}

/// A store in which no text occurs twice is read back from its own document,
/// wherever `serde_json` reads the document as the entries that were written
/// and each record is read back from its canonical text.
pub proof fn lemma_saved_is_loaded(groups: Groups)
    requires
        unique(groups),
        read_back(groups),
        parsed_document(document_of(groups)) == Some(
            entry_of(groups, Kind::Note) + entry_of(groups, Kind::Todo),
        ),
    ensures
        read_text(document_of(groups)) == Ok::<Groups, LoadError>(groups),
{
    let notes = entry_of(groups, Kind::Note);
    let todos = entry_of(groups, Kind::Todo);
    let entries = notes + todos;
    Kind::lemma_name_identifies(Kind::Note, Kind::Todo);
    Kind::lemma_name_identifies(Kind::Todo, Kind::Note);
    assert forall|kind: Kind| #[trigger] groups.dom().contains(kind) implies loaded_value(
        kind.name(),
        texts(groups[kind]),
    ) == Ok::<Seq<RecordView>, LoadError>(groups[kind]) by {
        assert(Seq::<RecordView>::empty() + groups[kind] =~= groups[kind]);
        lemma_loaded_into(kind, Seq::empty(), groups[kind]);
    }
    reveal_with_fuel(loaded_onto, 3);
    let empty = Groups::empty();
    if groups.dom().contains(Kind::Note) {
        let first = empty.insert(Kind::Note, groups[Kind::Note]);
        assert(entries[0] == (Kind::Note.name(), texts(groups[Kind::Note])));
        if groups.dom().contains(Kind::Todo) {
            assert(entries.drop_first() =~= todos);
            assert(todos.drop_first() =~= Seq::<(Seq<char>, Seq<Seq<char>>)>::empty());
            assert(first.insert(Kind::Todo, groups[Kind::Todo]) =~= groups);
        } else {
            assert(entries.drop_first() =~= Seq::<(Seq<char>, Seq<Seq<char>>)>::empty());
            assert(first =~= groups);
        }
    } else {
        if groups.dom().contains(Kind::Todo) {
            assert(entries =~= todos);
            assert(entries[0] == (Kind::Todo.name(), texts(groups[Kind::Todo])));
            assert(entries.drop_first() =~= Seq::<(Seq<char>, Seq<Seq<char>>)>::empty());
            assert(empty.insert(Kind::Todo, groups[Kind::Todo]) =~= groups);
        } else {
            assert(entries =~= Seq::<(Seq<char>, Seq<Seq<char>>)>::empty());
            assert(empty =~= groups);
        }
    }
}

} // verus!
