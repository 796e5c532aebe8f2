//! The records of one kind: a sequence in which no canonical text occurs twice.

use vstd::prelude::*;
use crate::data_store::record::RecordView;
use crate::text::is_substring;

verus! {

/// The canonical texts of the records, in their order.
pub open spec fn texts(group: Seq<RecordView>) -> Seq<Seq<char>> {
    group.map_values(|r: RecordView| r.json())
}

/// Whether a record of that canonical text is in the group.
pub open spec fn holds(group: Seq<RecordView>, text: Seq<char>) -> bool {
    exists|i: int| 0 <= i < group.len() && (#[trigger] group[i]).json() == text
}

/// Whether no two records of the group have the same canonical text.
pub open spec fn distinct(group: Seq<RecordView>) -> bool {
    forall|i: int, j: int|
        0 <= i < j < group.len() ==> (#[trigger] group[i]).json() != (#[trigger] group[j]).json()
}

/// The group after a record is added: unchanged where it holds one of the
/// same text, else with the record at its end.
pub open spec fn inserted(group: Seq<RecordView>, record: RecordView) -> Seq<RecordView> {
    if holds(group, record.json()) {
        group
    } else {
        group.push(record)
    }
}

/// The group after the records are added one after another.
pub open spec fn inserted_all(group: Seq<RecordView>, records: Seq<RecordView>) -> Seq<
    RecordView,
>
    decreases records.len(),
{
    if records.len() == 0 {
        group
    } else {
        inserted(inserted_all(group, records.drop_last()), records.last())
    }
}

/// The test that all records pass but those of that text.
pub open spec fn not_of(text: Seq<char>) -> spec_fn(RecordView) -> bool {
    |r: RecordView| r.json() != text
}

/// The test that all records pass but those of any of those texts.
pub open spec fn not_among(gone: Seq<Seq<char>>) -> spec_fn(RecordView) -> bool {
    |r: RecordView| !gone.contains(r.json())
}

/// The test that the texts pass in which the pattern stands.
pub open spec fn has(pattern: Seq<char>) -> spec_fn(Seq<char>) -> bool {
    |t: Seq<char>| is_substring(pattern, t)
}

/// The group without the records of that text.
pub open spec fn removed(group: Seq<RecordView>, text: Seq<char>) -> Seq<RecordView> {
    group.filter(not_of(text))
}

/// The group without the records of any of those texts.
pub open spec fn removed_all(group: Seq<RecordView>, gone: Seq<Seq<char>>) -> Seq<RecordView> {
    group.filter(not_among(gone))
}

/// The canonical texts of the group that the pattern stands in, in their order.
pub open spec fn matching(group: Seq<RecordView>, pattern: Seq<char>) -> Seq<Seq<char>> {
    texts(group).filter(has(pattern))
}

/// After a record is added the group holds its text, and every other text
/// as before.
pub proof fn lemma_inserted_holds(group: Seq<RecordView>, record: RecordView, other: Seq<char>)
    ensures
        holds(inserted(group, record), other) <==> other == record.json() || holds(group, other),
{
    let after = inserted(group, record);
    if holds(group, record.json()) {
    } else {
        assert(after[group.len() as int] == record);
        if holds(group, other) {
            let i = choose|i: int| 0 <= i < group.len() && (#[trigger] group[i]).json() == other;
            assert(after[i] == group[i]);
        }
        if holds(after, other) && other != record.json() {
            let i = choose|i: int| 0 <= i < after.len() && (#[trigger] after[i]).json() == other;
            assert(after[i] == group[i]);
        }
    }
}

/// A group holds a record's canonical text exactly where it holds the record.
pub proof fn lemma_holds_record(group: Seq<RecordView>, record: RecordView)
    ensures
        holds(group, record.json()) <==> group.contains(record),
{
    if holds(group, record.json()) {
        let i = choose|i: int| 0 <= i < group.len() && (#[trigger] group[i]).json() == record.json();
        group[i].lemma_text_identifies(record);
    }
    if group.contains(record) {
        let i = choose|i: int| 0 <= i < group.len() && group[i] == record;
        assert(group[i].json() == record.json());
    }
}

/// Adding a record keeps the texts of a group distinct.
pub proof fn lemma_inserted_distinct(group: Seq<RecordView>, record: RecordView)
    requires
        distinct(group),
    ensures
        distinct(inserted(group, record)),
        holds(inserted(group, record), record.json()),
{
    let after = inserted(group, record);
    if !holds(group, record.json()) {
        assert(after[group.len() as int] == record);
        assert forall|i: int, j: int| 0 <= i < j < after.len() implies (#[trigger] after[i]).json()
            != (#[trigger] after[j]).json() by {
            if j == group.len() {
                assert(group[i] == after[i]);
            } else {
                assert(group[i] == after[i] && group[j] == after[j]);
            }
        }
    } else {
        let i = choose|i: int| 0 <= i < group.len() && (#[trigger] group[i]).json() == record.json();
        assert(after[i].json() == record.json());
    }
}

/// Whether a record of that text passes the test and is in the group.
pub open spec fn holds_passing(
    group: Seq<RecordView>,
    keep: spec_fn(RecordView) -> bool,
    text: Seq<char>,
) -> bool {
    exists|i: int| 0 <= i < group.len() && keep(#[trigger] group[i]) && group[i].json() == text
}

/// What a test leaves of a group holds the texts of the records that pass.
pub proof fn lemma_filter_holds(
    group: Seq<RecordView>,
    keep: spec_fn(RecordView) -> bool,
    text: Seq<char>,
)
    ensures
        holds(group.filter(keep), text) <==> holds_passing(group, keep, text),
    decreases group.len(),
{
    reveal(Seq::filter);
    if group.len() > 0 {
        let front = group.drop_last();
        let last = group.last();
        let kept = front.filter(keep);
        let after = group.filter(keep);
        lemma_filter_holds(front, keep, text);
        assert(last == group[group.len() - 1]);
        assert(after == if keep(last) {
            kept.push(last)
        } else {
            kept
        });
        if holds(after, text) {
            let i = choose|i: int| 0 <= i < after.len() && (#[trigger] after[i]).json() == text;
            if keep(last) && i == kept.len() {
                assert(keep(group[group.len() - 1]));
            } else {
                assert(kept[i] == after[i]);
                assert(holds(kept, text));
                let k = choose|k: int|
                    0 <= k < front.len() && keep(#[trigger] front[k]) && front[k].json() == text;
                assert(group[k] == front[k]);
            }
        }
        if holds_passing(group, keep, text) {
            let k = choose|k: int|
                0 <= k < group.len() && keep(#[trigger] group[k]) && group[k].json() == text;
            if k == group.len() - 1 {
                assert(after[kept.len() as int] == last);
            } else {
                assert(front[k] == group[k]);
                assert(holds_passing(front, keep, text));
                let i = choose|i: int| 0 <= i < kept.len() && (#[trigger] kept[i]).json() == text;
                assert(after[i] == kept[i]);
            }
        }
    } else {
        assert(group.filter(keep).len() == 0);
    }
}

/// What a test leaves of a group of distinct texts has distinct texts.
pub proof fn lemma_filter_distinct(group: Seq<RecordView>, keep: spec_fn(RecordView) -> bool)
    requires
        distinct(group),
    ensures
        distinct(group.filter(keep)),
    decreases group.len(),
{
    reveal(Seq::filter);
    if group.len() > 0 {
        let front = group.drop_last();
        let last = group.last();
        let kept = front.filter(keep);
        let after = group.filter(keep);
        assert(last == group[group.len() - 1]);
        assert forall|i: int, j: int| 0 <= i < j < front.len() implies (#[trigger] front[i]).json()
            != (#[trigger] front[j]).json() by {
            assert(front[i] == group[i] && front[j] == group[j]);
        }
        lemma_filter_distinct(front, keep);
        if keep(last) {
            assert(after == kept.push(last));
            lemma_filter_holds(front, keep, last.json());
            if holds_passing(front, keep, last.json()) {
                let k = choose|k: int|
                    0 <= k < front.len() && keep(#[trigger] front[k]) && front[k].json()
                        == last.json();
                assert(front[k] == group[k]);
            }
            assert(!holds(kept, last.json()));
            assert forall|i: int, j: int| 0 <= i < j < after.len() implies (#[trigger] after[i]).json()
                != (#[trigger] after[j]).json() by {
                if j == kept.len() {
                    assert(kept[i] == after[i]);
                } else {
                    assert(kept[i] == after[i] && kept[j] == after[j]);
                }
            }
        } else {
            assert(after == kept);
        }
    }
}

/// A group of distinct texts without one of them is the group without the
/// record at that text's place.
pub proof fn lemma_removed_at(group: Seq<RecordView>, i: int)
    requires
        distinct(group),
        0 <= i < group.len(),
    ensures
        removed(group, group[i].json()) == group.remove(i),
    decreases group.len(),
{
    let text = group[i].json();
    let front = group.drop_last();
    reveal(Seq::filter);
    if i == group.len() - 1 {
        lemma_removed_none(front, text);
        assert(group.remove(i) == front);
    } else {
        assert(front[i] == group[i]);
        lemma_removed_at(front, i);
        assert(group.last() == group[group.len() - 1]);
        assert(not_of(text)(group.last()));
        assert(group.remove(i) == front.remove(i).push(group.last()));
    }
}

/// Removing a text that a group does not hold leaves the group as it is.
pub proof fn lemma_removed_none(group: Seq<RecordView>, text: Seq<char>)
    requires
        !holds(group, text),
    ensures
        removed(group, text) == group,
    decreases group.len(),
{
    reveal(Seq::filter);
    if group.len() > 0 {
        let front = group.drop_last();
        assert forall|i: int| 0 <= i < front.len() implies (#[trigger] front[i]).json() != text by {
            assert(front[i] == group[i]);
        }
        lemma_removed_none(front, text);
        assert(group.last() == group[group.len() - 1]);
        assert(front.push(group.last()) == group);
    }
}

/// Adding records one after another keeps the texts of a group distinct.
pub proof fn lemma_inserted_all_distinct(group: Seq<RecordView>, records: Seq<RecordView>)
    requires
        distinct(group),
    ensures
        distinct(inserted_all(group, records)),
    decreases records.len(),
{
    if records.len() > 0 {
        lemma_inserted_all_distinct(group, records.drop_last());
        lemma_inserted_distinct(inserted_all(group, records.drop_last()), records.last());
    }
}

/// The texts of a group hold a text where the group holds a record of it.
pub proof fn lemma_texts_hold(group: Seq<RecordView>, text: Seq<char>)
    ensures
        texts(group).contains(text) <==> holds(group, text),
{
    let list = texts(group);
    if list.contains(text) {
        let i = choose|i: int| 0 <= i < list.len() && list[i] == text;
        assert(group[i].json() == text);
    }
    if holds(group, text) {
        let i = choose|i: int| 0 <= i < group.len() && (#[trigger] group[i]).json() == text;
        assert(list[i] == text);
    }
}

/// A search gives the texts of the group that the pattern stands in, all
/// of them and no other, and none twice where the group's texts are distinct.
pub proof fn lemma_matching_exact(group: Seq<RecordView>, pattern: Seq<char>, text: Seq<char>)
    ensures
        matching(group, pattern).contains(text) <==> holds(group, text) && is_substring(
            pattern,
            text,
        ),
        distinct(group) ==> matching(group, pattern).no_duplicates(),
    decreases group.len(),
{
    reveal(Seq::filter);
    lemma_texts_hold(group, text);
    if group.len() > 0 {
        let front = group.drop_last();
        let last = group.last();
        assert(last == group[group.len() - 1]);
        lemma_matching_exact(front, pattern, text);
        lemma_matching_exact(front, pattern, last.json());
        lemma_texts_hold(front, text);
        lemma_texts_hold(front, last.json());
        assert(texts(group).drop_last() == texts(front));
        assert(texts(group).last() == last.json());
        let kept = matching(front, pattern);
        let after = matching(group, pattern);
        assert(after == if has(pattern)(last.json()) {
            kept.push(last.json())
        } else {
            kept
        });
        assert(holds(group, text) <==> holds(front, text) || last.json() == text) by {
            if holds(front, text) {
                let i = choose|i: int| 0 <= i < front.len() && (#[trigger] front[i]).json() == text;
                assert(group[i] == front[i]);
            }
            if holds(group, text) && last.json() != text {
                let i = choose|i: int| 0 <= i < group.len() && (#[trigger] group[i]).json() == text;
                assert(group[i] == front[i]);
            }
        }
        if has(pattern)(last.json()) {
            assert(after.contains(text) <==> kept.contains(text) || last.json() == text) by {
                if kept.contains(text) {
                    let i = choose|i: int| 0 <= i < kept.len() && kept[i] == text;
                    assert(after[i] == text);
                }
                if last.json() == text {
                    assert(after[kept.len() as int] == text);
                }
            }
        }
        if distinct(group) {
            assert forall|i: int, j: int| 0 <= i < j < front.len() implies (#[trigger] front[i]).json()
                != (#[trigger] front[j]).json() by {
                assert(front[i] == group[i] && front[j] == group[j]);
            }
            if has(pattern)(last.json()) {
                if holds(front, last.json()) {
                    let i = choose|i: int|
                        0 <= i < front.len() && (#[trigger] front[i]).json() == last.json();
                    assert(group[i] == front[i]);
                }
                assert(!kept.contains(last.json()));
                assert forall|i: int, j: int| 0 <= i < after.len() && 0 <= j < after.len() && i
                    != j implies after[i] != after[j] by {
                    if i < kept.len() {
                        assert(after[i] == kept[i]);
                    }
                    if j < kept.len() {
                        assert(after[j] == kept[j]);
                    }
                }
            }
        }
    } else {
        assert(matching(group, pattern).len() == 0);
    }
}

/// Removing no text leaves the group as it is.
pub proof fn lemma_removed_all_none(group: Seq<RecordView>)
    ensures
        removed_all(group, Seq::empty()) == group,
    decreases group.len(),
{
    reveal(Seq::filter);
    if group.len() > 0 {
        lemma_removed_all_none(group.drop_last());
        assert(not_among(Seq::empty())(group.last()));
        assert(group.drop_last().push(group.last()) == group);
    }
}

/// After a removal the group holds the removed text no more, and every other
/// text as before.
pub proof fn lemma_removed_holds(group: Seq<RecordView>, text: Seq<char>, other: Seq<char>)
    ensures
        holds(removed(group, text), other) <==> other != text && holds(group, other),
{
    lemma_filter_holds(group, not_of(text), other);
    if holds_passing(group, not_of(text), other) {
        let k = choose|k: int|
            0 <= k < group.len() && not_of(text)(#[trigger] group[k]) && group[k].json() == other;
        assert(group[k].json() == other);
    }
    if other != text && holds(group, other) {
        let k = choose|k: int| 0 <= k < group.len() && (#[trigger] group[k]).json() == other;
        assert(not_of(text)(group[k]));
    }
}

/// After the removal of several texts the group holds none of them, and
/// every other text as before.
pub proof fn lemma_removed_all_holds(group: Seq<RecordView>, gone: Seq<Seq<char>>, other: Seq<char>)
    ensures
        holds(removed_all(group, gone), other) <==> !gone.contains(other) && holds(group, other),
{
    lemma_filter_holds(group, not_among(gone), other);
    if holds_passing(group, not_among(gone), other) {
        let k = choose|k: int|
            0 <= k < group.len() && not_among(gone)(#[trigger] group[k]) && group[k].json()
                == other;
        assert(group[k].json() == other);
    }
    if !gone.contains(other) && holds(group, other) {
        let k = choose|k: int| 0 <= k < group.len() && (#[trigger] group[k]).json() == other;
        assert(not_among(gone)(group[k]));
    }
}

/// Removing one text more, after several, is removing them all at once.
pub proof fn lemma_removed_all_step(group: Seq<RecordView>, gone: Seq<Seq<char>>, text: Seq<char>)
    ensures
        removed(removed_all(group, gone), text) == removed_all(group, gone.push(text)),
    decreases group.len(),
{
    reveal(Seq::filter);
    if group.len() > 0 {
        let front = group.drop_last();
        let last = group.last();
        lemma_removed_all_step(front, gone, text);
        assert(gone.push(text).contains(last.json()) <==> gone.contains(last.json()) || last.json()
            == text) by {
            if gone.contains(last.json()) {
                let k = choose|k: int| 0 <= k < gone.len() && gone[k] == last.json();
                assert(gone.push(text)[k] == last.json());
            }
            if last.json() == text {
                assert(gone.push(text)[gone.len() as int] == text);
            }
        }
        let inner = removed_all(front, gone);
        if not_among(gone)(last) {
            assert(removed_all(group, gone) == inner.push(last));
            inner.lemma_filter_push(last, not_of(text));
        } else {
            assert(removed_all(group, gone) == inner);
        }
    } else {
        assert(removed_all(group, gone).len() == 0);
    }
}

} // verus!
