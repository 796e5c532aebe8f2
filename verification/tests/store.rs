use va::data_store::{Kind, LoadError, Note, Record, Restored, Storable, Store, Todo};
use va::json::{decode_object, get_int};

fn note(subject: &str, priority: u8) -> Note {
    let mut note = Note::stamped(1_600_000_000, 1_600_000_001);
    note.subject(subject.to_string()).priority(priority);
    note
}

fn todo(title: &str, done: bool) -> Todo {
    let mut todo = Todo::stamped(1_600_000_000, 1_600_003_600);
    todo.title(title.to_string()).done(done);
    todo
}

fn texts(records: &Vec<Record>) -> Vec<String> {
    records.iter().map(|record| record.to_json()).collect()
}

#[test]
fn a_new_store_holds_nothing() {
    let mut store = Store::new();
    assert_eq!(store.find::<Note>(""), None);
    assert_eq!(store.find::<Todo>("\""), None);
    assert_eq!(store.document(), "{}");
    assert!(store.remove_all::<Note>().is_none());
    assert!(!store.remove::<Note>(&Record::Note(note("a", 1))));
    assert!(!store.replace::<Note>(&Record::Note(note("a", 1)), Record::Note(note("b", 1))));
    assert!(!store.remove_vec::<Todo>(vec![&Record::Todo(todo("a", false))]));
    assert_eq!(store.document(), "{}");
}

#[test]
fn the_same_record_is_held_once() {
    let mut store = Store::new();
    store.add(note("a", 1));
    let once = store.find::<Note>("").unwrap();
    assert_eq!(once, vec![note("a", 1).to_json()]);
    store.add(note("a", 1));
    assert_eq!(store.find::<Note>("").unwrap(), once);
    store.add(note("b", 1));
    store.add(note("a", 1));
    assert_eq!(
        store.find::<Note>("").unwrap(),
        vec![note("a", 1).to_json(), note("b", 1).to_json()]
    );
    assert_eq!(store.find::<Todo>(""), None);
}

#[test]
fn a_record_added_is_removed_once() {
    let mut store = Store::new();
    store.add(note("kept", 1));
    let before = store.document();
    let fresh = Record::Note(note("fresh", 2));
    assert!(!store.remove::<Note>(&fresh));
    assert_eq!(store.document(), before);
    store.add(note("fresh", 2));
    assert_eq!(store.find::<Note>("fresh").unwrap(), vec![fresh.to_json()]);
    assert!(store.remove::<Note>(&fresh));
    assert_eq!(store.find::<Note>("fresh"), None);
    assert_eq!(store.document(), before);
    assert!(!store.remove::<Note>(&fresh));
    assert_eq!(store.document(), before);
}

#[test]
fn removing_the_last_record_leaves_an_empty_group() {
    let mut store = Store::new();
    store.add(todo("only", false));
    assert!(store.remove::<Todo>(&Record::Todo(todo("only", false))));
    assert_eq!(store.find::<Todo>(""), None);
    assert_eq!(store.document(), "{\"va::data_store::Todo\":[]}");
    let gone = store.remove_all::<Todo>().unwrap();
    assert!(gone.is_empty());
    assert!(store.remove_all::<Todo>().is_none());
    assert_eq!(store.document(), "{}");
}

#[test]
fn a_record_is_looked_for_in_the_named_kind_only() {
    let mut store = Store::new();
    store.add(note("a", 1));
    store.add(todo("a", false));
    assert!(!store.remove::<Todo>(&Record::Note(note("a", 1))));
    assert!(!store.remove::<Note>(&Record::Todo(todo("a", false))));
    assert_eq!(store.find::<Note>("").unwrap().len(), 1);
    assert_eq!(store.find::<Todo>("").unwrap().len(), 1);
    assert!(store.remove::<Note>(&Record::Note(note("a", 1))));
    assert_eq!(store.find::<Todo>("").unwrap(), vec![todo("a", false).to_json()]);
}

#[test]
fn a_replacement_happens_where_the_old_record_is() {
    let mut store = Store::new();
    store.add(note("old", 1));
    store.add(note("other", 1));
    let before = store.document();
    let old = Record::Note(note("old", 1));
    let missing = Record::Note(note("missing", 1));

    assert!(!store.replace::<Note>(&missing, Record::Note(note("new", 1))));
    assert_eq!(store.document(), before);
    assert!(!store.replace::<Todo>(&old, Record::Note(note("new", 1))));
    assert_eq!(store.document(), before);

    assert!(store.replace::<Note>(&old, Record::Note(note("new", 1))));
    assert_eq!(
        store.find::<Note>("").unwrap(),
        vec![note("other", 1).to_json(), note("new", 1).to_json()]
    );
    assert_eq!(store.find::<Note>("\"old\""), None);
    assert!(!store.replace::<Note>(&old, Record::Note(note("again", 1))));
}

#[test]
fn a_replacement_by_a_record_that_is_there_shrinks_the_group() {
    let mut store = Store::new();
    store.add(note("a", 1));
    store.add(note("b", 1));
    assert!(store.replace::<Note>(&Record::Note(note("a", 1)), Record::Note(note("b", 1))));
    assert_eq!(store.find::<Note>("").unwrap(), vec![note("b", 1).to_json()]);
    assert!(store.replace::<Note>(&Record::Note(note("b", 1)), Record::Note(note("b", 1))));
    assert_eq!(store.find::<Note>("").unwrap(), vec![note("b", 1).to_json()]);
}

#[test]
fn a_search_gives_the_texts_that_hold_the_pattern() {
    let mut store = Store::new();
    store.add(note("alpha", 1));
    store.add(note("beta", 2));
    store.add(note("alphabet", 3));
    store.add(todo("alpha", false));
    assert_eq!(
        store.find::<Note>("alpha").unwrap(),
        vec![note("alpha", 1).to_json(), note("alphabet", 3).to_json()]
    );
    assert_eq!(store.find::<Note>("\"priority\":2,").unwrap(), vec![note("beta", 2).to_json()]);
    assert_eq!(store.find::<Note>("gamma"), None);
    assert_eq!(store.find::<Note>("\"").unwrap().len(), 3);
    assert_eq!(store.find::<Note>("").unwrap().len(), 3);
    assert_eq!(store.find::<Note>(&note("beta", 2).to_json()).unwrap().len(), 1);
    assert_eq!(store.find::<Todo>("alpha").unwrap(), vec![todo("alpha", false).to_json()]);
    assert_eq!(store.find::<Todo>("subject"), None);
}

#[test]
fn many_records_are_added_at_once() {
    let mut store = Store::new();
    store.add(note("b", 1));
    store.add_vec(vec![note("a", 1), note("b", 1), note("c", 1), note("a", 1)]);
    assert_eq!(
        store.find::<Note>("").unwrap(),
        vec![note("b", 1).to_json(), note("a", 1).to_json(), note("c", 1).to_json()]
    );
    let before = store.document();
    store.add_vec::<Todo>(Vec::new());
    store.add_vec::<Note>(Vec::new());
    assert_eq!(store.document(), before);
    assert_eq!(store.find::<Todo>(""), None);
    assert!(store.remove_all::<Todo>().is_none());
    assert_eq!(store.find::<Note>("").unwrap().len(), 3);
}

#[test]
fn no_record_added_makes_no_group() {
    let mut store = Store::new();
    store.add_vec::<Note>(Vec::new());
    assert!(store.remove_all::<Note>().is_none());
    assert_eq!(store.document(), "{}");
    store.add_vec(vec![note("a", 1)]);
    assert_eq!(store.remove_all::<Note>().unwrap().len(), 1);
}

#[test]
fn notes_that_differ_in_one_stamp_are_both_kept() {
    let x = "{\"subject\":\"a\",\"on\":1,\"explanation\":\"\",\"conclusion\":\"\",\
             \"created\":1,\"priority\":0}";
    let y = x.replace("\"created\":1", "\"created\":2");
    let mut store = Store::new();
    store.add(Note::from_json(x).unwrap());
    store.add(Note::from_json(&y).unwrap());
    assert_eq!(store.find::<Note>("").unwrap().len(), 2);
    store.add(Note::from_json(x).unwrap());
    assert_eq!(store.find::<Note>("").unwrap().len(), 2);
    let text = format!("{{\"va::data_store::Note\":[{:?},{:?}]}}", x, y);
    let loaded = Store::read(&text).unwrap();
    assert_eq!(loaded.find::<Note>("").unwrap(), store.find::<Note>("").unwrap());
}

#[test]
fn many_records_are_removed_at_once() {
    let mut store = Store::new();
    store.add_vec(vec![note("a", 1), note("b", 1), note("c", 1), note("d", 1)]);
    let a = Record::Note(note("a", 1));
    let c = Record::Note(note("c", 1));
    let x = Record::Note(note("x", 1));
    assert!(!store.remove_vec::<Note>(vec![&x]));
    assert!(!store.remove_vec::<Note>(Vec::new()));
    assert!(!store.remove_vec::<Todo>(vec![&a]));
    assert_eq!(store.find::<Note>("").unwrap().len(), 4);
    assert!(store.remove_vec::<Note>(vec![&x, &c, &a, &c]));
    assert_eq!(
        store.find::<Note>("").unwrap(),
        vec![note("b", 1).to_json(), note("d", 1).to_json()]
    );
    assert!(!store.remove_vec::<Note>(vec![&a, &c]));
}

#[test]
fn two_records_added_are_both_removed() {
    let mut store = Store::new();
    store.add_vec(vec![todo("first", false), todo("second", true)]);
    let removed = store.remove_all::<Todo>().unwrap();
    let mut found = texts(&removed);
    found.sort();
    let mut wanted = vec![todo("first", false).to_json(), todo("second", true).to_json()];
    wanted.sort();
    assert_eq!(found, wanted);
    assert_eq!(store.find::<Todo>("\""), None);
    assert!(store.remove_all::<Todo>().is_none());
}

#[test]
fn a_saved_note_is_found_after_loading() {
    let mut record = Note::stamped(1_600_000_000, 1_600_000_001);
    record.subject("kept".to_string()).priority(50);
    let mut store = Store::new();
    store.add(record);
    let saved = store.document();
    let loaded = match Store::restore(&saved) {
        Restored::Intact(store) => store,
        other => panic!("{:?}", other),
    };
    let found = loaded.find::<Note>("50").unwrap();
    assert_eq!(found.len(), 1);
    let members = decode_object(&found[0]).unwrap();
    assert_eq!(get_int(&members, "priority"), Some(50));
    assert_eq!(loaded.document(), saved);
}

#[test]
fn the_document_is_exact() {
    let mut store = Store::new();
    store.add(todo("t", false));
    store.add(note("n\"1", 1));
    store.add(note("n2", 2));
    let mut map = std::collections::BTreeMap::new();
    map.insert(
        "va::data_store::Note".to_string(),
        vec![note("n\"1", 1).to_json(), note("n2", 2).to_json()],
    );
    map.insert("va::data_store::Todo".to_string(), vec![todo("t", false).to_json()]);
    assert_eq!(store.document(), serde_json::to_string(&map).unwrap());
    assert!(store.document().starts_with(
        "{\"va::data_store::Note\":[\"{\\\"subject\\\":\\\"n\\\\\\\"1\\\",\\\"on\\\":1600000000,"
    ));
}

#[test]
fn test_load_store() {
    let mut store = Store::new();
    store.add(note("a", 1));
    store.add(todo("b", true));
    match Store::restore(&store.document()) {
        Restored::Intact(loaded) => {
            assert_eq!(format!("{:#?}", loaded), format!("{:#?}", store));
        }
        other => panic!("{:?}", other),
    }
}

#[test]
fn test_load_save_store() {
    let text = "{\"va::data_store::Todo\":[],\"va::data_store::Note\":[]}";
    let loaded = Store::read(text).unwrap();
    assert_eq!(
        loaded.document(),
        "{\"va::data_store::Note\":[],\"va::data_store::Todo\":[]}"
    );
    assert_eq!(Store::read("{}").unwrap().document(), "{}");
}

#[test]
fn a_document_with_a_bad_record_is_set_aside() {
    let good = note("good", 1).to_json();
    let mut map = std::collections::BTreeMap::new();
    map.insert("va::data_store::Note".to_string(), vec![good.clone()]);
    map.insert(
        "va::data_store::Todo".to_string(),
        vec![todo("fine", false).to_json(), "{\"title\":".to_string()],
    );
    let text = serde_json::to_string(&map).unwrap();
    assert_eq!(Store::read(&text).err(), Some(LoadError::Record));
    match Store::restore(&text) {
        Restored::Quarantined(store) => {
            assert_eq!(store.document(), "{}");
            assert_eq!(store.find::<Note>(""), None);
        }
        other => panic!("{:?}", other),
    }
    map.insert("va::data_store::Todo".to_string(), vec![good]);
    let text = serde_json::to_string(&map).unwrap();
    assert_eq!(Store::read(&text).err(), Some(LoadError::Record));
}

#[test]
fn a_text_that_is_no_document_is_set_aside() {
    for text in ["", "{", "[]", "{\"va::data_store::Note\":[1]}", "{\"va::data_store::Note\":{}}"] {
        assert_eq!(Store::read(text).err(), Some(LoadError::Document), "{:?}", text);
        match Store::restore(text) {
            Restored::Quarantined(store) => assert_eq!(store.document(), "{}"),
            other => panic!("{:?}", other),
        }
    }
}

#[test]
fn a_name_of_no_kind_is_not_recovered() {
    let text = "{\"va::data_store::Memo\":[]}";
    assert_eq!(Store::read(text).err(), Some(LoadError::UnknownKind));
    assert!(matches!(Store::restore(text), Restored::UnknownKind));
    let text = "{\"a\":[\"bad\"],\"va::data_store::Note\":[\"bad\"]}";
    assert_eq!(Store::read(text).err(), Some(LoadError::UnknownKind));
    let text = "{\"va::data_store::Note\":[\"bad\"],\"zz\":[]}";
    assert_eq!(Store::read(text).err(), Some(LoadError::Record));
}

#[test]
fn an_entry_is_read_as_a_group() {
    let key = "va::data_store::Note".to_string();
    let a = note("a", 1).to_json();
    let b = note("b", 1).to_json();
    let spaced = a.replace(",", " , ");
    let group = Store::load_value(&key, vec![a.clone(), b.clone(), spaced, a.clone()]).unwrap();
    assert_eq!(texts(&group), vec![a.clone(), b.clone()]);
    assert!(Store::load_value(&key, Vec::new()).unwrap().is_empty());
    assert_eq!(
        Store::load_value(&key, vec![a.clone(), "x".to_string()]).err(),
        Some(LoadError::Record)
    );
    assert_eq!(
        Store::load_value(&"nothing".to_string(), vec![a.clone()]).err(),
        Some(LoadError::UnknownKind)
    );
    let store = Store::load_store(vec![
        ("va::data_store::Todo".to_string(), vec![todo("t", true).to_json()]),
        (key.clone(), vec![a.clone()]),
        (key.clone(), vec![b.clone()]),
    ])
    .unwrap();
    assert_eq!(store.find::<Note>("").unwrap(), vec![b]);
    assert_eq!(store.find::<Todo>("").unwrap(), vec![todo("t", true).to_json()]);
    assert_eq!(Kind::Note, <Note as Storable>::kind());
}
