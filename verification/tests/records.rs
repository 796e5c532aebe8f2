use va::data_store::{Kind, Note, ParseError, Record, Storable, Todo};
use va::json::{
    decimal_text, decode_document, decode_list, decode_object, encode_document, encode_object,
    encode_value, frame_list, frame_member, frame_object, get_flag, get_int, get_text, join,
    nth_flag, nth_int, nth_text, Field, Member,
};

fn sample_note() -> Note {
    let mut note = Note::stamped(1_600_000_000, 1_600_000_001);
    note.subject("test note".to_string())
        .explanation("it's test note that happened this morning!".to_string())
        .conclusion("TDD is good!".to_string())
        .priority(50);
    note
}

fn sample_todo() -> Todo {
    let mut todo = Todo::stamped(1_600_000_000, 1_600_003_600);
    todo.title("test note".to_string())
        .tag("#urgent".to_string())
        .cause("TDD is good!".to_string())
        .priority(255)
        .done(true);
    todo
}

#[test]
fn test_create_note() {
    let mut test = Note::new();
    test.subject("test note".to_string())
        .explanation("it's test note that happened this morning!".to_string())
        .conclusion("TDD is good!".to_string())
        .priority(255);
    let mut array: Vec<String> = Vec::new();
    array.push(test.to_json());
    let b_test = frame_list(&array).into_bytes();
    let values: Vec<serde_json::Value> = serde_json::from_slice(b_test.as_slice()).unwrap();
    let res: Vec<Note> = values
        .iter()
        .map(|value| Note::from_json(&value.to_string()).unwrap())
        .collect();
    assert_eq!(format!("{:?}", res.first().unwrap()), format!("{:?}", test));
    assert_eq!(res.first().unwrap().to_json(), test.to_json());
}

#[test]
fn test_create_todo() {
    let mut test = Todo::new();
    test.title("test note".to_string())
        .tag("#urgent".to_string())
        .cause("TDD is good!".to_string())
        .priority(255)
        .due(chrono::Local::now().timestamp())
        .done(true);
    let mut array: Vec<String> = Vec::new();
    array.push(test.to_json());
    let b_test = frame_list(&array).into_bytes();
    let values: Vec<serde_json::Value> = serde_json::from_slice(b_test.as_slice()).unwrap();
    let res: Vec<Todo> = values
        .iter()
        .map(|value| Todo::from_json(&value.to_string()).unwrap())
        .collect();
    assert_eq!(res.first().unwrap().to_json(), test.to_json());
    assert_eq!(format!("{:?}", res.first().unwrap()), format!("{:?}", test));
}

#[test]
fn note_text_is_exact() {
    assert_eq!(
        sample_note().to_json(),
        "{\"subject\":\"test note\",\"on\":1600000000,\
         \"explanation\":\"it's test note that happened this morning!\",\
         \"conclusion\":\"TDD is good!\",\"created\":1600000001,\"priority\":50,\"repeat\":1}"
    );
}

#[test]
fn todo_text_is_exact() {
    assert_eq!(
        sample_todo().to_json(),
        "{\"title\":\"test note\",\"tag\":\"#urgent\",\"created\":1600000000,\
         \"cause\":\"TDD is good!\",\"due\":1600003600,\"priority\":255,\"done\":true}"
    );
}

#[test]
fn blank_records_are_exact() {
    assert_eq!(
        Note::stamped(-5, 0).to_json(),
        "{\"subject\":\"\",\"on\":-5,\"explanation\":\"\",\"conclusion\":\"\",\
         \"created\":0,\"priority\":0,\"repeat\":1}"
    );
    assert_eq!(
        Todo::stamped(7, 8).to_json(),
        "{\"title\":\"\",\"tag\":\"\",\"created\":7,\"cause\":\"\",\"due\":8,\
         \"priority\":0,\"done\":false}"
    );
}

#[test]
fn new_records_are_stamped_with_the_clock() {
    let before = chrono::Local::now().timestamp();
    let note = Note::new();
    let todo = Todo::new();
    let after = chrono::Local::now().timestamp();
    let note_members = decode_object(&note.to_json()).unwrap();
    let on = get_int(&note_members, "on").unwrap();
    let created = get_int(&note_members, "created").unwrap();
    assert!(before <= on && on <= after);
    assert!(before <= created && created <= after);
    assert_eq!(get_text(&note_members, "subject").unwrap(), "");
    assert_eq!(get_int(&note_members, "priority"), Some(0));
    assert_eq!(get_int(&note_members, "repeat"), Some(1));
    let todo_members = decode_object(&todo.to_json()).unwrap();
    let made = get_int(&todo_members, "created").unwrap();
    let due = get_int(&todo_members, "due").unwrap();
    assert!(before <= made && made <= after);
    assert!(before + 3600 <= due && due <= after + 3600);
    assert_eq!(get_flag(&todo_members, "done"), Some(false));
}

#[test]
fn a_todo_is_due_an_hour_after_the_reading() {
    assert_eq!(
        Todo::due_in_an_hour(1_600_000_000, 1_600_000_002).to_json(),
        "{\"title\":\"\",\"tag\":\"\",\"created\":1600000000,\"cause\":\"\",\
         \"due\":1600003602,\"priority\":0,\"done\":false}"
    );
    assert_eq!(
        Todo::due_in_an_hour(0, i64::MAX - 3600).to_json(),
        Todo::stamped(0, i64::MAX).to_json()
    );
    assert_eq!(
        Todo::due_in_an_hour(-7, -3600).to_json(),
        Todo::stamped(-7, 0).to_json()
    );
}

#[test]
fn note_setters_ignore_what_is_not_valid() {
    let mut note = sample_note();
    let text = note.to_json();
    note.subject(String::new())
        .explanation(String::new())
        .conclusion(String::new())
        .on(0)
        .on(-1)
        .repeat(0)
        .repeat(1);
    assert_eq!(note.to_json(), text);
    note.on(1).repeat(2);
    let members = decode_object(&note.to_json()).unwrap();
    assert_eq!(get_int(&members, "on"), Some(1));
    assert_eq!(get_int(&members, "repeat"), Some(2));
}

#[test]
fn note_repeat_counts_up_and_stops() {
    let mut note = Note::stamped(1, 1);
    note.add_repeat().add_repeat();
    let members = decode_object(&note.to_json()).unwrap();
    assert_eq!(get_int(&members, "repeat"), Some(3));
    note.repeat(254).add_repeat();
    let members = decode_object(&note.to_json()).unwrap();
    assert_eq!(get_int(&members, "repeat"), Some(255));
    note.add_repeat();
    let members = decode_object(&note.to_json()).unwrap();
    assert_eq!(get_int(&members, "repeat"), Some(255));
}

#[test]
fn todo_setters_ignore_what_is_not_valid() {
    let mut todo = sample_todo();
    let text = todo.to_json();
    todo.title(String::new())
        .tag(String::new())
        .cause(String::new())
        .due(1_600_000_000)
        .due(5);
    assert_eq!(todo.to_json(), text);
    todo.due(1_600_000_001).done(false).priority(7);
    let members = decode_object(&todo.to_json()).unwrap();
    assert_eq!(get_int(&members, "due"), Some(1_600_000_001));
    assert_eq!(get_flag(&members, "done"), Some(false));
    assert_eq!(get_int(&members, "priority"), Some(7));
}

#[test]
fn records_come_back_from_their_text() {
    let mut note = Note::stamped(i64::MAX, i64::MIN);
    note.subject("quote \" backslash \\ newline \n tab \t bell \u{7} é 日本 😀".to_string())
        .explanation("{\"nested\":[1,2]}".to_string())
        .priority(255)
        .repeat(255);
    let text = note.to_json();
    let back = Note::from_json(&text).unwrap();
    assert_eq!(format!("{:?}", back), format!("{:?}", note));
    assert_eq!(back.to_json(), text);

    let todo = sample_todo();
    let text = todo.to_json();
    let back = Todo::from_json(&text).unwrap();
    assert_eq!(format!("{:?}", back), format!("{:?}", todo));
    assert_eq!(back.to_json(), text);

    let record = Record::from_json(Kind::Note, &sample_note().to_json()).unwrap();
    assert_eq!(record.kind(), Kind::Note);
    assert_eq!(record.to_json(), sample_note().to_json());
    let record = Record::from_json(Kind::Todo, &text).unwrap();
    assert_eq!(record.kind(), Kind::Todo);
    assert_eq!(record.to_json(), text);
}

#[test]
fn strings_are_escaped_as_json() {
    let mut note = Note::stamped(1, 1);
    note.subject("a\"b\\c\nd".to_string());
    let text = note.to_json();
    assert!(text.starts_with("{\"subject\":\"a\\\"b\\\\c\\nd\",\"on\":1,"));
    let value: serde_json::Value = serde_json::from_str(&text).unwrap();
    assert_eq!(value.get("subject").unwrap().as_str(), Some("a\"b\\c\nd"));
}

#[test]
fn a_note_is_read_from_any_layout() {
    let text = " { \"repeat\" : 4, \"priority\":9 ,\"extra\":[1,{\"a\":null}],\n\
                \"created\":3,\"conclusion\":\"c\",\"explanation\":\"e\",\"on\":2,\
                \"subject\":\"s\" } ";
    let note = Note::from_json(text).unwrap();
    assert_eq!(
        note.to_json(),
        "{\"subject\":\"s\",\"on\":2,\"explanation\":\"e\",\"conclusion\":\"c\",\
         \"created\":3,\"priority\":9,\"repeat\":4}"
    );
}

#[test]
fn what_is_no_object_is_a_syntax_error() {
    for text in ["", "not json", "[1,", "\"text\"", "null", "7", "{\"subject\":", "{} x", "[] x"] {
        assert_eq!(Note::from_json(text).err(), Some(ParseError::Syntax), "{:?}", text);
        assert_eq!(Todo::from_json(text).err(), Some(ParseError::Syntax), "{:?}", text);
    }
}

#[test]
fn a_record_of_other_fields_is_a_schema_error() {
    let note = sample_note().to_json();
    let todo = sample_todo().to_json();
    assert_eq!(Note::from_json(&todo).err(), Some(ParseError::Schema));
    assert_eq!(Todo::from_json(&note).err(), Some(ParseError::Schema));
    assert_eq!(Note::from_json("{}").err(), Some(ParseError::Schema));
    assert_eq!(
        Record::from_json(Kind::Note, &todo).err(),
        Some(ParseError::Schema)
    );
    let cases = [
        note.replace("\"priority\":50", "\"priority\":256"),
        note.replace("\"priority\":50", "\"priority\":-1"),
        note.replace("\"priority\":50", "\"priority\":5.0"),
        note.replace("\"priority\":50", "\"priority\":\"50\""),
        note.replace("\"repeat\":1", "\"repeat\":300"),
        note.replace("\"on\":1600000000", "\"on\":9223372036854775808"),
        note.replace("\"on\":1600000000", "\"on\":null"),
        note.replace("\"subject\":\"test note\"", "\"subject\":7"),
        note.replace("\"repeat\":1", "\"repeat\":\"1\""),
        note.replace("\"repeat\":1", "\"repeat\":null"),
        note.replace("\"repeat\":1", "\"repeat\":-1"),
        note.replace(",\"created\":1600000001", ""),
    ];
    for text in cases.iter() {
        assert_ne!(*text, note);
        assert_eq!(Note::from_json(text).err(), Some(ParseError::Schema), "{}", text);
    }
    let cases = [
        todo.replace("\"done\":true", "\"done\":1"),
        todo.replace("\"priority\":255", "\"priority\":256"),
        todo.replace("\"tag\":\"#urgent\",", ""),
    ];
    for text in cases.iter() {
        assert_ne!(*text, todo);
        assert_eq!(Todo::from_json(text).err(), Some(ParseError::Schema), "{}", text);
    }
}

#[test]
fn a_note_without_a_count_was_counted_once() {
    let note = sample_note().to_json();
    let short = note.replace(",\"repeat\":1", "");
    assert_ne!(short, note);
    assert_eq!(Note::from_json(&short).unwrap().to_json(), note);
    let counted = note.replace("\"repeat\":1", "\"repeat\":9");
    assert_eq!(Note::from_json(&counted).unwrap().to_json(), counted);
}

#[test]
fn a_record_is_read_from_a_list_of_its_fields() {
    let wanted = "{\"subject\":\"s\",\"on\":1,\"explanation\":\"e\",\"conclusion\":\"c\",\
                  \"created\":2,\"priority\":3,\"repeat\":1}";
    assert_eq!(Note::from_json("[\"s\",1,\"e\",\"c\",2,3]").unwrap().to_json(), wanted);
    assert_eq!(Note::from_json(" [ \"s\", 1, \"e\", \"c\", 2, 3, 1 ] ").unwrap().to_json(), wanted);
    assert_eq!(
        Note::from_json("[\"s\",1,\"e\",\"c\",2,3,200]").unwrap().to_json(),
        wanted.replace("\"repeat\":1", "\"repeat\":200")
    );
    for text in [
        "[]",
        "[1,2]",
        "[\"s\",1,\"e\",\"c\",2]",
        "[\"s\",1,\"e\",\"c\",2,3,1,0]",
        "[\"s\",1,\"e\",\"c\",2,256]",
        "[\"s\",1,\"e\",\"c\",2,3,256]",
        "[\"s\",1,\"e\",\"c\",2,3,\"1\"]",
        "[\"s\",\"1\",\"e\",\"c\",2,3]",
        "[1,\"s\",\"e\",\"c\",2,3]",
        "[\"s\",1,\"e\",\"c\",2.5,3]",
    ] {
        assert_eq!(Note::from_json(text).err(), Some(ParseError::Schema), "{}", text);
    }
    assert_eq!(
        Todo::from_json("[\"t\",\"g\",1,\"c\",2,3,true]").unwrap().to_json(),
        "{\"title\":\"t\",\"tag\":\"g\",\"created\":1,\"cause\":\"c\",\"due\":2,\
         \"priority\":3,\"done\":true}"
    );
    for text in [
        "[]",
        "[\"t\",\"g\",1,\"c\",2,3]",
        "[\"t\",\"g\",1,\"c\",2,3,true,1]",
        "[\"t\",\"g\",1,\"c\",2,3,1]",
        "[\"t\",\"g\",1,\"c\",2,300,true]",
    ] {
        assert_eq!(Todo::from_json(text).err(), Some(ParseError::Schema), "{}", text);
    }
    assert_eq!(
        Record::from_json(Kind::Todo, "[\"t\",\"g\",1,\"c\",2,3,false]").unwrap().kind(),
        Kind::Todo
    );
}

#[test]
fn lists_are_read_place_by_place() {
    let values = decode_list(" [\"x\", -3, true, 1.5, null, [1], {\"a\":1}, 9223372036854775808] ")
        .unwrap();
    assert_eq!(values.len(), 8);
    assert_eq!(nth_text(&values, 0), Some("x".to_string()));
    assert_eq!(nth_int(&values, 1), Some(-3));
    assert_eq!(nth_flag(&values, 2), Some(true));
    for i in 3..8 {
        assert!(matches!(values[i], Field::Other));
        assert_eq!(nth_int(&values, i), None);
        assert_eq!(nth_text(&values, i), None);
        assert_eq!(nth_flag(&values, i), None);
    }
    assert_eq!(nth_int(&values, 0), None);
    assert_eq!(nth_text(&values, 1), None);
    assert_eq!(nth_flag(&values, 8), None);
    assert_eq!(nth_int(&values, 100), None);
    assert!(decode_list("[]").unwrap().is_empty());
    assert!(decode_list("{}").is_none());
    assert!(decode_list("[1").is_none());
}

fn escaped_as_stated(s: &str) -> String {
    let mut text = String::from("\"");
    for c in s.chars() {
        match c {
            '"' => text.push_str("\\\""),
            '\\' => text.push_str("\\\\"),
            '\u{8}' => text.push_str("\\b"),
            '\t' => text.push_str("\\t"),
            '\n' => text.push_str("\\n"),
            '\u{c}' => text.push_str("\\f"),
            '\r' => text.push_str("\\r"),
            c if (c as u32) < 0x20 => {
                let digits = "0123456789abcdef";
                let code = c as usize;
                text.push_str("\\u00");
                text.push_str(&digits[code / 16..code / 16 + 1]);
                text.push_str(&digits[code % 16..code % 16 + 1]);
            }
            c => text.push(c),
        }
    }
    text.push('"');
    text
}

#[test]
fn every_character_is_escaped_as_stated() {
    assert_eq!(escaped_as_stated("a\"b\\c\nd\u{1}\u{1f}\u{7f}é"), "\"a\\\"b\\\\c\\nd\\u0001\\u001f\u{7f}é\"");
    for code in 0u32..0x3000 {
        if let Some(c) = char::from_u32(code) {
            let s = format!("x{}y{}", c, c);
            assert_eq!(encode_value(&Field::Text(s.clone())), escaped_as_stated(&s), "{:?}", c);
        }
    }
    for s in ["", "\u{0}", "\u{10ffff}", "\u{d7ff}\u{e000}", "😀\"😀", "\\\\\"\"", "/"] {
        assert_eq!(encode_value(&Field::Text(s.to_string())), escaped_as_stated(s), "{:?}", s);
    }
}

#[test]
fn members_are_read_in_the_order_of_their_names() {
    let members = decode_object("{\"b\":true,\"a\":\"x\",\"c\":-3,\"d\":1.5,\"e\":null}").unwrap();
    let names: Vec<&str> = members.iter().map(|m| m.name.as_str()).collect();
    assert_eq!(names, vec!["a", "b", "c", "d", "e"]);
    assert_eq!(get_text(&members, "a"), Some("x".to_string()));
    assert_eq!(get_flag(&members, "b"), Some(true));
    assert_eq!(get_int(&members, "c"), Some(-3));
    assert_eq!(get_int(&members, "d"), None);
    assert_eq!(get_text(&members, "e"), None);
    assert_eq!(get_int(&members, "a"), None);
    assert_eq!(get_int(&members, "z"), None);
    assert!(matches!(members[3].value, Field::Other));
    assert!(matches!(members[4].value, Field::Other));
    assert!(decode_object("[]").is_none());
    let members = decode_object("{\"a\":1,\"b\":2,\"a\":3}").unwrap();
    assert_eq!(members.len(), 2);
    assert_eq!(get_int(&members, "a"), Some(3));
}

#[test]
fn objects_are_written_member_by_member() {
    let members = vec![
        Member { name: "a".to_string(), value: Field::Text("x\"y".to_string()) },
        Member { name: "b".to_string(), value: Field::Int(-12) },
        Member { name: "c".to_string(), value: Field::Flag(false) },
        Member { name: "d".to_string(), value: Field::Flag(true) },
        Member { name: "e".to_string(), value: Field::Other },
    ];
    assert_eq!(
        encode_object(&members),
        "{\"a\":\"x\\\"y\",\"b\":-12,\"c\":false,\"d\":true,\"e\":null}"
    );
    assert_eq!(encode_object(&Vec::new()), "{}");
}

#[test]
fn integers_are_written_in_decimal() {
    assert_eq!(decimal_text(0), "0");
    assert_eq!(decimal_text(7), "7");
    assert_eq!(decimal_text(10), "10");
    assert_eq!(decimal_text(-1), "-1");
    assert_eq!(decimal_text(1_600_000_000), "1600000000");
    assert_eq!(decimal_text(i64::MAX), "9223372036854775807");
    assert_eq!(decimal_text(i64::MIN), "-9223372036854775808");
    assert_eq!(decimal_text(-9_007_199_254_740_993), "-9007199254740993");
}

#[test]
fn texts_are_framed() {
    let none: Vec<String> = Vec::new();
    let one = vec!["1".to_string()];
    let three = vec!["1".to_string(), "\"b\"".to_string(), "[]".to_string()];
    assert_eq!(join(&none), "");
    assert_eq!(join(&one), "1");
    assert_eq!(join(&three), "1,\"b\",[]");
    assert_eq!(frame_list(&none), "[]");
    assert_eq!(frame_list(&three), "[1,\"b\",[]]");
    assert_eq!(frame_object(&none), "{}");
    assert_eq!(frame_object(&vec!["\"a\":1".to_string(), "\"b\":2".to_string()]), "{\"a\":1,\"b\":2}");
    assert_eq!(frame_member("\"a\"", "1"), "\"a\":1");
}

#[test]
fn documents_are_written_and_read() {
    let entries = vec![
        ("k\"1".to_string(), vec!["{\"a\":1}".to_string(), "plain".to_string()]),
        ("k2".to_string(), Vec::new()),
    ];
    let text = encode_document(&entries);
    assert_eq!(text, "{\"k\\\"1\":[\"{\\\"a\\\":1}\",\"plain\"],\"k2\":[]}");
    let mut map = std::collections::BTreeMap::new();
    for (name, list) in entries.iter() {
        map.insert(name.clone(), list.clone());
    }
    assert_eq!(text, serde_json::to_string(&map).unwrap());
    assert_eq!(decode_document(&text), Some(entries));
    assert_eq!(
        decode_document(" {\"b\":[\"x\"], \"a\":[]} "),
        Some(vec![("a".to_string(), Vec::new()), ("b".to_string(), vec!["x".to_string()])])
    );
    assert_eq!(decode_document("{\"a\":[1]}"), None);
    assert_eq!(decode_document("{\"a\":\"x\"}"), None);
    assert_eq!(decode_document("[]"), None);
    assert_eq!(decode_document(""), None);
    assert_eq!(encode_document(&Vec::new()), "{}");
}

#[test]
fn kinds_have_their_names() {
    assert_eq!(Kind::Note.discriminator(), "va::data_store::Note");
    assert_eq!(Kind::Todo.discriminator(), "va::data_store::Todo");
    assert_eq!(Kind::from_discriminator("va::data_store::Note"), Some(Kind::Note));
    assert_eq!(Kind::from_discriminator("va::data_store::Todo"), Some(Kind::Todo));
    assert_eq!(Kind::from_discriminator("va::data_store::Other"), None);
    assert_eq!(Kind::from_discriminator(""), None);
    assert_eq!(<Note as Storable>::kind(), Kind::Note);
    assert_eq!(<Todo as Storable>::kind(), Kind::Todo);
    assert_eq!(Storable::to_json(&sample_note()), sample_note().to_json());
    assert_eq!(sample_todo().into_record().to_json(), sample_todo().to_json());
}
