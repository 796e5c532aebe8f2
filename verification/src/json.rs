//! The JSON texts that records and the store's document are written as.
//!
//! Objects and lists are framed here; strings are escaped, and texts are
//! parsed, by `serde_json`.

use vstd::prelude::*;
use vstd::string::*;

verus! {

/// The text of one decimal digit.
pub open spec fn digit(d: nat) -> Seq<char> {
    if d == 0 {
        "0"@
    } else if d == 1 {
        "1"@
    } else if d == 2 {
        "2"@
    } else if d == 3 {
        "3"@
    } else if d == 4 {
        "4"@
    } else if d == 5 {
        "5"@
    } else if d == 6 {
        "6"@
    } else if d == 7 {
        "7"@
    } else if d == 8 {
        "8"@
    } else {
        "9"@
    }
}

/// A natural number in decimal, without leading zeros.
pub open spec fn digits(n: nat) -> Seq<char>
    decreases n,
{
    if n < 10 {
        digit(n)
    } else {
        digits(n / 10) + digit(n % 10)
    }
}

/// An integer in decimal: a minus sign for a negative one, then its digits.
pub open spec fn decimal(i: int) -> Seq<char> {
    if i < 0 {
        "-"@ + digits((-i) as nat)
    } else {
        digits(i as nat)
    }
}

fn digit_text(d: u64) -> (text: &'static str)
    requires
        d < 10,
    ensures
        text@ == digit(d as nat),
{
    if d == 0 {
        "0"
    } else if d == 1 {
        "1"
    } else if d == 2 {
        "2"
    } else if d == 3 {
        "3"
    } else if d == 4 {
        "4"
    } else if d == 5 {
        "5"
    } else if d == 6 {
        "6"
    } else if d == 7 {
        "7"
    } else if d == 8 {
        "8"
    } else {
        "9"
    }
}

fn digits_text(n: u64) -> (text: String)
    ensures
        text@ == digits(n as nat),
    decreases n,
{
    if n < 10 {
        String::from_str(digit_text(n))
    } else {
        let mut text = digits_text(n / 10);
        text.append(digit_text(n % 10));
        text
    }
}

/// Writes an integer in decimal.
pub fn decimal_text(i: i64) -> (text: String)
    ensures
        text@ == decimal(i as int),
{
    if i < 0 {
        let magnitude: u64 = (-(i + 1)) as u64 + 1;
        let mut text = String::from_str("-");
        let tail = digits_text(magnitude);
        text.append(tail.as_str());
        text
    } else {
        digits_text(i as u64)
    }
}

/// One of the sixteen hexadecimal digits, in lower case.
pub open spec fn hex_digit(n: int) -> Seq<char> {
    "0123456789abcdef"@.subrange(n, n + 1)
}

/// A character as it stands inside a JSON string: the double quote and the
/// backslash behind a backslash; backspace, tab, line feed, form feed and
/// carriage return as `\b`, `\t`, `\n`, `\f`, `\r`; any other character
/// below the space as `\u00` and its two hexadecimal digits; every other
/// character as itself.
pub open spec fn escaped_char(c: char) -> Seq<char> {
    if c == '"' {
        "\\\""@
    } else if c == '\\' {
        "\\\\"@
    } else if c == '\u{8}' {
        "\\b"@
    } else if c == '\t' {
        "\\t"@
    } else if c == '\n' {
        "\\n"@
    } else if c == '\u{c}' {
        "\\f"@
    } else if c == '\r' {
        "\\r"@
    } else if (c as u32) < 0x20 {
        "\\u00"@ + hex_digit((c as u32) as int / 16) + hex_digit((c as u32) as int % 16)
    } else {
        seq![c]
    }
}

/// The characters of a string as they stand inside a JSON string.
pub open spec fn escaped(s: Seq<char>) -> Seq<char>
    decreases s.len(),
{
    if s.len() == 0 {
        Seq::empty()
    } else {
        escaped(s.drop_last()) + escaped_char(s.last())
    }
}

/// The JSON string literal of a string: its characters, escaped, between
/// double quotes.
pub open spec fn json_quoted(s: Seq<char>) -> Seq<char> {
    "\""@ + escaped(s) + "\""@
}

/// Escapes and quotes a string, by `serde_json::to_string`.
///
/// The contract states the text that `serde_json` writes for a string: it
/// escapes by a table of the bytes below the space, the double quote and the
/// backslash, and hands every other byte on. The call cannot fail for a
/// string; an empty text would stand for a failure.
#[verifier::external_body]
fn quote(s: &str) -> (text: String)
    ensures
        text@ == json_quoted(s@),
{
    match serde_json::to_string(s) {
        Ok(text) => text,
        Err(_) => String::new(),
    }
}

/// The error of `serde_json`. It is passed on unread: the library tells its
/// callers only that a text was not read.
#[verifier::external_type_specification]
#[verifier::external_body]
pub struct ExJsonError(serde_json::Error);

/// A value held by a member of a JSON object, as far as records use one.
#[derive(Debug)]
pub enum Field {
    /// A string.
    Text(String),
    /// An integer that fits 64 signed bits.
    Int(i64),
    /// `true` or `false`.
    Flag(bool),
    /// Any other value: `null`, a fraction, a larger integer, a list, an object.
    Other,
}

/// What a `Field` holds.
pub enum FieldValue {
    Text(Seq<char>),
    Int(i64),
    Flag(bool),
    Other,
}

impl View for Field {
    type V = FieldValue;

    open spec fn view(&self) -> FieldValue {
        match self {
            Field::Text(s) => FieldValue::Text(s@),
            Field::Int(i) => FieldValue::Int(*i),
            Field::Flag(b) => FieldValue::Flag(*b),
            Field::Other => FieldValue::Other,
        }
    }
}

impl DeepView for Field {
    type V = FieldValue;

    open spec fn deep_view(&self) -> FieldValue {
        self@
    }
}

/// A member of a JSON object: a name and the value under it.
#[derive(Debug)]
pub struct Member {
    pub name: String,
    pub value: Field,
}

/// What a `Member` holds.
pub struct MemberView {
    pub name: Seq<char>,
    pub value: FieldValue,
}

impl View for Member {
    type V = MemberView;

    open spec fn view(&self) -> MemberView {
        MemberView { name: self.name@, value: self.value@ }
    }
}

impl DeepView for Member {
    type V = MemberView;

    open spec fn deep_view(&self) -> MemberView {
        self@
    }
}

/// Whether no two members have the same name.
pub open spec fn names_once(members: Seq<MemberView>) -> bool {
    forall|i: int, j: int|
        0 <= i < j < members.len() ==> (#[trigger] members[i]).name != (#[trigger] members[j]).name
}

/// The members that `serde_json` reads from a text; `None` where the text
/// is no JSON object. Under a name that the text holds more than once stands
/// the value that came last.
pub uninterp spec fn parsed_object(text: Seq<char>) -> Option<Seq<MemberView>>;

/// Reads a JSON object, by `serde_json::from_str` into a `serde_json::Map`.
///
/// The contract claims that the outcome is a function of the text, and that
/// no name comes twice: the members are handed out of a map. Each member's
/// value is handed on as the `Field` of its variant: a number as `Int` where
/// `Number::as_i64` gives one, as `Other` where it gives none.
#[verifier::external_body]
fn parse_object(text: &str) -> (parsed: Result<Vec<Member>, serde_json::Error>)
    ensures
        match parsed {
            Ok(members) => parsed_object(text@) == Some(members.deep_view()) && names_once(
                members.deep_view(),
            ),
            Err(_) => parsed_object(text@) is None,
        },
{
    let object = serde_json::from_str::<serde_json::Map<String, serde_json::Value>>(text)?;
    Ok(object.into_iter().map(|(name, value)| Member {
        name,
        value: match value {
            serde_json::Value::String(s) => Field::Text(s),
            serde_json::Value::Bool(b) => Field::Flag(b),
            serde_json::Value::Number(n) => n.as_i64().map_or(Field::Other, Field::Int),
            _ => Field::Other,
        },
    }).collect())
}

/// The values that `serde_json` reads from a text, in their order; `None`
/// where the text is no JSON list.
pub uninterp spec fn parsed_list(text: Seq<char>) -> Option<Seq<FieldValue>>;

/// Reads a JSON list, by `serde_json::from_str` into a `Vec` of
/// `serde_json::Value`.
///
/// The contract claims only that the outcome is a function of the text. Each
/// value is handed on as the `Field` of its variant, as in `parse_object`.
#[verifier::external_body]
fn parse_list(text: &str) -> (parsed: Result<Vec<Field>, serde_json::Error>)
    ensures
        match parsed {
            Ok(values) => parsed_list(text@) == Some(values.deep_view()),
            Err(_) => parsed_list(text@) is None,
        },
{
    let list = serde_json::from_str::<Vec<serde_json::Value>>(text)?;
    Ok(list.into_iter().map(|value| match value {
        serde_json::Value::String(s) => Field::Text(s),
        serde_json::Value::Bool(b) => Field::Flag(b),
        serde_json::Value::Number(n) => n.as_i64().map_or(Field::Other, Field::Int),
        _ => Field::Other,
    }).collect())
}

/// The entries that `serde_json` reads from the text of a document: under
/// each name a list of strings; `None` where the text is no JSON object of
/// lists of strings. `serde_json` fills a `BTreeMap` with them, so they come
/// in the order of their names, each name once.
pub uninterp spec fn parsed_document(text: Seq<char>) -> Option<Seq<(Seq<char>, Seq<Seq<char>>)>>;

/// Reads a document, by `serde_json::from_str` into a map of string lists.
///
/// The contract claims only that the outcome is a function of the text.
#[verifier::external_body]
fn parse_document(text: &str) -> (parsed: Result<Vec<(String, Vec<String>)>, serde_json::Error>)
    ensures
        match parsed {
            Ok(entries) => parsed_document(text@) == Some(entries.deep_view()),
            Err(_) => parsed_document(text@) is None,
        },
{
    let entries = serde_json::from_str::<std::collections::BTreeMap<String, Vec<String>>>(text)?;
    Ok(entries.into_iter().collect())
}

/// The texts one after another, with a comma between neighbours.
pub open spec fn listed(items: Seq<Seq<char>>) -> Seq<char>
    decreases items.len(),
{
    if items.len() == 0 {
        Seq::empty()
    } else if items.len() == 1 {
        items[0]
    } else {
        listed(items.drop_last()) + ","@ + items.last()
    }
}

/// A JSON list of texts that are JSON values already.
pub open spec fn list_text(items: Seq<Seq<char>>) -> Seq<char> {
    "["@ + listed(items) + "]"@
}

/// A JSON object of members that are written out already.
pub open spec fn object_frame(members: Seq<Seq<char>>) -> Seq<char> {
    "{"@ + listed(members) + "}"@
}

/// A member of a JSON object: the quoted name, a colon, the value.
pub open spec fn member_frame(name: Seq<char>, value: Seq<char>) -> Seq<char> {
    name + ":"@ + value
}

/// Joins texts with commas.
pub fn join(items: &Vec<String>) -> (text: String)
    ensures
        text@ == listed(items.deep_view()),
{
    let ghost all = items.deep_view();
    let mut text = String::new();
    let mut i: usize = 0;
    while i < items.len()
        invariant
            i <= items.len(),
            all == items.deep_view(),
            text@ == listed(all.take(i as int)),
        decreases items.len() - i,
    {
        proof {
            assert(all.take(i + 1).drop_last() == all.take(i as int));
            assert(all.take(i + 1).last() == items@[i as int]@);
        }
        if i > 0 {
            text.append(",");
        }
        text.append(items[i].as_str());
        i += 1;
    }
    proof {
        assert(all.take(items.len() as int) == all);
    }
    text
}

/// Writes a JSON list of the given values.
pub fn frame_list(items: &Vec<String>) -> (text: String)
    ensures
        text@ == list_text(items.deep_view()),
{
    let mut text = String::from_str("[");
    let inner = join(items);
    text.append(inner.as_str());
    text.append("]");
    text
}

/// Writes a JSON object of the given members.
pub fn frame_object(members: &Vec<String>) -> (text: String)
    ensures
        text@ == object_frame(members.deep_view()),
{
    let mut text = String::from_str("{");
    let inner = join(members);
    text.append(inner.as_str());
    text.append("}");
    text
}

/// Writes one member of a JSON object.
pub fn frame_member(name: &str, value: &str) -> (text: String)
    ensures
        text@ == member_frame(name@, value@),
{
    let mut text = String::from_str(name);
    text.append(":");
    text.append(value);
    text
}

/// The JSON text of a value. What the library kept nothing of is `null`.
pub open spec fn value_text(value: FieldValue) -> Seq<char> {
    match value {
        FieldValue::Text(s) => json_quoted(s),
        FieldValue::Int(i) => decimal(i as int),
        FieldValue::Flag(b) => if b {
            "true"@
        } else {
            "false"@
        },
        FieldValue::Other => "null"@,
    }
}

/// The JSON text of a member: its quoted name, a colon, its value.
pub open spec fn member_text(member: MemberView) -> Seq<char> {
    member_frame(json_quoted(member.name), value_text(member.value))
}

/// The JSON text of an object: its members in their order, in braces, with
/// nothing between the tokens.
pub open spec fn object_text(members: Seq<MemberView>) -> Seq<char> {
    object_frame(members.map_values(|m: MemberView| member_text(m)))
}

/// Writes a value as JSON.
pub fn encode_value(value: &Field) -> (text: String)
    ensures
        text@ == value_text(value@),
{
    match value {
        Field::Text(s) => quote(s.as_str()),
        Field::Int(i) => decimal_text(*i),
        Field::Flag(b) => if *b {
            String::from_str("true")
        } else {
            String::from_str("false")
        },
        Field::Other => String::from_str("null"),
    }
}

/// Writes a member of an object as JSON.
pub fn encode_member(member: &Member) -> (text: String)
    ensures
        text@ == member_text(member@),
{
    let name = quote(member.name.as_str());
    let value = encode_value(&member.value);
    frame_member(name.as_str(), value.as_str())
}

/// Writes an object as JSON.
pub fn encode_object(members: &Vec<Member>) -> (text: String)
    ensures
        text@ == object_text(members.deep_view()),
{
    let ghost wanted = members.deep_view().map_values(|m: MemberView| member_text(m));
    let mut texts: Vec<String> = Vec::new();
    let mut i: usize = 0;
    while i < members.len()
        invariant
            i <= members.len(),
            wanted == members.deep_view().map_values(|m: MemberView| member_text(m)),
            texts@.len() == i,
            texts.deep_view() == wanted.take(i as int),
        decreases members.len() - i,
    {
        let ghost before = texts.deep_view();
        let text = encode_member(&members[i]);
        proof {
            assert(members.deep_view()[i as int] == members@[i as int]@);
            assert(wanted.take(i + 1) == before.push(text@));
        }
        texts.push(text);
        proof {
            assert(texts.deep_view() =~= wanted.take(i + 1));
        }
        i += 1;
    }
    proof {
        assert(wanted.take(members.len() as int) == wanted);
    }
    frame_object(&texts)
}

/// The value of the first member of that name.
pub open spec fn member_value(members: Seq<MemberView>, name: Seq<char>) -> Option<FieldValue>
    decreases members.len(),
{
    if members.len() == 0 {
        None
    } else if members[0].name == name {
        Some(members[0].value)
    } else {
        member_value(members.drop_first(), name)
    }
}

/// A member that no member of the same name stands before is the one found
/// under its name.
pub proof fn lemma_member_value_at(members: Seq<MemberView>, name: Seq<char>, k: int)
    requires
        0 <= k < members.len(),
        members[k].name == name,
        forall|j: int| 0 <= j < k ==> members[j].name != name,
    ensures
        member_value(members, name) == Some(members[k].value),
    decreases k,
{
    if k > 0 {
        let rest = members.drop_first();
        assert(rest[k - 1] == members[k]);
        assert forall|j: int| 0 <= j < k - 1 implies rest[j].name != name by {
            assert(rest[j] == members[j + 1]);
        }
        lemma_member_value_at(rest, name, k - 1);
    }
}

/// Among members of which no two have the same name, a member is the one
/// found under its name.
pub proof fn lemma_member_value_of(members: Seq<MemberView>, member: MemberView)
    requires
        names_once(members),
        members.contains(member),
    ensures
        member_value(members, member.name) == Some(member.value),
{
    let k = choose|k: int| 0 <= k < members.len() && members[k] == member;
    assert forall|j: int| 0 <= j < k implies members[j].name != member.name by {
        assert(members[j].name != members[k].name);
    }
    lemma_member_value_at(members, member.name, k);
}

/// The string under that name, where the member is there and holds one.
pub open spec fn text_member(members: Seq<MemberView>, name: Seq<char>) -> Option<Seq<char>> {
    match member_value(members, name) {
        Some(FieldValue::Text(s)) => Some(s),
        _ => None,
    }
}

/// The integer under that name, where the member is there and holds one.
pub open spec fn int_member(members: Seq<MemberView>, name: Seq<char>) -> Option<i64> {
    match member_value(members, name) {
        Some(FieldValue::Int(i)) => Some(i),
        _ => None,
    }
}

/// The truth value under that name, where the member is there and holds one.
pub open spec fn flag_member(members: Seq<MemberView>, name: Seq<char>) -> Option<bool> {
    match member_value(members, name) {
        Some(FieldValue::Flag(b)) => Some(b),
        _ => None,
    }
}

/// Finds the first member of that name.
pub fn find_member<'a>(members: &'a Vec<Member>, name: &str) -> (found: Option<&'a Field>)
    ensures
        match found {
            Some(value) => member_value(members.deep_view(), name@) == Some(value@),
            None => member_value(members.deep_view(), name@) is None,
        },
{
    let ghost all = members.deep_view();
    let wanted = String::from_str(name);
    let mut i: usize = 0;
    proof {
        assert(all.skip(0) == all);
    }
    while i < members.len()
        invariant
            i <= members.len(),
            all == members.deep_view(),
            wanted@ == name@,
            member_value(all, name@) == member_value(all.skip(i as int), name@),
        decreases members.len() - i,
    {
        proof {
            assert(all.skip(i as int)[0] == members@[i as int]@);
            assert(all.skip(i as int).drop_first() == all.skip(i + 1));
        }
        if members[i].name == wanted {
            return Some(&members[i].value);
        }
        i += 1;
    }
    None
}

/// Reads the string under that name.
pub fn get_text(members: &Vec<Member>, name: &str) -> (found: Option<String>)
    ensures
        match found {
            Some(s) => text_member(members.deep_view(), name@) == Some(s@),
            None => text_member(members.deep_view(), name@) is None,
        },
{
    match find_member(members, name) {
        Some(Field::Text(s)) => Some(s.clone()),
        _ => None,
    }
}

/// Reads the integer under that name.
pub fn get_int(members: &Vec<Member>, name: &str) -> (found: Option<i64>)
    ensures
        found == int_member(members.deep_view(), name@),
{
    match find_member(members, name) {
        Some(Field::Int(i)) => Some(*i),
        _ => None,
    }
}

/// Reads the truth value under that name.
pub fn get_flag(members: &Vec<Member>, name: &str) -> (found: Option<bool>)
    ensures
        found == flag_member(members.deep_view(), name@),
{
    match find_member(members, name) {
        Some(Field::Flag(b)) => Some(*b),
        _ => None,
    }
}

/// The string at a place of a list, where the place is there and holds one.
pub open spec fn text_at(values: Seq<FieldValue>, i: int) -> Option<Seq<char>> {
    if 0 <= i < values.len() {
        match values[i] {
            FieldValue::Text(s) => Some(s),
            _ => None,
        }
    } else {
        None
    }
}

/// The integer at a place of a list, where the place is there and holds one.
pub open spec fn int_at(values: Seq<FieldValue>, i: int) -> Option<i64> {
    if 0 <= i < values.len() {
        match values[i] {
            FieldValue::Int(n) => Some(n),
            _ => None,
        }
    } else {
        None
    }
}

/// The truth value at a place of a list, where the place is there and holds one.
pub open spec fn flag_at(values: Seq<FieldValue>, i: int) -> Option<bool> {
    if 0 <= i < values.len() {
        match values[i] {
            FieldValue::Flag(b) => Some(b),
            _ => None,
        }
    } else {
        None
    }
}

/// Reads the string at a place of a list.
pub fn nth_text(values: &Vec<Field>, i: usize) -> (found: Option<String>)
    ensures
        match found {
            Some(s) => text_at(values.deep_view(), i as int) == Some(s@),
            None => text_at(values.deep_view(), i as int) is None,
        },
{
    if i < values.len() {
        proof {
            assert(values.deep_view()[i as int] == values@[i as int]@);
        }
        match &values[i] {
            Field::Text(s) => Some(s.clone()),
            _ => None,
        }
    } else {
        None
    }
}

/// Reads the integer at a place of a list.
pub fn nth_int(values: &Vec<Field>, i: usize) -> (found: Option<i64>)
    ensures
        found == int_at(values.deep_view(), i as int),
{
    if i < values.len() {
        proof {
            assert(values.deep_view()[i as int] == values@[i as int]@);
        }
        match &values[i] {
            Field::Int(n) => Some(*n),
            _ => None,
        }
    } else {
        None
    }
}

/// Reads the truth value at a place of a list.
pub fn nth_flag(values: &Vec<Field>, i: usize) -> (found: Option<bool>)
    ensures
        found == flag_at(values.deep_view(), i as int),
{
    if i < values.len() {
        proof {
            assert(values.deep_view()[i as int] == values@[i as int]@);
        }
        match &values[i] {
            Field::Flag(b) => Some(*b),
            _ => None,
        }
    } else {
        None
    }
}

/// Reads the members of a JSON object, each name once; `None` where the
/// text is none.
pub fn decode_object(text: &str) -> (members: Option<Vec<Member>>)
    ensures
        match members {
            Some(found) => parsed_object(text@) == Some(found.deep_view()) && names_once(
                found.deep_view(),
            ),
            None => parsed_object(text@) is None,
        },
{
    match parse_object(text) {
        Ok(found) => Some(found),
        Err(_) => None,
    }
}

/// Reads the values of a JSON list; `None` where the text is none.
pub fn decode_list(text: &str) -> (values: Option<Vec<Field>>)
    ensures
        match values {
            Some(found) => parsed_list(text@) == Some(found.deep_view()),
            None => parsed_list(text@) is None,
        },
{
    match parse_list(text) {
        Ok(found) => Some(found),
        Err(_) => None,
    }
}

/// The JSON text of a document: an object that holds, under each name, the
/// list of its strings.
pub open spec fn document_text(entries: Seq<(Seq<char>, Seq<Seq<char>>)>) -> Seq<char> {
    object_frame(entries.map_values(|e: (Seq<char>, Seq<Seq<char>>)| entry_text(e)))
}

/// The JSON text of one entry of a document.
pub open spec fn entry_text(entry: (Seq<char>, Seq<Seq<char>>)) -> Seq<char> {
    member_frame(
        json_quoted(entry.0),
        list_text(entry.1.map_values(|s: Seq<char>| json_quoted(s))),
    )
}

/// Writes each string as a JSON string.
pub fn quote_all(items: &Vec<String>) -> (texts: Vec<String>)
    ensures
        texts.deep_view() == items.deep_view().map_values(|s: Seq<char>| json_quoted(s)),
{
    let ghost wanted = items.deep_view().map_values(|s: Seq<char>| json_quoted(s));
    let mut texts: Vec<String> = Vec::new();
    let mut i: usize = 0;
    while i < items.len()
        invariant
            i <= items.len(),
            wanted == items.deep_view().map_values(|s: Seq<char>| json_quoted(s)),
            texts@.len() == i,
            texts.deep_view() == wanted.take(i as int),
        decreases items.len() - i,
    {
        let ghost before = texts.deep_view();
        let text = quote(items[i].as_str());
        proof {
            assert(items.deep_view()[i as int] == items@[i as int]@);
            assert(wanted.take(i + 1) == before.push(text@));
        }
        texts.push(text);
        proof {
            assert(texts.deep_view() =~= wanted.take(i + 1));
        }
        i += 1;
    }
    proof {
        assert(wanted.take(items.len() as int) == wanted);
    }
    texts
}

/// Writes one entry of a document.
pub fn encode_entry(name: &str, items: &Vec<String>) -> (text: String)
    ensures
        text@ == entry_text((name@, items.deep_view())),
{
    let quoted = quote(name);
    let texts = quote_all(items);
    let list = frame_list(&texts);
    frame_member(quoted.as_str(), list.as_str())
}

/// Writes a document.
pub fn encode_document(entries: &Vec<(String, Vec<String>)>) -> (text: String)
    ensures
        text@ == document_text(entries.deep_view()),
{
    let ghost wanted = entries.deep_view().map_values(
        |e: (Seq<char>, Seq<Seq<char>>)| entry_text(e),
    );
    let mut texts: Vec<String> = Vec::new();
    let mut i: usize = 0;
    while i < entries.len()
        invariant
            i <= entries.len(),
            wanted == entries.deep_view().map_values(
                |e: (Seq<char>, Seq<Seq<char>>)| entry_text(e),
            ),
            texts@.len() == i,
            texts.deep_view() == wanted.take(i as int),
        decreases entries.len() - i,
    {
        let ghost before = texts.deep_view();
        let text = encode_entry(entries[i].0.as_str(), &entries[i].1);
        proof {
            assert(entries.deep_view()[i as int] == (
                entries@[i as int].0@,
                entries@[i as int].1.deep_view(),
            ));
            assert(wanted.take(i + 1) == before.push(text@));
        }
        texts.push(text);
        proof {
            assert(texts.deep_view() =~= wanted.take(i + 1));
        }
        i += 1;
    }
    proof {
        assert(wanted.take(entries.len() as int) == wanted);
    }
    frame_object(&texts)
}

/// Reads the entries of a document; `None` where the text is none.
pub fn decode_document(text: &str) -> (entries: Option<Vec<(String, Vec<String>)>>)
    ensures
        match entries {
            Some(found) => parsed_document(text@) == Some(found.deep_view()),
            None => parsed_document(text@) is None,
        },
{
    match parse_document(text) {
        Ok(found) => Some(found),
        Err(_) => None,
    }
}

} // verus!
