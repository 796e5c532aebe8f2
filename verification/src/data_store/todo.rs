//! Todo items.

use vstd::prelude::*;
use vstd::string::*;
use crate::clock::{in_reach, now};
use crate::data_store::error::ParseError;
use crate::distinct_texts::lemma_object_told;
use crate::json::{
    decode_list, decode_object, encode_object, flag_at, flag_member, get_flag, get_int, get_text,
    int_at, int_member, lemma_member_value_at, lemma_member_value_of, names_once, nth_flag,
    nth_int, nth_text, object_text, parsed_list, parsed_object, text_at, text_member, Field,
    FieldValue, Member, MemberView,
};

verus! {

/// A todo item: what is to be done, why, and by when.
#[derive(Debug)]
pub struct Todo {
    title: String,
    tag: String,
    created: i64,
    cause: String,
    due: i64,
    priority: u8,
    done: bool,
}

/// What a `Todo` holds. Times are in seconds since 1970.
pub struct TodoView {
    pub title: Seq<char>,
    pub tag: Seq<char>,
    pub created: i64,
    pub cause: Seq<char>,
    pub due: i64,
    pub priority: u8,
    pub done: bool,
}

impl View for Todo {
    type V = TodoView;

    closed spec fn view(&self) -> TodoView {
        TodoView {
            title: self.title@,
            tag: self.tag@,
            created: self.created,
            cause: self.cause@,
            due: self.due,
            priority: self.priority,
            done: self.done,
        }
    }
}

impl TodoView {
    /// An open todo item with nothing written in it, made and due at the
    /// given times.
    pub open spec fn blank(created: i64, due: i64) -> TodoView {
        TodoView {
            title: Seq::empty(),
            tag: Seq::empty(),
            created,
            cause: Seq::empty(),
            due,
            priority: 0,
            done: false,
        }
    }

    /// An open todo item with nothing written in it, made at one time and
    /// due an hour after another.
    pub open spec fn hour_ahead(created: i64, now: i64) -> TodoView {
        TodoView::blank(created, (now + 3600) as i64)
    }

    /// The item after `title`: an empty title changes nothing.
    pub open spec fn with_title(self, title: Seq<char>) -> TodoView {
        if title.len() > 0 {
            TodoView { title, ..self }
        } else {
            self
        }
    }

    /// The item after `tag`: an empty tag changes nothing.
    pub open spec fn with_tag(self, tag: Seq<char>) -> TodoView {
        if tag.len() > 0 {
            TodoView { tag, ..self }
        } else {
            self
        }
    }

    /// The item after `cause`: an empty cause changes nothing.
    pub open spec fn with_cause(self, cause: Seq<char>) -> TodoView {
        if cause.len() > 0 {
            TodoView { cause, ..self }
        } else {
            self
        }
    }

    /// The item after `due`: a time that is not after the item's making
    /// changes nothing.
    pub open spec fn with_due(self, due: i64) -> TodoView {
        if due > self.created {
            TodoView { due, ..self }
        } else {
            self
        }
    }

    /// The item after `priority`.
    pub open spec fn with_priority(self, priority: u8) -> TodoView {
        TodoView { priority, ..self }
    }

    /// The item after `done`.
    pub open spec fn with_done(self, done: bool) -> TodoView {
        TodoView { done, ..self }
    }

    /// The members of the item's JSON object, in the order they are written.
    pub open spec fn members(self) -> Seq<MemberView> {
        seq![
            MemberView { name: "title"@, value: FieldValue::Text(self.title) },
            MemberView { name: "tag"@, value: FieldValue::Text(self.tag) },
            MemberView { name: "created"@, value: FieldValue::Int(self.created) },
            MemberView { name: "cause"@, value: FieldValue::Text(self.cause) },
            MemberView { name: "due"@, value: FieldValue::Int(self.due) },
            MemberView { name: "priority"@, value: FieldValue::Int(self.priority as i64) },
            MemberView { name: "done"@, value: FieldValue::Flag(self.done) },
        ]
    }

    /// The item's canonical text, which is also its identity in a store.
    pub open spec fn json(self) -> Seq<char> {
        object_text(self.members())
    }

    /// The item that the members of an object make up: each field is there
    /// under its name with a value of its type, in any order and among any
    /// other members.
    pub open spec fn of_members(members: Seq<MemberView>) -> Option<TodoView> {
        match (
            text_member(members, "title"@),
            text_member(members, "tag"@),
            int_member(members, "created"@),
            text_member(members, "cause"@),
            int_member(members, "due"@),
            int_member(members, "priority"@),
            flag_member(members, "done"@),
        ) {
            (
                Some(title),
                Some(tag),
                Some(created),
                Some(cause),
                Some(due),
                Some(priority),
                Some(done),
            ) => if 0 <= priority <= 255 {
                Some(
                    TodoView { title, tag, created, cause, due, priority: priority as u8, done },
                )
            } else {
                None
            },
            _ => None,
        }
    }

    /// The values of the item's fields, in the order they are written.
    pub open spec fn values(self) -> Seq<FieldValue> {
        self.members().map_values(|m: MemberView| m.value)
    }

    /// The item that a list makes up: the values of the fields in their
    /// order and nothing more.
    pub open spec fn of_list(values: Seq<FieldValue>) -> Option<TodoView> {
        match (
            text_at(values, 0),
            text_at(values, 1),
            int_at(values, 2),
            text_at(values, 3),
            int_at(values, 4),
            int_at(values, 5),
            flag_at(values, 6),
        ) {
            (
                Some(title),
                Some(tag),
                Some(created),
                Some(cause),
                Some(due),
                Some(priority),
                Some(done),
            ) => if 0 <= priority <= 255 && values.len() == 7 {
                Some(
                    TodoView { title, tag, created, cause, due, priority: priority as u8, done },
                )
            } else {
                None
            },
            _ => None,
        }
    }

    /// What reading a text as a todo item gives: the item of the members
    /// where the text is a JSON object, the item of the values where it is a
    /// JSON list.
    pub open spec fn parsed(text: Seq<char>) -> Result<TodoView, ParseError> {
        match parsed_object(text) {
            Some(members) => match TodoView::of_members(members) {
                Some(todo) => Ok(todo),
                None => Err(ParseError::Schema),
            },
            None => match parsed_list(text) {
                Some(values) => match TodoView::of_list(values) {
                    Some(todo) => Ok(todo),
                    None => Err(ParseError::Schema),
                },
                None => Err(ParseError::Syntax),
            },
        }
    }

    /// Two todo items of the same canonical text are the same, field for field.
    pub proof fn lemma_text_identifies(self, other: TodoView)
        requires
            self.json() == other.json(),
        ensures
            self == other,
    {
        let ms = self.members();
        let ns = other.members();
        lemma_object_told(ms, ns);
        assert(ms[0] == ns[0] && ms[1] == ns[1] && ms[2] == ns[2] && ms[3] == ns[3] && ms[4]
            == ns[4] && ms[5] == ns[5] && ms[6] == ns[6]);
    }

    /// Reading gives the item back, field for field, from the list of its
    /// values.
    pub proof fn lemma_list_round_trip(self)
        ensures
            TodoView::of_list(self.values()) == Some(self),
    {
        let all = self.values();
        assert(all.len() == 7);
        assert(all[6] == FieldValue::Flag(self.done));
    }

    /// Reading gives the item back, field for field, from every object that
    /// holds its members and no name twice, in whatever order and among
    /// whatever other members.
    pub proof fn lemma_read_back(self, members: Seq<MemberView>)
        requires
            names_once(members),
            forall|i: int|
                0 <= i < self.members().len() ==> members.contains(#[trigger] self.members()[i]),
        ensures
            TodoView::of_members(members) == Some(self),
    {
        let own = self.members();
        lemma_member_value_of(members, own[0]);
        lemma_member_value_of(members, own[1]);
        lemma_member_value_of(members, own[2]);
        lemma_member_value_of(members, own[3]);
        lemma_member_value_of(members, own[4]);
        lemma_member_value_of(members, own[5]);
        lemma_member_value_of(members, own[6]);
    }

    /// Reading an item's own members gives the item back, field for field.
    pub proof fn lemma_members_round_trip(self)
        ensures
            TodoView::of_members(self.members()) == Some(self),
    {
        reveal_strlit("title");
        reveal_strlit("tag");
        reveal_strlit("created");
        reveal_strlit("cause");
        reveal_strlit("due");
        reveal_strlit("priority");
        reveal_strlit("done");
        let m = self.members();
        assert("title"@.len() == 5 && "title"@[0] == 't');
        assert("tag"@.len() == 3 && "tag"@[0] == 't');
        assert("created"@.len() == 7);
        assert("cause"@.len() == 5 && "cause"@[0] == 'c');
        assert("due"@.len() == 3 && "due"@[0] == 'd');
        assert("priority"@.len() == 8);
        assert("done"@.len() == 4);
        lemma_member_value_at(m, "title"@, 0);
        lemma_member_value_at(m, "tag"@, 1);
        lemma_member_value_at(m, "created"@, 2);
        lemma_member_value_at(m, "cause"@, 3);
        lemma_member_value_at(m, "due"@, 4);
        lemma_member_value_at(m, "priority"@, 5);
        lemma_member_value_at(m, "done"@, 6);
    }
}

impl Todo {
    /// An open todo item with nothing written in it, made now and due in an
    /// hour: made at one reading of the clock, due an hour after another.
    pub fn new() -> (todo: Todo)
        ensures
            todo@ == TodoView::blank(todo@.created, todo@.due),
            exists|created: i64, now: i64|
                in_reach(created) && in_reach(now) && todo@ == #[trigger] TodoView::hour_ahead(
                    created,
                    now,
                ),
    {
        let created = now();
        let now = now();
        Todo::due_in_an_hour(created, now)
    }

    /// An open todo item with nothing written in it, made at one time and
    /// due an hour after another.
    pub fn due_in_an_hour(created: i64, now: i64) -> (todo: Todo)
        requires
            now + 3600 <= i64::MAX,
        ensures
            todo@ == TodoView::hour_ahead(created, now),
    {
        Todo::stamped(created, now + 3600)
    }

    /// An open todo item with nothing written in it, made and due at the
    /// given times.
    pub fn stamped(created: i64, due: i64) -> (todo: Todo)
        ensures
            todo@ == TodoView::blank(created, due),
    {
        Todo {
            title: String::new(),
            tag: String::new(),
            created,
            cause: String::new(),
            due,
            priority: 0,
            done: false,
        }
    }

    /// Sets what is to be done, unless the text is empty.
    pub fn title(&mut self, title: String) -> (out: &mut Self)
        ensures
            (*out)@ == old(self)@.with_title(title@),
            *final(self) == *final(out),
    {
        if !title.as_str().is_empty() {
            self.title = title;
        }
        self
    }

    /// Sets the tag, unless the text is empty.
    pub fn tag(&mut self, tag: String) -> (out: &mut Self)
        ensures
            (*out)@ == old(self)@.with_tag(tag@),
            *final(self) == *final(out),
    {
        if !tag.as_str().is_empty() {
            self.tag = tag;
        }
        self
    }

    /// Sets why it is to be done, unless the text is empty.
    pub fn cause(&mut self, cause: String) -> (out: &mut Self)
        ensures
            (*out)@ == old(self)@.with_cause(cause@),
            *final(self) == *final(out),
    {
        if !cause.as_str().is_empty() {
            self.cause = cause;
        }
        self
    }

    /// Sets by when it is to be done, unless that is not after the item was made.
    pub fn due(&mut self, due: i64) -> (out: &mut Self)
        ensures
            (*out)@ == old(self)@.with_due(due),
            *final(self) == *final(out),
    {
        if due > self.created {
            self.due = due;
        }
        self
    }

    /// Sets the priority.
    pub fn priority(&mut self, priority: u8) -> (out: &mut Self)
        ensures
            (*out)@ == old(self)@.with_priority(priority),
            *final(self) == *final(out),
    {
        self.priority = priority;
        self
    }

    /// Sets whether it is done.
    pub fn done(&mut self, done: bool) -> (out: &mut Self)
        ensures
            (*out)@ == old(self)@.with_done(done),
            *final(self) == *final(out),
    {
        self.done = done;
        self
    }

    /// The members of the item's JSON object.
    pub fn members(&self) -> (members: Vec<Member>)
        ensures
            members.deep_view() == self@.members(),
    {
        let mut members: Vec<Member> = Vec::new();
        members.push(
            Member { name: String::from_str("title"), value: Field::Text(self.title.clone()) },
        );
        members.push(
            Member { name: String::from_str("tag"), value: Field::Text(self.tag.clone()) },
        );
        members.push(Member { name: String::from_str("created"), value: Field::Int(self.created) });
        members.push(
            Member { name: String::from_str("cause"), value: Field::Text(self.cause.clone()) },
        );
        members.push(Member { name: String::from_str("due"), value: Field::Int(self.due) });
        members.push(
            Member { name: String::from_str("priority"), value: Field::Int(self.priority as i64) },
        );
        members.push(Member { name: String::from_str("done"), value: Field::Flag(self.done) });
        proof {
            assert(members.deep_view() =~= self@.members());
        }
        members
    }

    /// The item's canonical text.
    pub fn to_json(&self) -> (text: String)
        ensures
            text@ == self@.json(),
    {
        let members = self.members();
        encode_object(&members)
    }

    /// Makes a todo item of the members of an object.
    pub fn from_members(members: &Vec<Member>) -> (todo: Option<Todo>)
        ensures
            match todo {
                Some(t) => TodoView::of_members(members.deep_view()) == Some(t@),
                None => TodoView::of_members(members.deep_view()) is None,
            },
    {
        let title = get_text(members, "title");
        let tag = get_text(members, "tag");
        let created = get_int(members, "created");
        let cause = get_text(members, "cause");
        let due = get_int(members, "due");
        let priority = get_int(members, "priority");
        let done = get_flag(members, "done");
        Todo::assemble(title, tag, created, cause, due, priority, done)
    }

    /// Makes a todo item of a list of the values of its fields.
    pub fn from_list(values: &Vec<Field>) -> (todo: Option<Todo>)
        ensures
            match todo {
                Some(t) => TodoView::of_list(values.deep_view()) == Some(t@),
                None => TodoView::of_list(values.deep_view()) is None,
            },
    {
        if values.len() != 7 {
            return None;
        }
        let title = nth_text(values, 0);
        let tag = nth_text(values, 1);
        let created = nth_int(values, 2);
        let cause = nth_text(values, 3);
        let due = nth_int(values, 4);
        let priority = nth_int(values, 5);
        let done = nth_flag(values, 6);
        Todo::assemble(title, tag, created, cause, due, priority, done)
    }

    /// Puts a todo item together of its fields as far as they were found.
    fn assemble(
        title: Option<String>,
        tag: Option<String>,
        created: Option<i64>,
        cause: Option<String>,
        due: Option<i64>,
        priority: Option<i64>,
        done: Option<bool>,
    ) -> (todo: Option<Todo>)
        ensures
            match todo {
                Some(t) => title is Some && tag is Some && created is Some && cause is Some && due
                    is Some && priority is Some && done is Some && 0 <= priority->Some_0 <= 255
                    && t@ == (TodoView {
                    title: title->Some_0@,
                    tag: tag->Some_0@,
                    created: created->Some_0,
                    cause: cause->Some_0@,
                    due: due->Some_0,
                    priority: priority->Some_0 as u8,
                    done: done->Some_0,
                }),
                None => !(title is Some && tag is Some && created is Some && cause is Some && due
                    is Some && priority is Some && done is Some && 0 <= priority->Some_0 <= 255),
            },
    {
        match (title, tag, created, cause, due, priority, done) {
            (
                Some(title),
                Some(tag),
                Some(created),
                Some(cause),
                Some(due),
                Some(priority),
                Some(done),
            ) => {
                if 0 <= priority && priority <= 255 {
                    Some(Todo { title, tag, created, cause, due, priority: priority as u8, done })
                } else {
                    None
                }
            },
            _ => None,
        }
    }

    /// Reads a todo item from its text: a JSON object of its fields, or a
    /// JSON list of their values.
    pub fn from_json(text: &str) -> (todo: Result<Todo, ParseError>)
        ensures
            match todo {
                Ok(t) => TodoView::parsed(text@) == Ok::<TodoView, ParseError>(t@),
                Err(e) => TodoView::parsed(text@) == Err::<TodoView, ParseError>(e),
            },
    {
        match decode_object(text) {
            Some(members) => match Todo::from_members(&members) {
                Some(todo) => Ok(todo),
                None => Err(ParseError::Schema),
            },
            None => match decode_list(text) {
                Some(values) => match Todo::from_list(&values) {
                    Some(todo) => Ok(todo),
                    None => Err(ParseError::Schema),
                },
                None => Err(ParseError::Syntax),
            },
        }
    }
}

} // verus!
