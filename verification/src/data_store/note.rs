//! Notes.

use vstd::prelude::*;
use vstd::string::*;
use crate::clock::{in_reach, now};
use crate::data_store::error::ParseError;
use crate::distinct_texts::lemma_object_told;
use crate::json::{
    decode_list, decode_object, encode_object, find_member, get_int, get_text, int_at,
    int_member, lemma_member_value_at, lemma_member_value_of, member_value, names_once, nth_int,
    nth_text, object_text, parsed_list, parsed_object, text_at, text_member, Field, FieldValue,
    Member, MemberView,
};

verus! {

/// A note: what was observed, when, and what was made of it.
#[derive(Debug)]
pub struct Note {
    subject: String,
    on: i64,
    explanation: String,
    conclusion: String,
    created: i64,
    priority: u8,
    repeat: u8,
}

/// What a `Note` holds. Times are in seconds since 1970.
pub struct NoteView {
    pub subject: Seq<char>,
    pub on: i64,
    pub explanation: Seq<char>,
    pub conclusion: Seq<char>,
    pub created: i64,
    pub priority: u8,
    pub repeat: u8,
}

impl View for Note {
    type V = NoteView;

    closed spec fn view(&self) -> NoteView {
        NoteView {
            subject: self.subject@,
            on: self.on,
            explanation: self.explanation@,
            conclusion: self.conclusion@,
            created: self.created,
            priority: self.priority,
            repeat: self.repeat,
        }
    }
}

impl NoteView {
    /// A note with nothing written in it, that happened and was made at the
    /// given times.
    pub open spec fn blank(on: i64, created: i64) -> NoteView {
        NoteView {
            subject: Seq::empty(),
            on,
            explanation: Seq::empty(),
            conclusion: Seq::empty(),
            created,
            priority: 0,
            repeat: 1,
        }
    }

    /// The note after `subject`: an empty subject changes nothing.
    pub open spec fn with_subject(self, subject: Seq<char>) -> NoteView {
        if subject.len() > 0 {
            NoteView { subject, ..self }
        } else {
            self
        }
    }

    /// The note after `explanation`: an empty one changes nothing.
    pub open spec fn with_explanation(self, explanation: Seq<char>) -> NoteView {
        if explanation.len() > 0 {
            NoteView { explanation, ..self }
        } else {
            self
        }
    }

    /// The note after `conclusion`: an empty one changes nothing.
    pub open spec fn with_conclusion(self, conclusion: Seq<char>) -> NoteView {
        if conclusion.len() > 0 {
            NoteView { conclusion, ..self }
        } else {
            self
        }
    }

    /// The note after `on`: a time that is not positive changes nothing.
    pub open spec fn with_on(self, on: i64) -> NoteView {
        if on > 0 {
            NoteView { on, ..self }
        } else {
            self
        }
    }

    /// The note after `priority`.
    pub open spec fn with_priority(self, priority: u8) -> NoteView {
        NoteView { priority, ..self }
    }

    /// The note after `repeat`: a count of one or none changes nothing.
    pub open spec fn with_repeat(self, repeat: u8) -> NoteView {
        if repeat > 1 {
            NoteView { repeat, ..self }
        } else {
            self
        }
    }

    /// The note after `add_repeat`: the count goes up by one and stops at 255.
    pub open spec fn with_one_more(self) -> NoteView {
        if self.repeat < 255 {
            NoteView { repeat: (self.repeat + 1) as u8, ..self }
        } else {
            self
        }
    }

    /// The members of the note's JSON object, in the order they are written.
    pub open spec fn members(self) -> Seq<MemberView> {
        seq![
            MemberView { name: "subject"@, value: FieldValue::Text(self.subject) },
            MemberView { name: "on"@, value: FieldValue::Int(self.on) },
            MemberView { name: "explanation"@, value: FieldValue::Text(self.explanation) },
            MemberView { name: "conclusion"@, value: FieldValue::Text(self.conclusion) },
            MemberView { name: "created"@, value: FieldValue::Int(self.created) },
            MemberView { name: "priority"@, value: FieldValue::Int(self.priority as i64) },
            MemberView { name: "repeat"@, value: FieldValue::Int(self.repeat as i64) },
        ]
    }

    /// The note's canonical text, which is also its identity in a store.
    pub open spec fn json(self) -> Seq<char> {
        object_text(self.members())
    }

    /// The count that the members of an object give: the integer under the
    /// name `repeat`, and one where no member has that name.
    pub open spec fn count_of(members: Seq<MemberView>) -> Option<u8> {
        match member_value(members, "repeat"@) {
            None => Some(1u8),
            Some(FieldValue::Int(count)) => if 0 <= count <= 255 {
                Some(count as u8)
            } else {
                None
            },
            Some(_) => None,
        }
    }

    /// The note that the members of an object make up: each field is there
    /// under its name with a value of its type, in any order and among any
    /// other members. The count alone may be left out.
    pub open spec fn of_members(members: Seq<MemberView>) -> Option<NoteView> {
        match (
            text_member(members, "subject"@),
            int_member(members, "on"@),
            text_member(members, "explanation"@),
            text_member(members, "conclusion"@),
            int_member(members, "created"@),
            int_member(members, "priority"@),
            NoteView::count_of(members),
        ) {
            (
                Some(subject),
                Some(on),
                Some(explanation),
                Some(conclusion),
                Some(created),
                Some(priority),
                Some(repeat),
            ) => if 0 <= priority <= 255 {
                Some(
                    NoteView {
                        subject,
                        on,
                        explanation,
                        conclusion,
                        created,
                        priority: priority as u8,
                        repeat,
                    },
                )
            } else {
                None
            },
            _ => None,
        }
    }

    /// The values of the note's fields, in the order they are written.
    pub open spec fn values(self) -> Seq<FieldValue> {
        self.members().map_values(|m: MemberView| m.value)
    }

    /// The count that a list of the fields gives: the integer at the seventh
    /// place, and one where the list ends after the sixth.
    pub open spec fn count_at(values: Seq<FieldValue>) -> Option<u8> {
        if values.len() == 6 {
            Some(1u8)
        } else {
            match int_at(values, 6) {
                Some(count) => if 0 <= count <= 255 {
                    Some(count as u8)
                } else {
                    None
                },
                None => None,
            }
        }
    }

    /// The note that a list makes up: the values of the fields in their
    /// order and nothing more. The count alone may be left out.
    pub open spec fn of_list(values: Seq<FieldValue>) -> Option<NoteView> {
        match (
            text_at(values, 0),
            int_at(values, 1),
            text_at(values, 2),
            text_at(values, 3),
            int_at(values, 4),
            int_at(values, 5),
            NoteView::count_at(values),
        ) {
            (
                Some(subject),
                Some(on),
                Some(explanation),
                Some(conclusion),
                Some(created),
                Some(priority),
                Some(repeat),
            ) => if 0 <= priority <= 255 && values.len() <= 7 {
                Some(
                    NoteView {
                        subject,
                        on,
                        explanation,
                        conclusion,
                        created,
                        priority: priority as u8,
                        repeat,
                    },
                )
            } else {
                None
            },
            _ => None,
        }
    }

    /// What reading a text as a note gives: the note of the members where
    /// the text is a JSON object, the note of the values where it is a JSON
    /// list.
    pub open spec fn parsed(text: Seq<char>) -> Result<NoteView, ParseError> {
        match parsed_object(text) {
            Some(members) => match NoteView::of_members(members) {
                Some(note) => Ok(note),
                None => Err(ParseError::Schema),
            },
            None => match parsed_list(text) {
                Some(values) => match NoteView::of_list(values) {
                    Some(note) => Ok(note),
                    None => Err(ParseError::Schema),
                },
                None => Err(ParseError::Syntax),
            },
        }
    }

    /// Two notes of the same canonical text are the same, field for field.
    pub proof fn lemma_text_identifies(self, other: NoteView)
        requires
            self.json() == other.json(),
        ensures
            self == other,
    {
        let ms = self.members();
        let ns = other.members();
        lemma_object_told(ms, ns);
        assert(ms[0] == ns[0] && ms[1] == ns[1] && ms[2] == ns[2] && ms[3] == ns[3] && ms[4]
            == ns[4] && ms[5] == ns[5] && ms[6] == ns[6]);
    }

    /// Reading gives a note that was counted once back from every object
    /// that holds its other members, no name twice and none named `repeat`.
    pub proof fn lemma_read_back_uncounted(self, members: Seq<MemberView>)
        requires
            self.repeat == 1,
            names_once(members),
            member_value(members, "repeat"@) is None,
            forall|i: int| 0 <= i < 6 ==> members.contains(#[trigger] self.members()[i]),
        ensures
            NoteView::of_members(members) == Some(self),
    {
        let own = self.members();
        lemma_member_value_of(members, own[0]);
        lemma_member_value_of(members, own[1]);
        lemma_member_value_of(members, own[2]);
        lemma_member_value_of(members, own[3]);
        lemma_member_value_of(members, own[4]);
        lemma_member_value_of(members, own[5]);
    }

    /// Reading gives the note back, field for field, from the list of its
    /// values, and a note that was counted once from the list of the first six.
    pub proof fn lemma_list_round_trip(self)
        ensures
            NoteView::of_list(self.values()) == Some(self),
            self.repeat == 1 ==> NoteView::of_list(self.values().take(6)) == Some(self),
    {
        let all = self.values();
        assert(all.len() == 7);
        assert(all[6] == FieldValue::Int(self.repeat as i64));
        let six = all.take(6);
        assert(six.len() == 6);
        assert(six[0] == all[0] && six[1] == all[1] && six[2] == all[2] && six[3] == all[3]
            && six[4] == all[4] && six[5] == all[5]);
    }

    /// Reading gives the note back, field for field, from every object that
    /// holds its members and no name twice, in whatever order and among
    /// whatever other members.
    pub proof fn lemma_read_back(self, members: Seq<MemberView>)
        requires
            names_once(members),
            forall|i: int|
                0 <= i < self.members().len() ==> members.contains(#[trigger] self.members()[i]),
        ensures
            NoteView::of_members(members) == Some(self),
    {
        let own = self.members();
        lemma_member_value_of(members, own[0]);
        lemma_member_value_of(members, own[1]);
        lemma_member_value_of(members, own[2]);
        lemma_member_value_of(members, own[3]);
        lemma_member_value_of(members, own[4]);
        lemma_member_value_of(members, own[5]);
        lemma_member_value_of(members, own[6]);
    }

    /// Reading a note's own members gives the note back, field for field.
    pub proof fn lemma_members_round_trip(self)
        ensures
            NoteView::of_members(self.members()) == Some(self),
    {
        reveal_strlit("subject");
        reveal_strlit("on");
        reveal_strlit("explanation");
        reveal_strlit("conclusion");
        reveal_strlit("created");
        reveal_strlit("priority");
        reveal_strlit("repeat");
        let m = self.members();
        assert("subject"@.len() == 7 && "subject"@[0] == 's');
        assert("on"@.len() == 2);
        assert("explanation"@.len() == 11);
        assert("conclusion"@.len() == 10);
        assert("created"@.len() == 7 && "created"@[0] == 'c');
        assert("priority"@.len() == 8);
        assert("repeat"@.len() == 6);
        lemma_member_value_at(m, "subject"@, 0);
        lemma_member_value_at(m, "on"@, 1);
        lemma_member_value_at(m, "explanation"@, 2);
        lemma_member_value_at(m, "conclusion"@, 3);
        lemma_member_value_at(m, "created"@, 4);
        lemma_member_value_at(m, "priority"@, 5);
        lemma_member_value_at(m, "repeat"@, 6);
    }
}

impl Note {
    /// A note with nothing written in it, stamped with the current time.
    pub fn new() -> (note: Note)
        ensures
            note@ == NoteView::blank(note@.on, note@.created),
            in_reach(note@.on),
            in_reach(note@.created),
    {
        let on = now();
        let created = now();
        Note::stamped(on, created)
    }

    /// A note with nothing written in it, that happened and was made at the
    /// given times.
    pub fn stamped(on: i64, created: i64) -> (note: Note)
        ensures
            note@ == NoteView::blank(on, created),
    {
        Note {
            subject: String::new(),
            on,
            explanation: String::new(),
            conclusion: String::new(),
            created,
            priority: 0,
            repeat: 1,
        }
    }

    /// Sets what the note is about, unless the text is empty.
    pub fn subject(&mut self, subject: String) -> (out: &mut Self)
        ensures
            (*out)@ == old(self)@.with_subject(subject@),
            *final(self) == *final(out),
    {
        if !subject.as_str().is_empty() {
            self.subject = subject;
        }
        self
    }

    /// Sets the explanation, unless the text is empty.
    pub fn explanation(&mut self, explanation: String) -> (out: &mut Self)
        ensures
            (*out)@ == old(self)@.with_explanation(explanation@),
            *final(self) == *final(out),
    {
        if !explanation.as_str().is_empty() {
            self.explanation = explanation;
        }
        self
    }

    /// Sets the conclusion, unless the text is empty.
    pub fn conclusion(&mut self, conclusion: String) -> (out: &mut Self)
        ensures
            (*out)@ == old(self)@.with_conclusion(conclusion@),
            *final(self) == *final(out),
    {
        if !conclusion.as_str().is_empty() {
            self.conclusion = conclusion;
        }
        self
    }

    /// Sets when the noted thing happened, unless the time is not positive.
    pub fn on(&mut self, on: i64) -> (out: &mut Self)
        ensures
            (*out)@ == old(self)@.with_on(on),
            *final(self) == *final(out),
    {
        if on > 0 {
            self.on = on;
        }
        self
    }

    /// Sets how often the noted thing happened, unless that is not more than once.
    pub fn repeat(&mut self, repeat: u8) -> (out: &mut Self)
        ensures
            (*out)@ == old(self)@.with_repeat(repeat),
            *final(self) == *final(out),
    {
        if repeat > 1 {
            self.repeat = repeat;
        }
        self
    }

    /// Counts one more occurrence; at 255 the count stays.
    pub fn add_repeat(&mut self) -> (out: &mut Self)
        ensures
            (*out)@ == old(self)@.with_one_more(),
            *final(self) == *final(out),
    {
        if self.repeat < 255 {
            self.repeat = self.repeat + 1;
        }
        self
    }

    /// Sets the priority.
    pub fn priority(&mut self, priority: u8) -> (out: &mut Self)
        ensures
            (*out)@ == old(self)@.with_priority(priority),
            *final(self) == *final(out),
    {
        self.priority = priority;
        self
    }

    /// The members of the note's JSON object.
    pub fn members(&self) -> (members: Vec<Member>)
        ensures
            members.deep_view() == self@.members(),
    {
        let mut members: Vec<Member> = Vec::new();
        members.push(
            Member { name: String::from_str("subject"), value: Field::Text(self.subject.clone()) },
        );
        members.push(Member { name: String::from_str("on"), value: Field::Int(self.on) });
        members.push(
            Member {
                name: String::from_str("explanation"),
                value: Field::Text(self.explanation.clone()),
            },
        );
        members.push(
            Member {
                name: String::from_str("conclusion"),
                value: Field::Text(self.conclusion.clone()),
            },
        );
        members.push(Member { name: String::from_str("created"), value: Field::Int(self.created) });
        members.push(
            Member { name: String::from_str("priority"), value: Field::Int(self.priority as i64) },
        );
        members.push(
            Member { name: String::from_str("repeat"), value: Field::Int(self.repeat as i64) },
        );
        proof {
            assert(members.deep_view() =~= self@.members());
        }
        members
    }

    /// The note's canonical text.
    pub fn to_json(&self) -> (text: String)
        ensures
            text@ == self@.json(),
    {
        let members = self.members();
        encode_object(&members)
    }

    /// Makes a note of the members of an object.
    pub fn from_members(members: &Vec<Member>) -> (note: Option<Note>)
        ensures
            match note {
                Some(n) => NoteView::of_members(members.deep_view()) == Some(n@),
                None => NoteView::of_members(members.deep_view()) is None,
            },
    {
        let subject = get_text(members, "subject");
        let on = get_int(members, "on");
        let explanation = get_text(members, "explanation");
        let conclusion = get_text(members, "conclusion");
        let created = get_int(members, "created");
        let priority = get_int(members, "priority");
        let repeat: Option<u8> = match find_member(members, "repeat") {
            None => Some(1),
            Some(Field::Int(count)) => if 0 <= *count && *count <= 255 {
                Some(*count as u8)
            } else {
                None
            },
            Some(_) => None,
        };
        Note::assemble(subject, on, explanation, conclusion, created, priority, repeat)
    }

    /// Makes a note of a list of the values of its fields.
    pub fn from_list(values: &Vec<Field>) -> (note: Option<Note>)
        ensures
            match note {
                Some(n) => NoteView::of_list(values.deep_view()) == Some(n@),
                None => NoteView::of_list(values.deep_view()) is None,
            },
    {
        if values.len() > 7 {
            return None;
        }
        let subject = nth_text(values, 0);
        let on = nth_int(values, 1);
        let explanation = nth_text(values, 2);
        let conclusion = nth_text(values, 3);
        let created = nth_int(values, 4);
        let priority = nth_int(values, 5);
        let repeat: Option<u8> = if values.len() == 6 {
            Some(1)
        } else {
            match nth_int(values, 6) {
                Some(count) => if 0 <= count && count <= 255 {
                    Some(count as u8)
                } else {
                    None
                },
                None => None,
            }
        };
        Note::assemble(subject, on, explanation, conclusion, created, priority, repeat)
    }

    /// Puts a note together of its fields as far as they were found.
    fn assemble(
        subject: Option<String>,
        on: Option<i64>,
        explanation: Option<String>,
        conclusion: Option<String>,
        created: Option<i64>,
        priority: Option<i64>,
        repeat: Option<u8>,
    ) -> (note: Option<Note>)
        ensures
            match note {
                Some(n) => subject is Some && on is Some && explanation is Some && conclusion is Some
                    && created is Some && priority is Some && repeat is Some && 0
                    <= priority->Some_0 <= 255 && n@ == (NoteView {
                    subject: subject->Some_0@,
                    on: on->Some_0,
                    explanation: explanation->Some_0@,
                    conclusion: conclusion->Some_0@,
                    created: created->Some_0,
                    priority: priority->Some_0 as u8,
                    repeat: repeat->Some_0,
                }),
                None => !(subject is Some && on is Some && explanation is Some && conclusion
                    is Some && created is Some && priority is Some && repeat is Some && 0
                    <= priority->Some_0 <= 255),
            },
    {
        match (subject, on, explanation, conclusion, created, priority, repeat) {
            (
                Some(subject),
                Some(on),
                Some(explanation),
                Some(conclusion),
                Some(created),
                Some(priority),
                Some(repeat),
            ) => {
                if 0 <= priority && priority <= 255 {
                    Some(
                        Note {
                            subject,
                            on,
                            explanation,
                            conclusion,
                            created,
                            priority: priority as u8,
                            repeat,
                        },
                    )
                } else {
                    None
                }
            },
            _ => None,
        }
    }

    /// Reads a note from its text: a JSON object of its fields, or a JSON
    /// list of their values.
    pub fn from_json(text: &str) -> (note: Result<Note, ParseError>)
        ensures
            match note {
                Ok(n) => NoteView::parsed(text@) == Ok::<NoteView, ParseError>(n@),
                Err(e) => NoteView::parsed(text@) == Err::<NoteView, ParseError>(e),
            },
    {
        match decode_object(text) {
            Some(members) => match Note::from_members(&members) {
                Some(note) => Ok(note),
                None => Err(ParseError::Schema),
            },
            None => match decode_list(text) {
                Some(values) => match Note::from_list(&values) {
                    Some(note) => Ok(note),
                    None => Err(ParseError::Schema),
                },
                None => Err(ParseError::Syntax),
            },
        }
    }
}

} // verus!
