//! Records of any kind, and what a type must offer to be stored.

use vstd::prelude::*;
use vstd::string::*;
use crate::data_store::error::ParseError;
use crate::distinct_texts::lemma_object_told;
use crate::data_store::kind::Kind;
use crate::data_store::note::{Note, NoteView};
use crate::data_store::todo::{Todo, TodoView};

verus! {

/// A record of one of the kinds that the store knows.
#[derive(Debug)]
pub enum Record {
    Note(Note),
    Todo(Todo),
}

/// What a `Record` holds.
pub enum RecordView {
    Note(NoteView),
    Todo(TodoView),
}

impl View for Record {
    type V = RecordView;

    open spec fn view(&self) -> RecordView {
        match self {
            Record::Note(note) => RecordView::Note(note@),
            Record::Todo(todo) => RecordView::Todo(todo@),
        }
    }
}

impl DeepView for Record {
    type V = RecordView;

    open spec fn deep_view(&self) -> RecordView {
        self@
    }
}

impl RecordView {
    /// The kind of the record.
    pub open spec fn kind(self) -> Kind {
        match self {
            RecordView::Note(_) => Kind::Note,
            RecordView::Todo(_) => Kind::Todo,
        }
    }

    /// The record's canonical text, which is also its identity in a store.
    pub open spec fn json(self) -> Seq<char> {
        match self {
            RecordView::Note(note) => note.json(),
            RecordView::Todo(todo) => todo.json(),
        }
    }

    /// Two records of the same canonical text are the same: of one kind, and
    /// the same field for field.
    pub proof fn lemma_text_identifies(self, other: RecordView)
        requires
            self.json() == other.json(),
        ensures
            self == other,
    {
        match (self, other) {
            (RecordView::Note(a), RecordView::Note(b)) => {
                a.lemma_text_identifies(b);
            },
            (RecordView::Todo(a), RecordView::Todo(b)) => {
                a.lemma_text_identifies(b);
            },
            (RecordView::Note(a), RecordView::Todo(b)) => {
                lemma_object_told(a.members(), b.members());
                RecordView::lemma_first_names_differ();
                assert(a.members()[0].name == b.members()[0].name);
            },
            (RecordView::Todo(a), RecordView::Note(b)) => {
                lemma_object_told(a.members(), b.members());
                RecordView::lemma_first_names_differ();
                assert(a.members()[0].name == b.members()[0].name);
            },
        }
    }

    /// The first field of a note and that of a todo item have different names.
    proof fn lemma_first_names_differ()
        ensures
            "subject"@ != "title"@,
    {
        reveal_strlit("subject");
        reveal_strlit("title");
        assert("subject"@.len() == 7 && "title"@.len() == 5);
    }

    /// What reading a text as a record of a kind gives.
    pub open spec fn parsed(kind: Kind, text: Seq<char>) -> Result<RecordView, ParseError> {
        match kind {
            Kind::Note => match NoteView::parsed(text) {
                Ok(note) => Ok(RecordView::Note(note)),
                Err(e) => Err(e),
            },
            Kind::Todo => match TodoView::parsed(text) {
                Ok(todo) => Ok(RecordView::Todo(todo)),
                Err(e) => Err(e),
            },
        }
    }
}

impl Record {
    /// The kind of the record.
    pub fn kind(&self) -> (kind: Kind)
        ensures
            kind == self@.kind(),
    {
        match self {
            Record::Note(_) => Kind::Note,
            Record::Todo(_) => Kind::Todo,
        }
    }

    /// The record's canonical text.
    pub fn to_json(&self) -> (text: String)
        ensures
            text@ == self@.json(),
    {
        match self {
            Record::Note(note) => note.to_json(),
            Record::Todo(todo) => todo.to_json(),
        }
    }

    /// Reads a record of the given kind from its text.
    pub fn from_json(kind: Kind, text: &str) -> (record: Result<Record, ParseError>)
        ensures
            match record {
                Ok(r) => RecordView::parsed(kind, text@) == Ok::<RecordView, ParseError>(r@),
                Err(e) => RecordView::parsed(kind, text@) == Err::<RecordView, ParseError>(e),
            },
    {
        match kind {
            Kind::Note => match Note::from_json(text) {
                Ok(note) => Ok(Record::Note(note)),
                Err(e) => Err(e),
            },
            Kind::Todo => match Todo::from_json(text) {
                Ok(todo) => Ok(Record::Todo(todo)),
                Err(e) => Err(e),
            },
        }
    }
}

/// What a type offers so that a store can hold its values: the kind they are
/// grouped under, and each value as a record with a canonical text.
pub trait Storable: Sized {
    /// The kind whose group the values of this type go to.
    spec fn kind_of() -> Kind;

    /// The value as the store holds it.
    spec fn stored(&self) -> RecordView;

    /// The kind whose group the values of this type go to.
    fn kind() -> (kind: Kind)
        ensures
            kind == Self::kind_of(),
    ;

    /// The value's canonical text.
    fn to_json(&self) -> (text: String)
        ensures
            text@ == self.stored().json(),
    ;

    /// Hands the value over as a record.
    fn into_record(self) -> (record: Record)
        ensures
            record@ == self.stored(),
    ;
}

impl Storable for Note {
    open spec fn kind_of() -> Kind {
        Kind::Note
    }

    open spec fn stored(&self) -> RecordView {
        RecordView::Note(self@)
    }

    fn kind() -> (kind: Kind) {
        Kind::Note
    }

    fn to_json(&self) -> (text: String) {
        Note::to_json(self)
    }

    fn into_record(self) -> (record: Record) {
        Record::Note(self)
    }
}

impl Storable for Todo {
    open spec fn kind_of() -> Kind {
        Kind::Todo
    }

    open spec fn stored(&self) -> RecordView {
        RecordView::Todo(self@)
    }

    fn kind() -> (kind: Kind) {
        Kind::Todo
    }

    fn to_json(&self) -> (text: String) {
        Todo::to_json(self)
    }

    fn into_record(self) -> (record: Record) {
        Record::Todo(self)
    }
}

} // verus!
