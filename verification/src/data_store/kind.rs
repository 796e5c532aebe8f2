//! The kinds of record and the names they are stored under.

use vstd::prelude::*;
use vstd::string::*;

verus! {

/// A kind of record. The store keeps one group of records for each.
#[derive(Clone, Copy, Debug, PartialEq, Eq, Structural)]
pub enum Kind {
    Note,
    Todo,
}

impl Kind {
    /// The name a kind's group stands under in the store's document.
    pub open spec fn name(self) -> Seq<char> {
        match self {
            Kind::Note => "va::data_store::Note"@,
            Kind::Todo => "va::data_store::Todo"@,
        }
    }

    /// The kind that a name stands for, if it stands for one.
    pub open spec fn named(name: Seq<char>) -> Option<Kind> {
        if name == Kind::Note.name() {
            Some(Kind::Note)
        } else if name == Kind::Todo.name() {
            Some(Kind::Todo)
        } else {
            None
        }
    }

    /// The name of this kind.
    pub fn discriminator(self) -> (name: &'static str)
        ensures
            name@ == self.name(),
    {
        match self {
            Kind::Note => "va::data_store::Note",
            Kind::Todo => "va::data_store::Todo",
        }
    }

    /// Looks a kind up by its name.
    pub fn from_discriminator(name: &str) -> (kind: Option<Kind>)
        ensures
            kind == Kind::named(name@),
    {
        let name = String::from_str(name);
        if name == String::from_str(Kind::Note.discriminator()) {
            Some(Kind::Note)
        } else if name == String::from_str(Kind::Todo.discriminator()) {
            Some(Kind::Todo)
        } else {
            None
        }
    }

    /// No name is used for two kinds: looking up a kind's name gives that
    /// kind back, so two kinds of one name are the same kind.
    pub proof fn lemma_name_identifies(kind: Kind, other: Kind)
        ensures
            Kind::named(kind.name()) == Some(kind),
            kind.name() == other.name() ==> kind == other,
    {
        reveal_strlit("va::data_store::Note");
        reveal_strlit("va::data_store::Todo");
        assert(Kind::Note.name()[16] == 'N');
        assert(Kind::Todo.name()[16] == 'T');
    }
}

} // verus!
