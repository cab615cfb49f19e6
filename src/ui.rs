use vstd::prelude::*;
use vstd::string::*;

use crate::text::{pieces, split, str_eq, trim, trim_of};

verus! {

/// The kind of message a prompt shows.
#[derive(Debug, Clone, Copy, PartialEq, Eq, Structural)]
pub enum MsgType {
    Conflict,
    Missing,
    Info,
}

pub open spec fn label_of(m: MsgType) -> Seq<char> {
    match m {
        MsgType::Conflict => "conflict"@,
        MsgType::Missing => "not found"@,
        MsgType::Info => "info"@,
    }
}

impl MsgType {
    /// The word shown in front of a message.
    pub fn label(&self) -> (r: &'static str)
        ensures
            r@ == label_of(*self),
    {
        match self {
            MsgType::Conflict => "conflict",
            MsgType::Missing => "not found",
            MsgType::Info => "info",
        }
    }
}

/// A prompt that asks for one kind of response.
pub struct UI {
    pub msg_type: MsgType,
}

impl UI {
    pub fn new(msg_type: MsgType) -> (r: UI)
        ensures
            r.msg_type == msg_type,
    {
        UI { msg_type }
    }
}

/// The choices a response offers: each with the position of its shortcut letter, if any.
pub trait Controls: Sized {
    spec fn is_abort(&self) -> bool;

    /// The choices offered, each with the position of its shortcut letter.
    spec fn choices() -> Seq<(Option<usize>, Seq<char>)>;

    fn controls() -> (r: Vec<(Option<usize>, String)>)
        ensures
            r@.len() == Self::choices().len(),
            forall|i: int|
                0 <= i < r@.len() ==> (#[trigger] r@[i]).0 == Self::choices()[i].0 && r@[i].1@
                    == Self::choices()[i].1,
    ;

    fn abort() -> (r: Self)
        ensures
            r.is_abort(),
    ;
}

/// Abort or continue.
#[derive(Debug, Clone, Copy, PartialEq, Eq, Structural)]
pub enum SimpleInputs {
    Abort,
    Continue,
}

/// Abort, merge into the existing entry, or take a new citation.
#[derive(Debug, Clone)]
pub enum CitationInputs {
    Abort,
    Update,
    Changed(String),
}

/// Abort, or a new journal as (full name, abbreviation, abbreviation without dots).
#[derive(Debug)]
pub enum JournalInputs {
    Abort,
    Update((String, String, String)),
}

fn choice(shortcut: Option<usize>, text: &str) -> (r: (Option<usize>, String))
    ensures
        r.0 == shortcut,
        r.1@ == text@,
{
    (shortcut, String::from_str(text))
}

impl Controls for SimpleInputs {
    open spec fn is_abort(&self) -> bool {
        *self == SimpleInputs::Abort
    }

    open spec fn choices() -> Seq<(Option<usize>, Seq<char>)> {
        seq![(Some(0usize), "abort"@), (Some(0usize), "continue"@)]
    }

    fn controls() -> (r: Vec<(Option<usize>, String)>) {
        let mut v: Vec<(Option<usize>, String)> = Vec::new();
        v.push(choice(Some(0), "abort"));
        v.push(choice(Some(0), "continue"));
        v
    }

    fn abort() -> (r: Self) {
        SimpleInputs::Abort
    }
}

impl Controls for CitationInputs {
    open spec fn is_abort(&self) -> bool {
        *self is Abort
    }

    open spec fn choices() -> Seq<(Option<usize>, Seq<char>)> {
        seq![
            (Some(0usize), "abort"@),
            (Some(0usize), "update entry"@),
            (None::<usize>, "input new citation"@),
        ]
    }

    fn controls() -> (r: Vec<(Option<usize>, String)>) {
        let mut v: Vec<(Option<usize>, String)> = Vec::new();
        v.push(choice(Some(0), "abort"));
        v.push(choice(Some(0), "update entry"));
        v.push(choice(None, "input new citation"));
        v
    }

    fn abort() -> (r: Self) {
        CitationInputs::Abort
    }
}

impl Controls for JournalInputs {
    open spec fn is_abort(&self) -> bool {
        *self is Abort
    }

    open spec fn choices() -> Seq<(Option<usize>, Seq<char>)> {
        seq![
            (Some(0usize), "abort"@),
            (None::<usize>, "type new name in [full, abbreviation, abbreviation without dots]"@),
        ]
    }

    fn controls() -> (r: Vec<(Option<usize>, String)>) {
        let mut v: Vec<(Option<usize>, String)> = Vec::new();
        v.push(choice(Some(0), "abort"));
        v.push(choice(None, "type new name in [full, abbreviation, abbreviation without dots]"));
        v
    }

    fn abort() -> (r: Self) {
        JournalInputs::Abort
    }
}

impl SimpleInputs {
    /// "a" aborts, "c" continues; anything else is not a response.
    pub fn parse(value: &str) -> (r: Option<SimpleInputs>)
        ensures
            value@ == "a"@ ==> r == Some(SimpleInputs::Abort),
            value@ == "c"@ ==> r == Some(SimpleInputs::Continue),
            value@ != "a"@ && value@ != "c"@ ==> r is None,
    {
        proof {
            reveal_strlit("a");
            reveal_strlit("c");
            assert("a"@[0] != "c"@[0]);
        }
        if str_eq(value, "a") {
            Some(SimpleInputs::Abort)
        } else if str_eq(value, "c") {
            Some(SimpleInputs::Continue)
        } else {
            None
        }
    }
}

impl CitationInputs {
    /// "a" aborts, "u" merges into the existing entry; any other text is a new citation.
    pub fn parse(value: String) -> (r: CitationInputs)
        ensures
            value@ == "a"@ ==> r is Abort,
            value@ == "u"@ ==> r is Update,
            value@ != "a"@ && value@ != "u"@ ==> r == CitationInputs::Changed(value),
    {
        proof {
            reveal_strlit("a");
            reveal_strlit("u");
            assert("a"@[0] != "u"@[0]);
        }
        if str_eq(value.as_str(), "a") {
            CitationInputs::Abort
        } else if str_eq(value.as_str(), "u") {
            CitationInputs::Update
        } else {
            CitationInputs::Changed(value)
        }
    }
}

impl JournalInputs {
    /// "a" aborts; otherwise exactly three comma-separated names, each trimmed, give a new
    /// journal, and anything else is not a response.
    pub fn parse(value: &str) -> (r: Option<JournalInputs>)
        ensures
            value@ == "a"@ ==> r == Some(JournalInputs::Abort),
            value@ != "a"@ && pieces(value@, ","@).len() != 3 ==> r is None,
            value@ != "a"@ && pieces(value@, ","@).len() == 3 ==> (r matches Some(
                JournalInputs::Update((full, abbr, abbr_no_dot)),
            ) && full@ == trim_of(pieces(value@, ","@)[0]) && abbr@ == trim_of(
                pieces(value@, ","@)[1],
            ) && abbr_no_dot@ == trim_of(pieces(value@, ","@)[2])),
    {
        if str_eq(value, "a") {
            return Some(JournalInputs::Abort);
        }
        proof {
            reveal_strlit(",");
        }
        let parts = split(value, ",");
        if parts.len() != 3 {
            return None;
        }
        let full = trim(parts[0].as_str());
        let abbr = trim(parts[1].as_str());
        let abbr_no_dot = trim(parts[2].as_str());
        Some(JournalInputs::Update((full, abbr, abbr_no_dot)))
    }
}

} // verus!
