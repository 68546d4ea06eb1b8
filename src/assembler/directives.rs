use vstd::prelude::*;

verus! {

/// The directives the assembler knows.
#[derive(Debug, Clone, Copy, PartialEq, Eq, Structural, PartialOrd, Ord)]
pub enum Directives {
    Entry,
    Section,
    MacroStart,
    MacroEnd,
}

pub open spec fn entry_name() -> Seq<char> {
    seq!['.', 'e', 'n', 't', 'r', 'y']
}

pub open spec fn section_name() -> Seq<char> {
    seq!['.', 's', 'e', 'c', 't', 'i', 'o', 'n']
}

pub open spec fn macro_name() -> Seq<char> {
    seq!['.', 'm', 'a', 'c', 'r', 'o']
}

pub open spec fn endmacro_name() -> Seq<char> {
    seq!['.', 'e', 'n', 'd', 'm', 'a', 'c', 'r', 'o']
}

/// The directive spelled `s`, with its leading dot.
pub open spec fn directive_named(s: Seq<char>) -> Option<Directives> {
    if s == entry_name() {
        Some(Directives::Entry)
    } else if s == section_name() {
        Some(Directives::Section)
    } else if s == macro_name() {
        Some(Directives::MacroStart)
    } else if s == endmacro_name() {
        Some(Directives::MacroEnd)
    } else {
        None
    }
}

impl Directives {
    /// The directive spelled `s`, if it is one of `.entry`, `.section`, `.macro` and
    /// `.endmacro`.
    pub fn from_name(s: &String) -> (r: Option<Directives>)
        ensures
            r == directive_named(s@),
    {
        proof {
            reveal_strlit(".entry");
            reveal_strlit(".section");
            reveal_strlit(".macro");
            reveal_strlit(".endmacro");
            assert(".entry"@ =~= entry_name());
            assert(".section"@ =~= section_name());
            assert(".macro"@ =~= macro_name());
            assert(".endmacro"@ =~= endmacro_name());
        }
        if *s == ".entry".to_owned() {
            Some(Directives::Entry)
        } else if *s == ".section".to_owned() {
            Some(Directives::Section)
        } else if *s == ".macro".to_owned() {
            Some(Directives::MacroStart)
        } else if *s == ".endmacro".to_owned() {
            Some(Directives::MacroEnd)
        } else {
            None
        }
    }
}

} // verus!
