//! Trigger patterns and their match definitions.

use vstd::prelude::*;

verus! {

/// One configured expansion: an abbreviation pattern together with its
/// matching options and the replacement it produces. A definition is
/// immutable for the lifetime of the matcher holding it; configuration
/// changes construct a new matcher from a new snapshot.
pub struct MatchDef {
    /// Stable identifier, used for per-application enablement.
    pub id: u64,
    /// The abbreviation to recognize, one character per typed key.
    pub pattern: Vec<char>,
    /// The text injected when the trigger fires.
    pub replacement: String,
    /// When false, pattern characters compare equal up to ASCII case.
    pub case_sensitive: bool,
    /// When true, the trigger only fires if the character preceding the
    /// match is a word boundary (or the match starts the stream).
    pub left_word: bool,
    /// When true, the fully typed trigger fires only on the next key, and
    /// only if that key is a word boundary character.
    pub right_word: bool,
    /// Tie-break rank when several triggers complete on the same event and
    /// have the same length; higher wins.
    pub priority: u32,
}

/// A usable definition has a non-empty pattern.
pub open spec fn def_wf(d: MatchDef) -> bool {
    d.pattern@.len() >= 1
}

/// Every definition of a snapshot is usable.
pub open spec fn defs_wf(defs: Seq<MatchDef>) -> bool {
    forall|i: int| 0 <= i < defs.len() ==> def_wf(#[trigger] defs[i])
}

impl MatchDef {
    pub fn new(
        id: u64,
        pattern: Vec<char>,
        replacement: String,
        case_sensitive: bool,
        left_word: bool,
        right_word: bool,
        priority: u32,
    ) -> (d: MatchDef)
        requires
            pattern@.len() >= 1,
        ensures
            d.id == id,
            d.pattern@ == pattern@,
            d.replacement@ == replacement@,
            d.case_sensitive == case_sensitive,
            d.left_word == left_word,
            d.right_word == right_word,
            d.priority == priority,
            def_wf(d),
    {
        MatchDef { id, pattern, replacement, case_sensitive, left_word, right_word, priority }
    }

    /// A plain definition: fires as soon as its pattern is typed, matching
    /// case-sensitively, with no boundary requirement.
    pub fn simple(id: u64, pattern: Vec<char>, replacement: String) -> (d: MatchDef)
        requires
            pattern@.len() >= 1,
        ensures
            d.id == id,
            d.pattern@ == pattern@,
            d.replacement@ == replacement@,
            d.case_sensitive == true,
            d.left_word == false,
            d.right_word == false,
            d.priority == 0,
            def_wf(d),
    {
        MatchDef {
            id,
            pattern,
            replacement,
            case_sensitive: true,
            left_word: false,
            right_word: false,
            priority: 0,
        }
    }
}

} // verus!
