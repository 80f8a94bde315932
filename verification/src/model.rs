//! The run-wide data model: candidate relationship edges and the accumulator
//! that collects declared type names and edges across all scanned files.

use vstd::prelude::*;

verus! {

/// The four relationship kinds distinguished in the rendered diagram.
#[derive(Clone, Copy, Debug, PartialEq, Eq, Structural)]
pub enum ArrowKind {
    Inheritance,
    Realization,
    Aggregation,
    Composition,
}

/// A candidate relationship edge, collected at parse time and judged only by
/// the whole-run resolution pass. `field_type` keeps the rendered type text of
/// the field the edge came from (empty for base-type and binding edges), so
/// that resolution can look for declared names inside generic markers.
#[derive(Debug)]
pub struct Arrow {
    pub start: Vec<char>,
    pub end: Vec<char>,
    pub kind: ArrowKind,
    pub field_type: Vec<char>,
}

/// The mathematical view of an [`Arrow`].
#[verifier::ext_equal]
pub ghost struct ArrowV {
    pub start: Seq<char>,
    pub end: Seq<char>,
    pub kind: ArrowKind,
    pub field_type: Seq<char>,
}

impl View for Arrow {
    type V = ArrowV;

    open spec fn view(&self) -> ArrowV {
        ArrowV { start: self.start@, end: self.end@, kind: self.kind, field_type: self.field_type@ }
    }
}

impl DeepView for Arrow {
    type V = ArrowV;

    open spec fn deep_view(&self) -> ArrowV {
        self.view()
    }
}

impl Arrow {
    /// Builds an edge from plain parts.
    pub fn new(start: Vec<char>, end: Vec<char>, kind: ArrowKind, field_type: Vec<char>) -> (a:
        Arrow)
        ensures
            a@ == (ArrowV { start: start@, end: end@, kind, field_type: field_type@ }),
    {
        Arrow { start, end, kind, field_type }
    }
}

/// The whole-run accumulator: every declared type name, in the order the
/// declarations were seen (duplicates allowed), and every candidate edge.
pub struct RunState {
    pub classes: Vec<Vec<char>>,
    pub arrows: Vec<Arrow>,
}

/// The mathematical view of a [`RunState`].
#[verifier::ext_equal]
pub ghost struct RunStateV {
    pub classes: Seq<Seq<char>>,
    pub arrows: Seq<ArrowV>,
}

impl View for RunState {
    type V = RunStateV;

    open spec fn view(&self) -> RunStateV {
        RunStateV { classes: self.classes.deep_view(), arrows: self.arrows.deep_view() }
    }
}

impl RunState {
    /// A fresh accumulator with nothing seen yet.
    pub fn new() -> (s: RunState)
        ensures
            s@.classes == Seq::<Seq<char>>::empty(),
            s@.arrows == Seq::<ArrowV>::empty(),
    {
        let s = RunState { classes: Vec::new(), arrows: Vec::new() };
        proof {
            assert(s@.classes =~~= Seq::<Seq<char>>::empty());
            assert(s@.arrows =~= Seq::<ArrowV>::empty());
        }
        s
    }
}

/// Whether a character is upper-case in the full Unicode sense. The table
/// behind that judgment is far too large to write out, so this name stands
/// for what `char::is_uppercase` returns; it is a function of the character
/// alone.
pub uninterp spec fn is_unicode_upper(c: char) -> bool;

/// Relies on `char::is_uppercase`: whether the character has the Unicode
/// uppercase property, a pure function of the character alone.
#[verifier::external_body]
fn unicode_upper(c: char) -> (r: bool)
    ensures
        r == is_unicode_upper(c),
{
    c.is_uppercase()
}

/// The lexical convention for interface-shaped identifiers: a leading `I`
/// followed by an upper-case letter.
pub open spec fn spec_is_interface(s: Seq<char>) -> bool {
    s.len() >= 2 && s[0] == 'I' && is_unicode_upper(s[1])
}

/// Whether a name looks like an interface name under the `I` + upper-case
/// convention used for stereotype tagging and edge-kind selection.
pub fn is_interface(s: &str) -> (r: bool)
    ensures
        r == spec_is_interface(s@),
{
    if s.unicode_len() < 2 {
        return false;
    }
    s.get_char(0) == 'I' && unicode_upper(s.get_char(1))
}

/// [`is_interface`], over a character vector.
pub fn is_interface_chars(s: &Vec<char>) -> (r: bool)
    ensures
        r == spec_is_interface(s@),
{
    if s.len() < 2 {
        return false;
    }
    s[0] == 'I' && unicode_upper(s[1])
}

} // verus!
