//! The whole-run driver: the diagram header, the accessor-tag merge pass over
//! the accumulated text, and the extraction of a whole tree of files into one
//! finished diagram document.

use vstd::prelude::*;

use crate::extract::{extract_file, spec_extract};
use crate::model::RunState;
use crate::resolve::{render_arrows, resolve_arrows, spec_render_arrows, spec_resolve};
use crate::text::{push_chars, push_str_chars, replace_all, spec_replace_all};

verus! {

/// The fixed first lines of every diagram: the document kind and the layout
/// direction.
pub open spec fn spec_header() -> Seq<char> {
    "classDiagram\ndirection RL"@
}

pub fn header() -> (v: Vec<char>)
    ensures
        v@ == spec_header(),
{
    let mut v: Vec<char> = Vec::new();
    push_str_chars(&mut v, "classDiagram\ndirection RL");
    assert(v@ =~= spec_header());
    v
}

/// Adjacent get and set annotations merged into one combined tag, by a
/// literal substitution pass over the whole accumulated text.
pub open spec fn spec_merge_tags(s: Seq<char>) -> Seq<char> {
    spec_replace_all(s, "~~get~~, ~~set~~"@, "~~get + set~~"@)
}

pub fn merge_accessor_tags(s: &Vec<char>) -> (v: Vec<char>)
    ensures
        v@ == spec_merge_tags(s@),
{
    replace_all(s, "~~get~~, ~~set~~", "~~get + set~~")
}

/// The concatenated text fragments of every file, in scan order.
pub open spec fn spec_tree_body(files: Seq<Seq<Seq<char>>>) -> Seq<char>
    decreases files.len(),
{
    if files.len() == 0 {
        Seq::empty()
    } else {
        spec_tree_body(files.drop_last()) + spec_extract(files.last()).out
    }
}

/// The declared names of every file, in scan order.
pub open spec fn spec_tree_classes(files: Seq<Seq<Seq<char>>>) -> Seq<Seq<char>>
    decreases files.len(),
{
    if files.len() == 0 {
        Seq::empty()
    } else {
        spec_tree_classes(files.drop_last()) + spec_extract(files.last()).classes
    }
}

/// The candidate edges of every file, in scan order.
pub open spec fn spec_tree_arrows(files: Seq<Seq<Seq<char>>>) -> Seq<crate::model::ArrowV>
    decreases files.len(),
{
    if files.len() == 0 {
        Seq::empty()
    } else {
        spec_tree_arrows(files.drop_last()) + spec_extract(files.last()).arrows
    }
}

/// The finished document for a tree of files: header and type blocks with
/// accessor tags merged, then every surviving edge. The output is a function
/// of the input files alone, so an unchanged tree renders byte-identically.
pub open spec fn spec_extract_tree(files: Seq<Seq<Seq<char>>>) -> Seq<char> {
    spec_merge_tags(spec_header() + spec_tree_body(files)) + spec_render_arrows(
        spec_resolve(spec_tree_classes(files), spec_tree_arrows(files)),
    )
}

/// Extracts a whole tree of files, given as their raw lines in scan order,
/// into one finished diagram document.
pub fn extract_tree(files: &Vec<Vec<Vec<char>>>) -> (v: Vec<char>)
    ensures
        v@ == spec_extract_tree(files.deep_view()),
{
    let ghost fv = files.deep_view();
    let mut st = RunState::new();
    let mut body: Vec<char> = header();
    let mut i: usize = 0;
    assert(fv.take(0) =~~= Seq::<Seq<Seq<char>>>::empty());
    assert(body@ =~= spec_header() + spec_tree_body(fv.take(0)));
    assert(st@.classes =~~= spec_tree_classes(fv.take(0)));
    assert(st@.arrows =~~= spec_tree_arrows(fv.take(0)));
    while i < files.len()
        invariant
            i <= files@.len(),
            fv == files.deep_view(),
            fv.len() == files@.len(),
            body@ == spec_header() + spec_tree_body(fv.take(i as int)),
            st@.classes == spec_tree_classes(fv.take(i as int)),
            st@.arrows == spec_tree_arrows(fv.take(i as int)),
        decreases files@.len() - i,
    {
        proof {
            assert(fv[i as int] == files@[i as int].deep_view());
        }
        let frag = extract_file(&files[i], &mut st);
        push_chars(&mut body, &frag);
        proof {
            assert(fv.take(i as int + 1).drop_last() =~~= fv.take(i as int));
            assert(fv.take(i as int + 1).last() == fv[i as int]);
            assert(body@ =~= spec_header() + spec_tree_body(fv.take(i as int + 1)));
            assert(st@.classes =~~= spec_tree_classes(fv.take(i as int + 1)));
            assert(st@.arrows =~~= spec_tree_arrows(fv.take(i as int + 1)));
        }
        i += 1;
    }
    assert(fv.take(fv.len() as int) =~~= fv);
    let mut merged = merge_accessor_tags(&body);
    let resolved = resolve_arrows(&st);
    let tail = render_arrows(&resolved);
    push_chars(&mut merged, &tail);
    assert(merged@ =~= spec_extract_tree(fv));
    merged
}

} // verus!
