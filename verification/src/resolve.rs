//! The whole-run resolution pass: once every file has been seen, each
//! candidate edge is judged against the declared-name set, rewritten where a
//! declared name stands inside the field's generic markers, or dropped.

use vstd::prelude::*;

use crate::model::{Arrow, ArrowKind, ArrowV, RunState};
use crate::text::{contains_sub_chars, eq_chars, push_chars, spec_contains_sub, sub_vec};

verus! {

/// The name `n` was declared at least once during the run.
pub open spec fn spec_declared(classes: Seq<Seq<char>>, n: Seq<char>) -> bool {
    exists|k: int| 0 <= k < classes.len() && classes[k] == n
}

pub fn declared(classes: &Vec<Vec<char>>, n: &Vec<char>) -> (r: bool)
    ensures
        r == spec_declared(classes.deep_view(), n@),
{
    let ghost cv = classes.deep_view();
    let mut i: usize = 0;
    while i < classes.len()
        invariant
            i <= classes@.len(),
            cv == classes.deep_view(),
            cv.len() == classes@.len(),
            forall|k: int| 0 <= k < i ==> cv[k] != n@,
        decreases classes@.len() - i,
    {
        proof {
            assert(cv[i as int] == classes@[i as int].deep_view());
            assert(classes@[i as int].deep_view() =~= classes@[i as int]@);
        }
        if eq_chars(&classes[i], n) {
            return true;
        }
        i += 1;
    }
    false
}

/// The first declared name that stands wrapped in generic markers inside the
/// field type `t`, by declaration order, or `-1`.
pub open spec fn spec_generic_match(classes: Seq<Seq<char>>, t: Seq<char>, i: int) -> int
    decreases classes.len() - i,
{
    if i < 0 || i >= classes.len() {
        -1
    } else if spec_contains_sub(t, seq!['~'] + classes[i] + seq!['~']) {
        i
    } else {
        spec_generic_match(classes, t, i + 1)
    }
}

fn generic_match(classes: &Vec<Vec<char>>, t: &Vec<char>) -> (r: Option<usize>)
    ensures
        match r {
            Some(i) => i as int == spec_generic_match(classes.deep_view(), t@, 0) && i
                < classes@.len(),
            None => spec_generic_match(classes.deep_view(), t@, 0) == -1,
        },
{
    let ghost cv = classes.deep_view();
    let mut i: usize = 0;
    while i < classes.len()
        invariant
            i <= classes@.len(),
            cv == classes.deep_view(),
            cv.len() == classes@.len(),
            spec_generic_match(cv, t@, 0) == spec_generic_match(cv, t@, i as int),
        decreases classes@.len() - i,
    {
        proof {
            assert(cv[i as int] == classes@[i as int].deep_view());
            assert(classes@[i as int].deep_view() =~= classes@[i as int]@);
        }
        let mut pat: Vec<char> = Vec::new();
        pat.push('~');
        push_chars(&mut pat, &classes[i]);
        pat.push('~');
        assert(pat@ =~= seq!['~'] + cv[i as int] + seq!['~']);
        if contains_sub_chars(t, &pat) {
            return Some(i);
        }
        i += 1;
    }
    None
}

/// What the resolution rules make of one candidate edge: kept, rewritten to
/// an aggregation toward a declared generic argument, or dropped.
pub open spec fn spec_resolve_one(classes: Seq<Seq<char>>, a: ArrowV) -> Seq<ArrowV> {
    if a.kind == ArrowKind::Inheritance || a.kind == ArrowKind::Realization {
        if a.start != a.end {
            seq![a]
        } else {
            Seq::empty()
        }
    } else {
        if spec_declared(classes, a.start) {
            if spec_declared(classes, a.end) {
                if a.start != a.end {
                    seq![a]
                } else {
                    Seq::empty()
                }
            } else {
                let g = spec_generic_match(classes, a.field_type, 0);
                if g >= 0 && classes[g] != a.start {
                    seq![
                        ArrowV {
                            start: a.start,
                            end: classes[g],
                            kind: ArrowKind::Aggregation,
                            field_type: a.field_type,
                        },
                    ]
                } else {
                    Seq::empty()
                }
            }
        } else {
            Seq::empty()
        }
    }
}

/// The surviving edges, in candidate order.
pub open spec fn spec_resolve(classes: Seq<Seq<char>>, arrows: Seq<ArrowV>) -> Seq<ArrowV>
    decreases arrows.len(),
{
    if arrows.len() == 0 {
        Seq::empty()
    } else {
        spec_resolve(classes, arrows.drop_last()) + spec_resolve_one(classes, arrows.last())
    }
}

/// No surviving edge is a self-loop, whatever the candidates were.
pub proof fn lemma_resolve_no_self_loop(classes: Seq<Seq<char>>, arrows: Seq<ArrowV>)
    ensures
        forall|j: int|
            0 <= j < spec_resolve(classes, arrows).len() ==> spec_resolve(classes, arrows)[j].start
                != spec_resolve(classes, arrows)[j].end,
    decreases arrows.len(),
{
    if arrows.len() > 0 {
        lemma_resolve_no_self_loop(classes, arrows.drop_last());
    }
}

fn copy_chars(v: &Vec<char>) -> (r: Vec<char>)
    ensures
        r@ == v@,
{
    let r = sub_vec(v, 0, v.len());
    assert(r@ =~= v@);
    r
}

/// Applies the resolution rules to every candidate edge collected in the
/// run; the result holds no self-loop.
pub fn resolve_arrows(state: &RunState) -> (v: Vec<Arrow>)
    ensures
        v.deep_view() == spec_resolve(state@.classes, state@.arrows),
        forall|j: int|
            0 <= j < v.deep_view().len() ==> v.deep_view()[j].start != v.deep_view()[j].end,
{
    let ghost cv = state@.classes;
    let ghost av = state@.arrows;
    let mut out: Vec<Arrow> = Vec::new();
    let mut k: usize = 0;
    assert(av.take(0) =~~= Seq::<ArrowV>::empty());
    assert(out.deep_view() =~~= spec_resolve(cv, av.take(0)));
    while k < state.arrows.len()
        invariant
            k <= state.arrows@.len(),
            cv == state@.classes,
            av == state@.arrows,
            av.len() == state.arrows@.len(),
            out.deep_view() == spec_resolve(cv, av.take(k as int)),
        decreases state.arrows@.len() - k,
    {
        let ghost a = av[k as int];
        proof {
            assert(av[k as int] == state.arrows@[k as int].deep_view());
            assert(state.arrows@[k as int].deep_view() == state.arrows@[k as int]@);
        }
        let ar = &state.arrows[k];
        let ghost kept = spec_resolve_one(cv, a);
        let inh_or_real = match ar.kind {
            ArrowKind::Inheritance => true,
            ArrowKind::Realization => true,
            _ => false,
        };
        let self_loop = eq_chars(&ar.start, &ar.end);
        let ghost ov = out.deep_view();
        if inh_or_real {
            if !self_loop {
                let na = Arrow::new(
                    copy_chars(&ar.start),
                    copy_chars(&ar.end),
                    ar.kind,
                    copy_chars(&ar.field_type),
                );
                assert(na@ =~= a);
                out.push(na);
                proof {
                    assert(out.deep_view() =~~= ov.push(a));
                    assert(kept =~~= seq![a]);
                }
            } else {
                assert(kept =~~= Seq::<ArrowV>::empty());
            }
        } else {
            if declared(&state.classes, &ar.start) {
                if declared(&state.classes, &ar.end) {
                    if !self_loop {
                        let na = Arrow::new(
                            copy_chars(&ar.start),
                            copy_chars(&ar.end),
                            ar.kind,
                            copy_chars(&ar.field_type),
                        );
                        assert(na@ =~= a);
                        out.push(na);
                        proof {
                            assert(out.deep_view() =~~= ov.push(a));
                            assert(kept =~~= seq![a]);
                        }
                    } else {
                        assert(kept =~~= Seq::<ArrowV>::empty());
                    }
                } else {
                    match generic_match(&state.classes, &ar.field_type) {
                        Some(g) => {
                            proof {
                                assert(cv[g as int] == state.classes@[g as int].deep_view());
                                assert(state.classes@[g as int].deep_view() == state.classes@[g as int]@);
                            }
                            if !eq_chars(&state.classes[g], &ar.start) {
                                let na = Arrow::new(
                                    copy_chars(&ar.start),
                                    copy_chars(&state.classes[g]),
                                    ArrowKind::Aggregation,
                                    copy_chars(&ar.field_type),
                                );
                                out.push(na);
                                proof {
                                    assert(na@ =~= kept[0]);
                                    assert(out.deep_view() =~~= ov.push(na@));
                                    assert(ov.push(na@) =~~= ov + kept);
                                }
                            } else {
                                assert(kept =~~= Seq::<ArrowV>::empty());
                            }
                        },
                        None => {
                            assert(kept =~~= Seq::<ArrowV>::empty());
                        },
                    }
                }
            } else {
                assert(kept =~~= Seq::<ArrowV>::empty());
            }
        }
        proof {
            assert(av.take(k as int + 1).drop_last() =~~= av.take(k as int));
            assert(av.take(k as int + 1).last() == a);
            assert(spec_resolve(cv, av.take(k as int + 1)) == spec_resolve(cv, av.take(k as int))
                + kept);
            assert(out.deep_view() =~~= ov + kept);
        }
        k += 1;
    }
    assert(av.take(av.len() as int) =~~= av);
    proof {
        lemma_resolve_no_self_loop(cv, av);
    }
    out
}

/// The arrow token each relationship kind renders with: inheritance and
/// realization plain, aggregation with a many-multiplicity dependent side,
/// composition with one-to-one multiplicities.
pub open spec fn spec_arrow_token(k: ArrowKind) -> Seq<char> {
    match k {
        ArrowKind::Inheritance => "--|>"@,
        ArrowKind::Realization => "..|>"@,
        ArrowKind::Aggregation => "\"0..*\" --o \"1\""@,
        ArrowKind::Composition => "\"1\" --* \"1\""@,
    }
}

/// One rendered relationship line.
pub open spec fn spec_render_arrow(a: ArrowV) -> Seq<char> {
    "\n"@ + a.start + " "@ + spec_arrow_token(a.kind) + " "@ + a.end
}

/// All surviving edges rendered, in order.
pub open spec fn spec_render_arrows(arrows: Seq<ArrowV>) -> Seq<char>
    decreases arrows.len(),
{
    if arrows.len() == 0 {
        Seq::empty()
    } else {
        spec_render_arrows(arrows.drop_last()) + spec_render_arrow(arrows.last())
    }
}

/// Renders the surviving edges as relationship lines.
pub fn render_arrows(arrows: &Vec<Arrow>) -> (v: Vec<char>)
    ensures
        v@ == spec_render_arrows(arrows.deep_view()),
{
    let ghost av = arrows.deep_view();
    let mut out: Vec<char> = Vec::new();
    let mut k: usize = 0;
    assert(av.take(0) =~~= Seq::<ArrowV>::empty());
    while k < arrows.len()
        invariant
            k <= arrows@.len(),
            av == arrows.deep_view(),
            av.len() == arrows@.len(),
            out@ == spec_render_arrows(av.take(k as int)),
        decreases arrows@.len() - k,
    {
        proof {
            assert(av[k as int] == arrows@[k as int].deep_view());
            assert(arrows@[k as int].deep_view() == arrows@[k as int]@);
        }
        let a = &arrows[k];
        crate::text::push_str_chars(&mut out, "\n");
        push_chars(&mut out, &a.start);
        crate::text::push_str_chars(&mut out, " ");
        match a.kind {
            ArrowKind::Inheritance => crate::text::push_str_chars(&mut out, "--|>"),
            ArrowKind::Realization => crate::text::push_str_chars(&mut out, "..|>"),
            ArrowKind::Aggregation => crate::text::push_str_chars(&mut out, "\"0..*\" --o \"1\""),
            ArrowKind::Composition => crate::text::push_str_chars(&mut out, "\"1\" --* \"1\""),
        }
        crate::text::push_str_chars(&mut out, " ");
        push_chars(&mut out, &a.end);
        proof {
            assert(av.take(k as int + 1).drop_last() =~~= av.take(k as int));
            assert(av.take(k as int + 1).last() == av[k as int]);
            assert(out@ =~= spec_render_arrows(av.take(k as int + 1)));
        }
        k += 1;
    }
    assert(av.take(av.len() as int) =~~= av);
    out
}

} // verus!
