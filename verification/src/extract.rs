//! The per-file extraction engine: every normalized line is classified and
//! dispatched, the rendered text accumulates in file order, and declared
//! names and candidate edges flow into the whole-run accumulator.

use vstd::prelude::*;

use crate::model::{Arrow, ArrowKind, ArrowV, RunState};
use crate::parse::{
    classify, dc_value, enum_fragment, markup_class, markup_member, method_fragment, open_fragment,
    parse_property, parse_type_decl, spec_classify, spec_dc_value, spec_enum_fragment,
    spec_enum_name, spec_markup_class, spec_markup_member, spec_method_fragment, spec_open_fragment,
    spec_property_arrows, spec_property_fragment, spec_type_arrows, spec_type_fragment,
    spec_type_name, LineKind,
};
use crate::text::{normalize_line, push_chars, push_str_chars, spec_normalize, sub_vec};

verus! {

/// The state of one file's extraction: the text produced so far, the names
/// and edges contributed so far, whether a type block is open, the name of
/// the current type, and the last captured binding-context value.
#[verifier::ext_equal]
pub ghost struct FileSt {
    pub out: Seq<char>,
    pub classes: Seq<Seq<char>>,
    pub arrows: Seq<ArrowV>,
    pub open_block: bool,
    pub cname: Seq<char>,
    pub dc: Seq<char>,
}

/// The state before any line of a file has been seen.
pub open spec fn spec_file_init() -> FileSt {
    FileSt {
        out: Seq::empty(),
        classes: Seq::empty(),
        arrows: Seq::empty(),
        open_block: false,
        cname: Seq::empty(),
        dc: Seq::empty(),
    }
}

/// One classification-and-dispatch step over line `i` of the normalized file.
pub open spec fn spec_step(st: FileSt, lines: Seq<Seq<char>>, i: int) -> FileSt {
    let line = lines[i];
    match spec_classify(line, st.open_block) {
        LineKind::TypeDecl => FileSt {
            out: st.out + spec_type_fragment(line),
            classes: st.classes.push(spec_type_name(line)),
            arrows: st.arrows + spec_type_arrows(line),
            open_block: true,
            cname: spec_type_name(line),
            dc: st.dc,
        },
        LineKind::MethodDecl => FileSt { out: st.out + spec_method_fragment(line), ..st },
        LineKind::EnumDecl => FileSt {
            out: st.out + spec_enum_fragment(lines, i),
            classes: st.classes.push(spec_enum_name(line)),
            ..st
        },
        LineKind::PropertyDecl => FileSt {
            out: st.out + spec_property_fragment(line),
            arrows: st.arrows + spec_property_arrows(line, st.cname),
            ..st
        },
        LineKind::GetFragment => FileSt { out: st.out + ", ~~get~~"@, ..st },
        LineKind::SetFragment => FileSt { out: st.out + ", ~~set~~"@, ..st },
        LineKind::DataContextDecl => FileSt { dc: spec_dc_value(line), ..st },
        LineKind::MarkupBinding => FileSt {
            out: st.out + if st.open_block {
                spec_markup_member(line)
            } else {
                Seq::empty()
            },
            ..st
        },
        LineKind::MarkupClassName => {
            let name = spec_markup_class(line);
            if st.open_block || name.len() == 0 {
                st
            } else {
                FileSt {
                    out: st.out + spec_open_fragment(name),
                    classes: st.classes.push(name),
                    open_block: true,
                    cname: name,
                    ..st
                }
            }
        },
        LineKind::Unclassified => st,
    }
}

/// The state after the first `n` normalized lines.
pub open spec fn spec_fold(lines: Seq<Seq<char>>, n: int) -> FileSt
    decreases n,
{
    if n <= 0 {
        spec_file_init()
    } else {
        spec_step(spec_fold(lines, n - 1), lines, n - 1)
    }
}

/// End-of-file work: the open block is closed, and a captured binding
/// context under an established type name becomes a realization hint.
pub open spec fn spec_finalize(st: FileSt) -> FileSt {
    let st1 = if st.open_block {
        FileSt { out: st.out + "\n\t}"@, ..st }
    } else {
        st
    };
    if st.dc.len() > 0 && st.cname.len() > 0 {
        FileSt {
            arrows: st1.arrows.push(
                ArrowV {
                    start: st.cname,
                    end: st.dc,
                    kind: ArrowKind::Realization,
                    field_type: Seq::empty(),
                },
            ),
            ..st1
        }
    } else {
        st1
    }
}

/// The raw lines of a file after normalization.
pub open spec fn spec_norm_lines(raw: Seq<Seq<char>>) -> Seq<Seq<char>> {
    raw.map_values(|l: Seq<char>| spec_normalize(l))
}

/// Everything one file contributes, from its raw lines.
pub open spec fn spec_extract(raw: Seq<Seq<char>>) -> FileSt {
    let nl = spec_norm_lines(raw);
    spec_finalize(spec_fold(nl, nl.len() as int))
}

/// Extracts one file: returns its rendered text fragment and appends its
/// declared names and candidate edges to the whole-run accumulator.
pub fn extract_file(lines: &Vec<Vec<char>>, state: &mut RunState) -> (out: Vec<char>)
    ensures
        out@ == spec_extract(lines.deep_view()).out,
        final(state)@.classes == old(state)@.classes + spec_extract(lines.deep_view()).classes,
        final(state)@.arrows == old(state)@.arrows + spec_extract(lines.deep_view()).arrows,
{
    let ghost raw = lines.deep_view();
    let mut norm: Vec<Vec<char>> = Vec::new();
    let mut i: usize = 0;
    assert(norm.deep_view() =~~= raw.take(0).map_values(|l: Seq<char>| spec_normalize(l)));
    while i < lines.len()
        invariant
            i <= lines@.len(),
            raw == lines.deep_view(),
            raw.len() == lines@.len(),
            norm.deep_view() == raw.take(i as int).map_values(|l: Seq<char>| spec_normalize(l)),
        decreases lines@.len() - i,
    {
        proof {
            assert(raw[i as int] == lines@[i as int].deep_view());
            assert(lines@[i as int].deep_view() =~= lines@[i as int]@);
        }
        let n = normalize_line(&lines[i]);
        let ghost nv = norm.deep_view();
        let ghost ne = n@;
        norm.push(n);
        proof {
            assert(norm.deep_view() =~~= nv.push(ne));
            assert(raw.take(i as int + 1) =~~= raw.take(i as int).push(raw[i as int]));
            assert(norm.deep_view() =~~= raw.take(i as int + 1).map_values(
                |l: Seq<char>| spec_normalize(l),
            ));
        }
        i += 1;
    }
    assert(raw.take(raw.len() as int) =~~= raw);
    let ghost nl = norm.deep_view();
    assert(nl == spec_norm_lines(raw));

    let mut out: Vec<char> = Vec::new();
    let mut classes: Vec<Vec<char>> = Vec::new();
    let mut arrows: Vec<Arrow> = Vec::new();
    let mut open_b: bool = false;
    let mut cname: Vec<char> = Vec::new();
    let mut dc: Vec<char> = Vec::new();
    let mut k: usize = 0;
    proof {
        let st0 = spec_fold(nl, 0);
        assert(st0 == spec_file_init());
        assert(out@ =~= st0.out);
        assert(classes.deep_view() =~~= st0.classes);
        assert(arrows.deep_view() =~~= st0.arrows);
        assert(cname@ =~= st0.cname);
        assert(dc@ =~= st0.dc);
    }
    while k < norm.len()
        invariant
            k <= norm@.len(),
            nl == norm.deep_view(),
            nl.len() == norm@.len(),
            out@ == spec_fold(nl, k as int).out,
            classes.deep_view() == spec_fold(nl, k as int).classes,
            arrows.deep_view() == spec_fold(nl, k as int).arrows,
            open_b == spec_fold(nl, k as int).open_block,
            cname@ == spec_fold(nl, k as int).cname,
            dc@ == spec_fold(nl, k as int).dc,
        decreases norm@.len() - k,
    {
        let ghost st0 = spec_fold(nl, k as int);
        let ghost st1 = spec_fold(nl, k as int + 1);
        proof {
            assert(st1 == spec_step(st0, nl, k as int));
            assert(nl[k as int] == norm@[k as int].deep_view());
            assert(norm@[k as int].deep_view() =~= norm@[k as int]@);
        }
        let kind = classify(&norm[k], open_b);
        match kind {
            LineKind::TypeDecl => {
                let (name, frag, mut tarrows) = parse_type_decl(&norm[k]);
                push_chars(&mut out, &frag);
                let name2 = sub_vec(&name, 0, name.len());
                assert(name2@ =~= name@);
                let ghost cv = classes.deep_view();
                classes.push(name2);
                let ghost av = arrows.deep_view();
                let ghost tv = tarrows.deep_view();
                arrows.append(&mut tarrows);
                open_b = true;
                cname = name;
                proof {
                    assert(classes.deep_view() =~~= cv.push(st1.cname));
                    assert(arrows.deep_view() =~~= av + tv);
                }
            },
            LineKind::MethodDecl => {
                let frag = method_fragment(&norm[k]);
                push_chars(&mut out, &frag);
            },
            LineKind::EnumDecl => {
                assert(k < norm@.len());
                let (ename, frag) = enum_fragment(&norm, k);
                push_chars(&mut out, &frag);
                let ghost cv = classes.deep_view();
                classes.push(ename);
                proof {
                    assert(classes.deep_view() =~~= cv.push(spec_enum_name(nl[k as int])));
                }
            },
            LineKind::PropertyDecl => {
                let (frag, mut pa) = parse_property(&norm[k], &cname);
                push_chars(&mut out, &frag);
                let ghost av = arrows.deep_view();
                let ghost pv = pa.deep_view();
                arrows.append(&mut pa);
                proof {
                    assert(arrows.deep_view() =~~= av + pv);
                }
            },
            LineKind::GetFragment => {
                push_str_chars(&mut out, ", ~~get~~");
            },
            LineKind::SetFragment => {
                push_str_chars(&mut out, ", ~~set~~");
            },
            LineKind::DataContextDecl => {
                dc = dc_value(&norm[k]);
            },
            LineKind::MarkupBinding => {
                if open_b {
                    let frag = markup_member(&norm[k]);
                    push_chars(&mut out, &frag);
                } else {
                    assert(out@ =~= st1.out);
                }
            },
            LineKind::MarkupClassName => {
                if !open_b {
                    let name = markup_class(&norm[k]);
                    if name.len() > 0 {
                        let frag = open_fragment(&name);
                        push_chars(&mut out, &frag);
                        let name2 = sub_vec(&name, 0, name.len());
                        assert(name2@ =~= name@);
                        let ghost cv = classes.deep_view();
                        classes.push(name2);
                        open_b = true;
                        cname = name;
                        proof {
                            assert(classes.deep_view() =~~= cv.push(st1.cname));
                        }
                    }
                }
            },
            LineKind::Unclassified => {},
        }
        proof {
            assert(out@ == st1.out);
            assert(classes.deep_view() == st1.classes);
            assert(arrows.deep_view() == st1.arrows);
            assert(open_b == st1.open_block);
            assert(cname@ == st1.cname);
            assert(dc@ == st1.dc);
        }
        k += 1;
    }
    let ghost stf = spec_fold(nl, nl.len() as int);
    if open_b {
        push_str_chars(&mut out, "\n\t}");
    }
    if dc.len() > 0 && cname.len() > 0 {
        let cn = sub_vec(&cname, 0, cname.len());
        assert(cn@ =~= cname@);
        let a = Arrow::new(cn, dc, ArrowKind::Realization, Vec::new());
        let ghost av = arrows.deep_view();
        arrows.push(a);
        proof {
            assert(arrows.deep_view() =~~= av.push(a@));
        }
    }
    let ghost fin = spec_extract(raw);
    proof {
        assert(fin == spec_finalize(stf));
        assert(out@ == fin.out);
        assert(classes.deep_view() == fin.classes);
        assert(arrows.deep_view() =~~= fin.arrows);
    }
    let ghost sc = state.classes.deep_view();
    let ghost sa = state.arrows.deep_view();
    let ghost cv = classes.deep_view();
    let ghost av = arrows.deep_view();
    state.classes.append(&mut classes);
    state.arrows.append(&mut arrows);
    proof {
        assert(state.classes.deep_view() =~~= sc + cv);
        assert(state.arrows.deep_view() =~~= sa + av);
    }
    out
}

} // verus!
