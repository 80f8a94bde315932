//! The line classifier and the signature parsers: every normalized line is
//! assigned exactly one category, and the categories that carry structure
//! (type, method, enum, property, markup declarations) are taken apart into
//! their fields by pattern capture over character runs.

use vstd::prelude::*;

use crate::model::{spec_is_interface, ArrowKind, ArrowV};
use crate::split::{spec_comma_items, spec_comma_split_all, spec_join, spec_split_char, spec_tokens};
use crate::text::{
    is_ident_char, is_space, spec_contains_char, spec_contains_sub, spec_ends_char, spec_find_char,
    spec_find_sub, spec_find_token, spec_has_token, spec_ident_end, spec_matches_at,
    spec_name_start, spec_skip_spaces, spec_starts_token, spec_token_at, spec_trim,
};
use crate::text::{
    contains_char, contains_sub, ends_char, eq_str, find_char, find_sub, find_token, ident_end,
    matches_at, name_start, push_chars, push_str_chars, skip_spaces, starts_token, sub_vec,
};

verus! {

/// The closed set of categories a normalized line can fall in. Classification
/// is order-sensitive and mutually exclusive: a line gets exactly one.
#[derive(Clone, Copy, Debug, PartialEq, Eq, Structural)]
pub enum LineKind {
    TypeDecl,
    MethodDecl,
    EnumDecl,
    PropertyDecl,
    GetFragment,
    SetFragment,
    DataContextDecl,
    MarkupBinding,
    MarkupClassName,
    Unclassified,
}

/// The access-modifier keywords that may begin a declaration line.
pub open spec fn spec_is_access_kw(t: Seq<char>) -> bool {
    t == "public"@ || t == "private"@ || t == "protected"@ || t == "internal"@
}

/// `s` begins with an access-modifier keyword as a whole word.
pub open spec fn spec_starts_access(s: Seq<char>) -> bool {
    spec_starts_token(s, "public"@) || spec_starts_token(s, "private"@) || spec_starts_token(
        s,
        "protected"@,
    ) || spec_starts_token(s, "internal"@)
}

/// The access keyword that begins `s`, or empty.
pub open spec fn spec_access_kw(s: Seq<char>) -> Seq<char> {
    if spec_starts_token(s, "public"@) {
        "public"@
    } else if spec_starts_token(s, "private"@) {
        "private"@
    } else if spec_starts_token(s, "protected"@) {
        "protected"@
    } else if spec_starts_token(s, "internal"@) {
        "internal"@
    } else {
        Seq::empty()
    }
}

pub fn starts_access(s: &Vec<char>) -> (r: bool)
    ensures
        r == spec_starts_access(s@),
{
    starts_token(s, "public") || starts_token(s, "private") || starts_token(s, "protected")
        || starts_token(s, "internal")
}

pub fn access_kw(s: &Vec<char>) -> (v: Vec<char>)
    ensures
        v@ == spec_access_kw(s@),
{
    let mut v: Vec<char> = Vec::new();
    if starts_token(s, "public") {
        push_str_chars(&mut v, "public");
    } else if starts_token(s, "private") {
        push_str_chars(&mut v, "private");
    } else if starts_token(s, "protected") {
        push_str_chars(&mut v, "protected");
    } else if starts_token(s, "internal") {
        push_str_chars(&mut v, "internal");
    }
    assert(v@ =~= spec_access_kw(s@));
    v
}

/// The single modifier keywords a method declaration may carry.
pub open spec fn spec_is_method_modifier(t: Seq<char>) -> bool {
    t == "static"@ || t == "virtual"@ || t == "abstract"@ || t == "override"@ || t == "async"@
        || t == "sealed"@ || t == seq!['e', 'x', 't', 'e', 'r', 'n'] || t == seq!['u', 'n', 's',
        'a', 'f', 'e'] || t == "partial"@ || t == "readonly"@
}

/// The modifier keywords a property declaration may carry; `event` is
/// distinguished because it adds an annotation to the rendered member.
pub open spec fn spec_is_prop_modifier(t: Seq<char>) -> bool {
    spec_is_method_modifier(t) || t == "event"@
}

fn eq_seq6(t: &Vec<char>, c0: char, c1: char, c2: char, c3: char, c4: char, c5: char) -> (r: bool)
    ensures
        r == (t@ == seq![c0, c1, c2, c3, c4, c5]),
{
    if t.len() != 6 {
        return false;
    }
    let r = t[0] == c0 && t[1] == c1 && t[2] == c2 && t[3] == c3 && t[4] == c4 && t[5] == c5;
    if r {
        assert(t@ =~= seq![c0, c1, c2, c3, c4, c5]);
    } else {
        assert(t@ != seq![c0, c1, c2, c3, c4, c5]);
    }
    r
}

pub fn is_method_modifier(t: &Vec<char>) -> (r: bool)
    ensures
        r == spec_is_method_modifier(t@),
{
    eq_str(t, "static") || eq_str(t, "virtual") || eq_str(t, "abstract") || eq_str(t, "override")
        || eq_str(t, "async") || eq_str(t, "sealed") || eq_seq6(t, 'e', 'x', 't', 'e', 'r', 'n')
        || eq_seq6(t, 'u', 'n', 's', 'a', 'f', 'e') || eq_str(t, "partial") || eq_str(t, "readonly")
}

pub fn is_prop_modifier(t: &Vec<char>) -> (r: bool)
    ensures
        r == spec_is_prop_modifier(t@),
{
    is_method_modifier(t) || eq_str(t, "event")
}

/// The visibility glyph a member line is prefixed with.
pub open spec fn spec_glyph(vis: Seq<char>) -> Seq<char> {
    if vis == "private"@ {
        "- "@
    } else if vis == "protected"@ {
        "# "@
    } else {
        "+ "@
    }
}

pub fn glyph(vis: &Vec<char>) -> (v: Vec<char>)
    ensures
        v@ == spec_glyph(vis@),
{
    let mut v: Vec<char> = Vec::new();
    if eq_str(vis, "private") {
        push_str_chars(&mut v, "- ");
    } else if eq_str(vis, "protected") {
        push_str_chars(&mut v, "# ");
    } else {
        push_str_chars(&mut v, "+ ");
    }
    assert(v@ =~= spec_glyph(vis@));
    v
}

/// `s` holds an opening parenthesis with a closing one somewhere after it.
pub open spec fn spec_has_paren_pair(s: Seq<char>) -> bool {
    exists|i: int, j: int| 0 <= i < j < s.len() && s[i] == '(' && s[j] == ')'
}

pub fn has_paren_pair(s: &Vec<char>) -> (r: bool)
    ensures
        r == spec_has_paren_pair(s@),
{
    let p = find_char(s, '(', 0);
    if p == s.len() {
        return false;
    }
    let q = find_char(s, ')', p + 1);
    if q == s.len() {
        proof {
            crate::text::lemma_find_char_props(s@, '(', 0);
            crate::text::lemma_find_char_props(s@, ')', p as int + 1);
            assert forall|i: int, j: int|
                0 <= i < j < s@.len() && s@[i] == '(' implies s@[j] != ')' by {
                assert(i >= p);
                assert(j >= p + 1);
            }
        }
        return false;
    }
    assert(p < q < s@.len() && s@[p as int] == '(' && s@[q as int] == ')');
    true
}

/// The position right after `enum` and its following whitespace, or `-1` when
/// the line holds no `enum` keyword followed by whitespace.
pub open spec fn spec_enum_name_start(s: Seq<char>) -> int {
    let p = spec_find_token(s, "enum"@, 0);
    if p < 0 {
        -1
    } else {
        let q = spec_skip_spaces(s, p + "enum"@.len());
        if q == p + "enum"@.len() {
            -1
        } else {
            q
        }
    }
}

/// The name captured by an enum declaration, or empty.
pub open spec fn spec_enum_name(s: Seq<char>) -> Seq<char> {
    let q = spec_enum_name_start(s);
    if q < 0 {
        Seq::empty()
    } else {
        s.subrange(q, spec_ident_end(s, q))
    }
}

/// The line declares an enum: the keyword, whitespace, and a name.
pub open spec fn spec_enum_ok(s: Seq<char>) -> bool {
    spec_enum_name(s).len() > 0
}

pub fn enum_name(s: &Vec<char>) -> (v: Vec<char>)
    ensures
        v@ == spec_enum_name(s@),
        spec_enum_ok(s@) == (v@.len() > 0),
{
    match find_token(s, "enum", 0) {
        None => {
            assert(spec_enum_name(s@) =~= Seq::<char>::empty());
            Vec::new()
        },
        Some(p) => {
            let kl: usize = "enum".unicode_len();
            proof {
                crate::text::lemma_find_token_props(s@, "enum"@, 0);
                assert(spec_token_at(s@, p as int, "enum"@));
            }
            assert(p + kl <= s.len());
            let q = skip_spaces(s, p + kl);
            if q == p + kl {
                assert(spec_enum_name(s@) =~= Seq::<char>::empty());
                Vec::new()
            } else {
                let r = ident_end(s, q);
                sub_vec(s, q, r)
            }
        },
    }
}

/// Classification of one normalized line, given whether a type block is open.
pub open spec fn spec_classify(s: Seq<char>, open_block: bool) -> LineKind {
    if spec_contains_sub(s, " operator "@) {
        LineKind::Unclassified
    } else if spec_contains_sub(s, "DataContext =~ "@) {
        LineKind::DataContextDecl
    } else if spec_starts_access(s) && (spec_has_token(s, "class"@) || spec_has_token(
        s,
        "interface"@,
    )) && !open_block && !spec_ends_char(s, ';') {
        LineKind::TypeDecl
    } else if spec_starts_access(s) && spec_has_paren_pair(s) && !spec_contains_char(s, '=')
        && !spec_contains_sub(s, " new "@) {
        LineKind::MethodDecl
    } else if spec_enum_ok(s) {
        LineKind::EnumDecl
    } else if spec_starts_access(s) {
        LineKind::PropertyDecl
    } else if spec_starts_token(s, "get"@) {
        LineKind::GetFragment
    } else if spec_starts_token(s, "set"@) {
        LineKind::SetFragment
    } else if spec_contains_sub(s, "x:Name=\""@) {
        LineKind::MarkupBinding
    } else if spec_contains_sub(s, "x:Class=\""@) {
        LineKind::MarkupClassName
    } else {
        LineKind::Unclassified
    }
}

pub fn classify(s: &Vec<char>, open_block: bool) -> (k: LineKind)
    ensures
        k == spec_classify(s@, open_block),
{
    proof {
        reveal_strlit("class");
        reveal_strlit("interface");
    }
    if contains_sub(s, " operator ") {
        LineKind::Unclassified
    } else if contains_sub(s, "DataContext =~ ") {
        LineKind::DataContextDecl
    } else if starts_access(s) && (has_token_class(s) || has_token_interface(s)) && !open_block
        && !ends_char(s, ';') {
        LineKind::TypeDecl
    } else if starts_access(s) && has_paren_pair(s) && !contains_char(s, '=') && !contains_sub(
        s,
        " new ",
    ) {
        LineKind::MethodDecl
    } else if {
        let n = enum_name(s);
        n.len() > 0
    } {
        LineKind::EnumDecl
    } else if starts_access(s) {
        LineKind::PropertyDecl
    } else if starts_token(s, "get") {
        LineKind::GetFragment
    } else if starts_token(s, "set") {
        LineKind::SetFragment
    } else if contains_sub(s, "x:Name=\"") {
        LineKind::MarkupBinding
    } else if contains_sub(s, "x:Class=\"") {
        LineKind::MarkupClassName
    } else {
        LineKind::Unclassified
    }
}

/// The tokens a type-declaration line splits into: generic spans collapsed to
/// the placeholder, colons spaced, whitespace split, commas split away.
pub open spec fn spec_type_tokens(line: Seq<char>) -> Seq<Seq<char>> {
    spec_comma_split_all(
        spec_tokens(crate::text::spec_colon_spaced(crate::text::spec_collapse(line))),
    )
}

/// The first token that is exactly a colon, or `-1`.
pub open spec fn spec_colon_index(toks: Seq<Seq<char>>, i: int) -> int
    decreases toks.len() - i,
{
    if i < 0 || i >= toks.len() {
        -1
    } else if toks[i] == seq![':'] {
        i
    } else {
        spec_colon_index(toks, i + 1)
    }
}

/// The declared type name: the token before the inheritance colon, or the
/// last token when there is no colon.
pub open spec fn spec_type_name(line: Seq<char>) -> Seq<char> {
    let toks = spec_type_tokens(line);
    let ci = spec_colon_index(toks, 0);
    if ci >= 1 {
        toks[ci - 1]
    } else if ci == -1 && toks.len() >= 1 {
        toks.last()
    } else {
        Seq::empty()
    }
}

/// The base-type names after the inheritance colon.
pub open spec fn spec_type_bases(line: Seq<char>) -> Seq<Seq<char>> {
    let toks = spec_type_tokens(line);
    let ci = spec_colon_index(toks, 0);
    if ci >= 0 {
        toks.skip(ci + 1)
    } else {
        Seq::empty()
    }
}

/// The candidate edge one base type contributes: realization for an
/// interface-shaped base, inheritance otherwise.
pub open spec fn spec_base_arrow(name: Seq<char>, base: Seq<char>) -> ArrowV {
    ArrowV {
        start: name,
        end: base,
        kind: if spec_is_interface(base) {
            ArrowKind::Realization
        } else {
            ArrowKind::Inheritance
        },
        field_type: Seq::empty(),
    }
}

/// All candidate edges a type-declaration line contributes.
pub open spec fn spec_type_arrows(line: Seq<char>) -> Seq<ArrowV> {
    spec_type_bases(line).map_values(|b: Seq<char>| spec_base_arrow(spec_type_name(line), b))
}

/// The block opening a declared name contributes, plus the interface
/// stereotype when the name is interface-shaped.
pub open spec fn spec_open_fragment(name: Seq<char>) -> Seq<char> {
    "\n\tclass "@ + name + " {"@ + if spec_is_interface(name) {
        "\n\t\t<<interface>>"@
    } else {
        Seq::empty()
    }
}

/// The text a type-declaration line contributes.
pub open spec fn spec_type_fragment(line: Seq<char>) -> Seq<char> {
    spec_open_fragment(spec_type_name(line))
}

/// Renders the block opening for a declared name.
pub fn open_fragment(name: &Vec<char>) -> (v: Vec<char>)
    ensures
        v@ == spec_open_fragment(name@),
{
    let mut v: Vec<char> = Vec::new();
    push_str_chars(&mut v, "\n\tclass ");
    push_chars(&mut v, name);
    push_str_chars(&mut v, " {");
    if crate::model::is_interface_chars(name) {
        push_str_chars(&mut v, "\n\t\t<<interface>>");
    }
    assert(v@ =~= spec_open_fragment(name@));
    v
}

fn colon_index(toks: &Vec<Vec<char>>) -> (r: Option<usize>)
    ensures
        match r {
            Some(i) => i as int == spec_colon_index(toks.deep_view(), 0) && i < toks@.len(),
            None => spec_colon_index(toks.deep_view(), 0) == -1,
        },
{
    let ghost tv = toks.deep_view();
    let mut i: usize = 0;
    while i < toks.len()
        invariant
            i <= toks@.len(),
            tv == toks.deep_view(),
            tv.len() == toks@.len(),
            spec_colon_index(tv, 0) == spec_colon_index(tv, i as int),
        decreases toks@.len() - i,
    {
        proof {
            assert(tv[i as int] == toks@[i as int].deep_view());
            assert(toks@[i as int].deep_view() =~= toks@[i as int]@);
        }
        let is_colon = toks[i].len() == 1 && toks[i][0] == ':';
        if is_colon {
            assert(tv[i as int] =~= seq![':']);
            return Some(i);
        }
        assert(tv[i as int] != seq![':']) by {
            if toks@[i as int]@.len() == 1 {
                assert(toks@[i as int]@[0] != ':');
            }
        }
        i += 1;
    }
    None
}

/// Parses a type-declaration line: returns the declared name, the rendered
/// block-opening fragment, and the base-type candidate edges.
pub fn parse_type_decl(line: &Vec<char>) -> (r: (Vec<char>, Vec<char>, Vec<crate::model::Arrow>))
    ensures
        r.0@ == spec_type_name(line@),
        r.1@ == spec_type_fragment(line@),
        r.2.deep_view() == spec_type_arrows(line@),
{
    let collapsed = crate::text::collapse_generics(line);
    let spaced = crate::text::colon_spaced(&collapsed);
    let toks = crate::split::tokens(&spaced);
    let all = crate::split::comma_split_all(&toks);
    let ghost tv = all.deep_view();
    assert(tv == spec_type_tokens(line@));
    let ci = colon_index(&all);
    let name: Vec<char> = match ci {
        Some(c) => {
            if c >= 1 {
                proof {
                    assert(tv[c as int - 1] == all@[c as int - 1].deep_view());
                    assert(all@[c as int - 1].deep_view() =~= all@[c as int - 1]@);
                }
                sub_vec(&all[c - 1], 0, all[c - 1].len())
            } else {
                assert(spec_type_name(line@) =~= Seq::<char>::empty());
                Vec::new()
            }
        },
        None => {
            if all.len() >= 1 {
                proof {
                    assert(tv.last() == all@[all@.len() - 1].deep_view());
                    assert(all@[all@.len() - 1].deep_view() =~= all@[all@.len() - 1]@);
                }
                sub_vec(&all[all.len() - 1], 0, all[all.len() - 1].len())
            } else {
                assert(spec_type_name(line@) =~= Seq::<char>::empty());
                Vec::new()
            }
        },
    };
    assert(name@ == spec_type_name(line@)) by {
        assert(forall|v: Seq<char>| v.subrange(0, v.len() as int) =~= v);
    }
    let mut frag: Vec<char> = Vec::new();
    push_str_chars(&mut frag, "\n\tclass ");
    push_chars(&mut frag, &name);
    push_str_chars(&mut frag, " {");
    if crate::model::is_interface_chars(&name) {
        push_str_chars(&mut frag, "\n\t\t<<interface>>");
    }
    assert(frag@ =~= spec_type_fragment(line@));
    let mut arrows: Vec<crate::model::Arrow> = Vec::new();
    let ghost bases = spec_type_bases(line@);
    let start: usize = match ci {
        Some(c) => {
            assert(c < all@.len() && all@.len() == all.len());
            c + 1
        },
        None => all.len(),
    };
    assert(bases =~~= tv.subrange(start as int, tv.len() as int));
    let mut k: usize = start;
    while k < all.len()
        invariant
            start <= k <= all@.len(),
            tv == all.deep_view(),
            tv.len() == all@.len(),
            bases =~~= tv.subrange(start as int, tv.len() as int),
            name@ == spec_type_name(line@),
            arrows.deep_view() == bases.subrange(0, k - start).map_values(
                |b: Seq<char>| spec_base_arrow(spec_type_name(line@), b),
            ),
        decreases all@.len() - k,
    {
        proof {
            assert(tv[k as int] == all@[k as int].deep_view());
            assert(all@[k as int].deep_view() =~= all@[k as int]@);
        }
        let b = sub_vec(&all[k], 0, all[k].len());
        assert(b@ == tv[k as int]);
        let kind = if crate::model::is_interface_chars(&b) {
            ArrowKind::Realization
        } else {
            ArrowKind::Inheritance
        };
        let n2 = sub_vec(&name, 0, name.len());
        assert(n2@ == name@);
        let ghost av = arrows.deep_view();
        let a = crate::model::Arrow::new(n2, b, kind, Vec::new());
        assert(a@ =~= spec_base_arrow(spec_type_name(line@), tv[k as int]));
        arrows.push(a);
        proof {
            assert(arrows.deep_view() =~~= av.push(a@));
            assert(bases.subrange(0, k + 1 - start) =~~= bases.subrange(0, k - start).push(
                tv[k as int],
            ));
            assert(arrows.deep_view() =~~= bases.subrange(0, k + 1 - start).map_values(
                |b: Seq<char>| spec_base_arrow(spec_type_name(line@), b),
            ));
        }
        k += 1;
    }
    assert(bases.subrange(0, all@.len() - start) =~~= bases);
    (name, frag, arrows)
}

/// The captured fields of a method-declaration line.
#[verifier::ext_equal]
pub ghost struct MethodSig {
    pub ok: bool,
    pub vis: Seq<char>,
    pub rt: Seq<char>,
    pub name: Seq<char>,
    pub params: Seq<char>,
}

/// The capture that stands for a line the method pattern does not match.
pub open spec fn spec_method_fail() -> MethodSig {
    MethodSig {
        ok: false,
        vis: Seq::empty(),
        rt: Seq::empty(),
        name: Seq::empty(),
        params: Seq::empty(),
    }
}

/// Pattern capture for a method declaration: an access keyword, at most one
/// modifier, at most one return-type token, then a name glued to the
/// parameter list's opening parenthesis.
pub open spec fn spec_parse_method(line: Seq<char>) -> MethodSig {
    let p = spec_find_char(line, '(', 0);
    let q = spec_find_char(line, ')', p + 1);
    if p >= line.len() || q >= line.len() {
        spec_method_fail()
    } else {
        let ns = spec_name_start(line, p);
        let name = line.subrange(ns, p);
        let pre = spec_tokens(line.subrange(0, ns));
        if name.len() == 0 || pre.len() == 0 || !spec_is_access_kw(pre[0]) {
            spec_method_fail()
        } else {
            let vis = pre[0];
            let params = line.subrange(p + 1, q);
            if pre.len() == 1 {
                MethodSig { ok: true, vis, rt: Seq::empty(), name, params }
            } else if pre.len() == 2 {
                if spec_is_method_modifier(pre[1]) {
                    MethodSig { ok: true, vis, rt: Seq::empty(), name, params }
                } else {
                    MethodSig { ok: true, vis, rt: pre[1], name, params }
                }
            } else if pre.len() == 3 && spec_is_method_modifier(pre[1]) {
                MethodSig { ok: true, vis, rt: pre[2], name, params }
            } else {
                spec_method_fail()
            }
        }
    }
}

/// One parameter re-rendered as `name: type` from its first two tokens.
pub open spec fn spec_param_render(t: Seq<char>) -> Seq<char> {
    if t.len() == 0 {
        Seq::empty()
    } else {
        let toks = spec_tokens(t);
        if toks.len() == 0 {
            Seq::empty()
        } else {
            let ty = toks[0];
            let nm = if toks.len() >= 2 {
                toks[1]
            } else {
                Seq::empty()
            };
            nm + ": "@ + ty
        }
    }
}

/// The comma-separated parameter list re-rendered.
pub open spec fn spec_params_rendered(params: Seq<char>) -> Seq<char> {
    spec_join(
        spec_split_char(params, ',').map_values(|t: Seq<char>| spec_param_render(spec_trim(t))),
        ", "@,
    )
}

/// The member text a method-declaration line contributes, or empty when the
/// pattern does not capture.
pub open spec fn spec_method_fragment(line: Seq<char>) -> Seq<char> {
    let m = spec_parse_method(line);
    if !m.ok {
        Seq::empty()
    } else {
        "\n\t\t"@ + spec_glyph(m.vis) + m.name + "("@ + spec_params_rendered(m.params) + ")"@ + (
        if m.rt.len() > 0 {
            " "@ + m.rt
        } else {
            Seq::empty()
        })
    }
}

pub fn is_access_kw(t: &Vec<char>) -> (r: bool)
    ensures
        r == spec_is_access_kw(t@),
{
    eq_str(t, "public") || eq_str(t, "private") || eq_str(t, "protected") || eq_str(t, "internal")
}

fn param_render(t: &Vec<char>) -> (v: Vec<char>)
    ensures
        v@ == spec_param_render(t@),
{
    if t.len() == 0 {
        return Vec::new();
    }
    let toks = crate::split::tokens(t);
    let ghost tv = toks.deep_view();
    if toks.len() == 0 {
        assert(tv.len() == 0);
        return Vec::new();
    }
    proof {
        assert(tv[0] == toks@[0].deep_view());
        assert(toks@[0].deep_view() =~= toks@[0]@);
        if toks@.len() >= 2 {
            assert(tv[1] == toks@[1].deep_view());
            assert(toks@[1].deep_view() =~= toks@[1]@);
        }
    }
    let mut v: Vec<char> = Vec::new();
    if toks.len() >= 2 {
        push_chars(&mut v, &toks[1]);
    }
    push_str_chars(&mut v, ": ");
    push_chars(&mut v, &toks[0]);
    assert(v@ =~= spec_param_render(t@));
    v
}

fn params_rendered(params: &Vec<char>) -> (v: Vec<char>)
    ensures
        v@ == spec_params_rendered(params@),
{
    let pieces = crate::split::split_char(params, ',');
    let ghost sp = spec_split_char(params@, ',');
    let mut rendered: Vec<Vec<char>> = Vec::new();
    let mut k: usize = 0;
    assert(rendered.deep_view() =~~= sp.take(0).map_values(
        |t: Seq<char>| spec_param_render(spec_trim(t)),
    ));
    while k < pieces.len()
        invariant
            k <= pieces@.len(),
            pieces.deep_view() == sp,
            sp == spec_split_char(params@, ','),
            rendered.deep_view() == sp.take(k as int).map_values(
                |t: Seq<char>| spec_param_render(spec_trim(t)),
            ),
        decreases pieces@.len() - k,
    {
        proof {
            assert(sp[k as int] == pieces@[k as int].deep_view());
            assert(pieces@[k as int].deep_view() =~= pieces@[k as int]@);
        }
        let t = crate::text::trim(&pieces[k]);
        let r = param_render(&t);
        let ghost rv = rendered.deep_view();
        let ghost re = r@;
        rendered.push(r);
        proof {
            assert(rendered.deep_view() =~~= rv.push(re));
            assert(sp.take(k as int + 1) =~~= sp.take(k as int).push(sp[k as int]));
            assert(rendered.deep_view() =~~= sp.take(k as int + 1).map_values(
                |t: Seq<char>| spec_param_render(spec_trim(t)),
            ));
        }
        k += 1;
    }
    assert(sp.take(sp.len() as int) =~~= sp);
    crate::split::join_with(&rendered, ", ")
}

/// Parses a method-declaration line into its rendered member text; an
/// unmatched line contributes nothing.
pub fn method_fragment(line: &Vec<char>) -> (v: Vec<char>)
    ensures
        v@ == spec_method_fragment(line@),
{
    let p = find_char(line, '(', 0);
    if p == line.len() {
        assert(spec_method_fragment(line@) =~= Seq::<char>::empty());
        return Vec::new();
    }
    let q = find_char(line, ')', p + 1);
    if q == line.len() {
        assert(spec_method_fragment(line@) =~= Seq::<char>::empty());
        return Vec::new();
    }
    let ns = name_start(line, p);
    let name = sub_vec(line, ns, p);
    let prefix = sub_vec(line, 0, ns);
    let pre = crate::split::tokens(&prefix);
    let ghost prev = pre.deep_view();
    assert(prev == spec_tokens(line@.subrange(0, spec_name_start(line@, p as int))));
    if name.len() == 0 || pre.len() == 0 {
        assert(spec_method_fragment(line@) =~= Seq::<char>::empty());
        return Vec::new();
    }
    proof {
        assert(prev[0] == pre@[0].deep_view());
        assert(pre@[0].deep_view() =~= pre@[0]@);
    }
    if !is_access_kw(&pre[0]) {
        assert(spec_method_fragment(line@) =~= Seq::<char>::empty());
        return Vec::new();
    }
    let ghost m = spec_parse_method(line@);
    let mut rt: Vec<char> = Vec::new();
    let mut ok: bool = true;
    if pre.len() == 1 {
    } else if pre.len() == 2 {
        proof {
            assert(prev[1] == pre@[1].deep_view());
            assert(pre@[1].deep_view() =~= pre@[1]@);
        }
        if !is_method_modifier(&pre[1]) {
            push_chars(&mut rt, &pre[1]);
        }
    } else if pre.len() == 3 {
        proof {
            assert(prev[1] == pre@[1].deep_view());
            assert(pre@[1].deep_view() =~= pre@[1]@);
            assert(prev[2] == pre@[2].deep_view());
            assert(pre@[2].deep_view() =~= pre@[2]@);
        }
        if is_method_modifier(&pre[1]) {
            push_chars(&mut rt, &pre[2]);
        } else {
            ok = false;
        }
    } else {
        ok = false;
    }
    if !ok {
        assert(spec_method_fragment(line@) =~= Seq::<char>::empty());
        return Vec::new();
    }
    assert(m.ok && m.rt == rt@ && m.vis == pre@[0]@ && m.name == name@);
    let params = sub_vec(line, p + 1, q);
    assert(params@ == m.params);
    let rendered = params_rendered(&params);
    let g = glyph(&pre[0]);
    let mut v: Vec<char> = Vec::new();
    push_str_chars(&mut v, "\n\t\t");
    push_chars(&mut v, &g);
    push_chars(&mut v, &name);
    push_str_chars(&mut v, "(");
    push_chars(&mut v, &rendered);
    push_str_chars(&mut v, ")");
    if rt.len() > 0 {
        push_str_chars(&mut v, " ");
        push_chars(&mut v, &rt);
    }
    assert(v@ =~= spec_method_fragment(line@));
    v
}

/// The captured fields of a property or field declaration.
#[verifier::ext_equal]
pub ghost struct PropSig {
    pub ok: bool,
    pub vis: Seq<char>,
    pub modifier: Seq<char>,
    pub ty: Seq<char>,
    pub name: Seq<char>,
}

/// The capture that stands for a line the property pattern does not match.
pub open spec fn spec_prop_fail() -> PropSig {
    PropSig {
        ok: false,
        vis: Seq::empty(),
        modifier: Seq::empty(),
        ty: Seq::empty(),
        name: Seq::empty(),
    }
}

/// Pattern capture for a property or field declaration: an access keyword, an
/// optional modifier, an optional type token and a required name token.
pub open spec fn spec_parse_property(line: Seq<char>) -> PropSig {
    let vis = spec_access_kw(line);
    if vis.len() == 0 {
        spec_prop_fail()
    } else {
        let rest = spec_tokens(line.skip(vis.len() as int));
        if rest.len() == 0 {
            spec_prop_fail()
        } else {
            let has_mod = spec_is_prop_modifier(rest[0]);
            let m = if has_mod {
                rest[0]
            } else {
                Seq::empty()
            };
            let rest2 = if has_mod {
                rest.skip(1)
            } else {
                rest
            };
            if rest2.len() == 0 {
                spec_prop_fail()
            } else {
                let ty = if rest2.len() >= 2 {
                    rest2[0]
                } else {
                    Seq::empty()
                };
                let name = if rest2.len() >= 2 {
                    rest2[1]
                } else {
                    rest2[0]
                };
                PropSig { ok: true, vis, modifier: m, ty, name }
            }
        }
    }
}

/// A name with every statement terminator removed.
pub open spec fn spec_strip_semis(t: Seq<char>) -> Seq<char> {
    t.filter(|c: char| c != ';')
}

pub fn strip_semis(t: &Vec<char>) -> (v: Vec<char>)
    ensures
        v@ == spec_strip_semis(t@),
{
    let mut v: Vec<char> = Vec::new();
    let mut i: usize = 0;
    proof {
        reveal(Seq::filter);
        assert(t@.subrange(0, 0) =~= Seq::<char>::empty());
        assert(v@ =~= t@.subrange(0, 0).filter(|c: char| c != ';'));
    }
    while i < t.len()
        invariant
            i <= t@.len(),
            v@ == t@.subrange(0, i as int).filter(|c: char| c != ';'),
        decreases t@.len() - i,
    {
        let ghost a = t@.subrange(0, i as int);
        let ghost b = t@.subrange(0, i as int + 1);
        proof {
            reveal(Seq::filter);
            assert(b.drop_last() =~= a);
            assert(b.last() == t@[i as int]);
        }
        if t[i] != ';' {
            v.push(t[i]);
        }
        proof {
            reveal(Seq::filter);
            assert(v@ =~= b.filter(|c: char| c != ';'));
        }
        i += 1;
    }
    assert(t@.subrange(0, t@.len() as int) =~= t@);
    v
}

/// The member text a property-declaration line contributes: the glyph, the
/// cleaned name, the type, and the event / accessor annotations; a declared
/// type equal to `enum` suppresses the declaration.
pub open spec fn spec_property_fragment(line: Seq<char>) -> Seq<char> {
    let p = spec_parse_property(line);
    if !p.ok || p.ty == "enum"@ {
        Seq::empty()
    } else {
        "\n\t\t"@ + spec_glyph(p.vis) + spec_strip_semis(p.name) + ": "@ + p.ty + (if p.modifier
            == "event"@ {
            ", ~~event~~"@
        } else {
            Seq::empty()
        }) + (if spec_contains_sub(line, "get;"@) {
            ", ~~get~~"@
        } else {
            Seq::empty()
        }) + (if spec_contains_sub(line, "set;"@) {
            ", ~~set~~"@
        } else {
            Seq::empty()
        })
    }
}

/// The candidate edge a property contributes: toward the first generic
/// argument with composition kind when the type carries the generic marker,
/// toward the type itself with aggregation kind otherwise.
pub open spec fn spec_property_arrows(line: Seq<char>, cname: Seq<char>) -> Seq<ArrowV> {
    let p = spec_parse_property(line);
    if !p.ok || p.ty == "enum"@ {
        Seq::empty()
    } else {
        let generic = spec_contains_char(p.ty, '~');
        let e = if generic {
            let t1 = spec_find_char(p.ty, '~', 0);
            p.ty.subrange(t1 + 1, spec_find_char(p.ty, '~', t1 + 1))
        } else {
            p.ty
        };
        let k = if generic {
            ArrowKind::Composition
        } else {
            ArrowKind::Aggregation
        };
        seq![ArrowV { start: cname, end: e, kind: k, field_type: p.ty }]
    }
}

/// Parses a property-declaration line: the rendered member text and the
/// candidate edge it contributes, both empty when the pattern does not match.
pub fn parse_property(line: &Vec<char>, cname: &Vec<char>) -> (r: (Vec<char>, Vec<
    crate::model::Arrow,
>))
    ensures
        r.0@ == spec_property_fragment(line@),
        r.1.deep_view() == spec_property_arrows(line@, cname@),
{
    let ghost ps = spec_parse_property(line@);
    let vis = access_kw(line);
    if vis.len() == 0 {
        assert(spec_property_fragment(line@) =~= Seq::<char>::empty());
        assert(spec_property_arrows(line@, cname@) =~~= Seq::<ArrowV>::empty());
        return (Vec::new(), Vec::new());
    }
    assert(vis@.len() <= line@.len()) by {
        assert(spec_starts_access(line@));
    }
    let tail = sub_vec(line, vis.len(), line.len());
    assert(tail@ =~= line@.skip(vis@.len() as int));
    let rest = crate::split::tokens(&tail);
    let ghost rv = rest.deep_view();
    if rest.len() == 0 {
        assert(spec_property_fragment(line@) =~= Seq::<char>::empty());
        assert(spec_property_arrows(line@, cname@) =~~= Seq::<ArrowV>::empty());
        return (Vec::new(), Vec::new());
    }
    proof {
        assert(rv[0] == rest@[0].deep_view());
        assert(rest@[0].deep_view() =~= rest@[0]@);
    }
    let has_mod = is_prop_modifier(&rest[0]);
    let start2: usize = if has_mod {
        1
    } else {
        0
    };
    if rest.len() == start2 {
        assert(rv.skip(1).len() == 0);
        assert(spec_property_fragment(line@) =~= Seq::<char>::empty());
        assert(spec_property_arrows(line@, cname@) =~~= Seq::<ArrowV>::empty());
        return (Vec::new(), Vec::new());
    }
    let ghost rest2 = if has_mod {
        rv.skip(1)
    } else {
        rv
    };
    proof {
        assert(rv[start2 as int] == rest@[start2 as int].deep_view());
        assert(rest@[start2 as int].deep_view() =~= rest@[start2 as int]@);
        assert(rest2[0] == rv[start2 as int]);
        if rv.len() >= start2 + 2 {
            assert(rv[start2 as int + 1] == rest@[start2 as int + 1].deep_view());
            assert(rest@[start2 as int + 1].deep_view() =~= rest@[start2 as int + 1]@);
            assert(rest2[1] == rv[start2 as int + 1]);
        }
    }
    let two = rest.len() >= start2 + 2;
    let mut ty: Vec<char> = Vec::new();
    let name_idx: usize;
    if two {
        push_chars(&mut ty, &rest[start2]);
        name_idx = start2 + 1;
    } else {
        name_idx = start2;
    }
    assert(ty@ == ps.ty);
    assert(rest@[name_idx as int]@ == ps.name);
    if eq_str(&ty, "enum") {
        assert(spec_property_fragment(line@) =~= Seq::<char>::empty());
        assert(spec_property_arrows(line@, cname@) =~~= Seq::<ArrowV>::empty());
        return (Vec::new(), Vec::new());
    }
    let cleaned = strip_semis(&rest[name_idx]);
    let g = glyph(&vis);
    let mut v: Vec<char> = Vec::new();
    push_str_chars(&mut v, "\n\t\t");
    push_chars(&mut v, &g);
    push_chars(&mut v, &cleaned);
    push_str_chars(&mut v, ": ");
    push_chars(&mut v, &ty);
    if has_mod && eq_str(&rest[0], "event") {
        push_str_chars(&mut v, ", ~~event~~");
    }
    if contains_sub(line, "get;") {
        push_str_chars(&mut v, ", ~~get~~");
    }
    if contains_sub(line, "set;") {
        push_str_chars(&mut v, ", ~~set~~");
    }
    assert(v@ =~= spec_property_fragment(line@)) by {
        reveal_strlit("event");
        if has_mod {
            assert(ps.modifier == rest@[0]@);
        } else {
            assert(ps.modifier =~= Seq::<char>::empty());
            assert("event"@.len() == 5);
            assert(ps.modifier != "event"@);
        }
    }
    let generic = contains_char(&ty, '~');
    let end: Vec<char>;
    if generic {
        let t1 = find_char(&ty, '~', 0);
        assert(t1 < ty.len());
        let t2 = find_char(&ty, '~', t1 + 1);
        end = sub_vec(&ty, t1 + 1, t2);
    } else {
        end = sub_vec(&ty, 0, ty.len());
        assert(end@ =~= ty@);
    }
    let kind = if generic {
        ArrowKind::Composition
    } else {
        ArrowKind::Aggregation
    };
    let cn = sub_vec(cname, 0, cname.len());
    assert(cn@ =~= cname@);
    let a = crate::model::Arrow::new(cn, end, kind, ty);
    let mut arrows: Vec<crate::model::Arrow> = Vec::new();
    arrows.push(a);
    proof {
        assert(arrows.deep_view() =~~= seq![a@]);
        assert(arrows.deep_view() =~~= spec_property_arrows(line@, cname@));
    }
    (v, arrows)
}

/// The value lines collected after an enum declaration whose brace list is
/// not inline: comma items of each following line, up to the closing brace.
pub open spec fn spec_scan_values(lines: Seq<Seq<char>>, j: int) -> Seq<Seq<char>>
    decreases lines.len() - j,
{
    if j < 0 || j >= lines.len() {
        Seq::empty()
    } else if spec_contains_char(lines[j], '}') {
        Seq::empty()
    } else {
        spec_comma_items(lines[j]) + spec_scan_values(lines, j + 1)
    }
}

/// The value list of the enum declared on line `i`: the inline brace contents
/// when present and non-empty, the following lines otherwise.
pub open spec fn spec_enum_values(lines: Seq<Seq<char>>, i: int) -> Seq<Seq<char>> {
    let s = lines[i];
    let q = spec_enum_name_start(s);
    let r = spec_ident_end(s, q);
    let after = spec_skip_spaces(s, r);
    if 0 <= after < s.len() && s[after] == '{' {
        let close = spec_find_char(s, '}', after + 1);
        let inline = spec_comma_items(s.subrange(after + 1, close));
        if inline.len() > 0 {
            inline
        } else {
            spec_scan_values(lines, i + 1)
        }
    } else {
        spec_scan_values(lines, i + 1)
    }
}

fn scan_values(lines: &Vec<Vec<char>>, from: usize) -> (v: Vec<Vec<char>>)
    ensures
        v.deep_view() == spec_scan_values(lines.deep_view(), from as int),
{
    let ghost lv = lines.deep_view();
    let mut out: Vec<Vec<char>> = Vec::new();
    let mut j: usize = from;
    let mut done: bool = false;
    assert(out.deep_view() =~~= Seq::<Seq<char>>::empty());
    while j < lines.len() && !done
        invariant
            from <= j,
            lv == lines.deep_view(),
            lv.len() == lines@.len(),
            !done ==> spec_scan_values(lv, from as int) == out.deep_view() + spec_scan_values(
                lv,
                j as int,
            ),
            done ==> spec_scan_values(lv, from as int) == out.deep_view(),
        decreases lines@.len() - j, (if done { 0int } else { 1int }),
    {
        proof {
            assert(lv[j as int] == lines@[j as int].deep_view());
            assert(lines@[j as int].deep_view() =~= lines@[j as int]@);
        }
        if contains_char(&lines[j], '}') {
            assert(spec_scan_values(lv, j as int) =~~= Seq::<Seq<char>>::empty());
            assert(out.deep_view() + spec_scan_values(lv, j as int) =~~= out.deep_view());
            done = true;
        } else {
            let mut items = crate::split::comma_items(&lines[j]);
            let ghost ov = out.deep_view();
            let ghost iv = items.deep_view();
            out.append(&mut items);
            proof {
                assert(out.deep_view() =~~= ov + iv);
                assert(spec_scan_values(lv, j as int) == spec_comma_items(lv[j as int])
                    + spec_scan_values(lv, j as int + 1));
                assert(ov + spec_scan_values(lv, j as int) =~~= out.deep_view() + spec_scan_values(
                    lv,
                    j as int + 1,
                ));
            }
            j += 1;
        }
    }
    if !done {
        assert(spec_scan_values(lv, j as int) =~~= Seq::<Seq<char>>::empty());
        assert(out.deep_view() + spec_scan_values(lv, j as int) =~~= out.deep_view());
    }
    out
}

/// The value list of the enum declared on line `i` of the normalized file.
pub fn enum_values(lines: &Vec<Vec<char>>, i: usize) -> (v: Vec<Vec<char>>)
    requires
        i < lines@.len(),
    ensures
        v.deep_view() == spec_enum_values(lines.deep_view(), i as int),
{
    let ghost lv = lines.deep_view();
    proof {
        assert(lv[i as int] == lines@[i as int].deep_view());
        assert(lines@[i as int].deep_view() =~= lines@[i as int]@);
    }
    assert(i < lines.len());
    let s = &lines[i];
    let ghost sv = s@;
    match find_token(s, "enum", 0) {
        None => {
            assert(spec_enum_name_start(sv) == -1);
            scan_values(lines, i + 1)
        },
        Some(p) => {
            let kl: usize = "enum".unicode_len();
            proof {
                crate::text::lemma_find_token_props(sv, "enum"@, 0);
                assert(spec_token_at(sv, p as int, "enum"@));
            }
            assert(p + kl <= s.len());
            let q = skip_spaces(s, p + kl);
            if q == p + kl {
                assert(spec_enum_name_start(sv) == -1);
                scan_values(lines, i + 1)
            } else {
                let r = ident_end(s, q);
                let after = skip_spaces(s, r);
                if after < s.len() && s[after] == '{' {
                    let close = find_char(s, '}', after + 1);
                    let contents = sub_vec(s, after + 1, close);
                    let inline = crate::split::comma_items(&contents);
                    if inline.len() > 0 {
                        assert(inline.deep_view().len() > 0);
                        inline
                    } else {
                        assert(inline.deep_view().len() == 0);
                        scan_values(lines, i + 1)
                    }
                } else {
                    scan_values(lines, i + 1)
                }
            }
        },
    }
}

/// The text an enum declaration contributes: a block named after the enum,
/// tagged as an enumerator, with one line per value.
pub open spec fn spec_enum_value_lines(values: Seq<Seq<char>>) -> Seq<char>
    decreases values.len(),
{
    if values.len() == 0 {
        Seq::empty()
    } else {
        spec_enum_value_lines(values.drop_last()) + "\n\t\t"@ + values.last()
    }
}

pub open spec fn spec_enum_fragment(lines: Seq<Seq<char>>, i: int) -> Seq<char> {
    let name = spec_enum_name(lines[i]);
    "\n\tclass "@ + name + " {"@ + "\n\t\t<<enumerator>>"@ + spec_enum_value_lines(
        spec_enum_values(lines, i),
    ) + "\n\t}"@
}

/// Renders the enum declared on line `i` of the normalized file.
pub fn enum_fragment(lines: &Vec<Vec<char>>, i: usize) -> (r: (Vec<char>, Vec<char>))
    requires
        i < lines@.len(),
    ensures
        r.0@ == spec_enum_name(lines.deep_view()[i as int]),
        r.1@ == spec_enum_fragment(lines.deep_view(), i as int),
{
    let ghost lv = lines.deep_view();
    proof {
        assert(lv[i as int] == lines@[i as int].deep_view());
        assert(lines@[i as int].deep_view() =~= lines@[i as int]@);
    }
    let name = enum_name(&lines[i]);
    let values = enum_values(lines, i);
    let ghost vv = values.deep_view();
    let mut v: Vec<char> = Vec::new();
    push_str_chars(&mut v, "\n\tclass ");
    push_chars(&mut v, &name);
    push_str_chars(&mut v, " {");
    push_str_chars(&mut v, "\n\t\t<<enumerator>>");
    let ghost head = v@;
    let mut k: usize = 0;
    assert(v@ =~= head + spec_enum_value_lines(vv.take(0)));
    while k < values.len()
        invariant
            k <= values@.len(),
            vv == values.deep_view(),
            vv.len() == values@.len(),
            v@ == head + spec_enum_value_lines(vv.take(k as int)),
        decreases values@.len() - k,
    {
        proof {
            assert(vv[k as int] == values@[k as int].deep_view());
            assert(values@[k as int].deep_view() =~= values@[k as int]@);
        }
        push_str_chars(&mut v, "\n\t\t");
        push_chars(&mut v, &values[k]);
        proof {
            assert(vv.take(k as int + 1).drop_last() =~~= vv.take(k as int));
            assert(vv.take(k as int + 1).last() == vv[k as int]);
            assert(spec_enum_value_lines(vv.take(k as int + 1)) == spec_enum_value_lines(
                vv.take(k as int),
            ) + "\n\t\t"@ + vv[k as int]);
            assert(v@ =~= head + spec_enum_value_lines(vv.take(k as int + 1)));
        }
        k += 1;
    }
    assert(vv.take(vv.len() as int) =~~= vv);
    push_str_chars(&mut v, "\n\t}");
    assert(v@ =~= spec_enum_fragment(lv, i as int));
    (name, v)
}

/// The end of the run of identifier or dot characters that starts at `i`.
pub open spec fn spec_dotted_end(s: Seq<char>, i: int) -> int
    decreases s.len() - i,
{
    if 0 <= i && i < s.len() && (is_ident_char(s[i]) || s[i] == '.') {
        spec_dotted_end(s, i + 1)
    } else {
        i
    }
}

fn dotted_end(s: &Vec<char>, from: usize) -> (r: usize)
    requires
        from <= s@.len(),
    ensures
        r as int == spec_dotted_end(s@, from as int),
        from <= r <= s@.len(),
{
    let mut i: usize = from;
    while i < s.len() && (crate::text::ident_char(s[i]) || s[i] == '.')
        invariant
            from <= i <= s@.len(),
            spec_dotted_end(s@, from as int) == spec_dotted_end(s@, i as int),
        decreases s@.len() - i,
    {
        i += 1;
    }
    i
}

/// The end of the run of identifier, dot or colon characters at `i`: the
/// shape of a possibly namespace-qualified markup tag name.
pub open spec fn spec_tag_end(s: Seq<char>, i: int) -> int
    decreases s.len() - i,
{
    if 0 <= i && i < s.len() && (is_ident_char(s[i]) || s[i] == '.' || s[i] == ':') {
        spec_tag_end(s, i + 1)
    } else {
        i
    }
}

fn tag_end(s: &Vec<char>, from: usize) -> (r: usize)
    requires
        from <= s@.len(),
    ensures
        r as int == spec_tag_end(s@, from as int),
        from <= r <= s@.len(),
{
    let mut i: usize = from;
    while i < s.len() && (crate::text::ident_char(s[i]) || s[i] == '.' || s[i] == ':')
        invariant
            from <= i <= s@.len(),
            spec_tag_end(s@, from as int) == spec_tag_end(s@, i as int),
        decreases s@.len() - i,
    {
        i += 1;
    }
    i
}

/// The type referenced by a data-binding-context assignment: the dotted
/// identifier after the assignment marker, with a leading `new` dropped.
pub open spec fn spec_dc_value(line: Seq<char>) -> Seq<char> {
    let p = spec_find_sub(line, "DataContext =~ "@, 0);
    if p < 0 {
        Seq::empty()
    } else {
        let a0 = p + "DataContext =~ "@.len();
        let a = if spec_matches_at(line, a0, "new "@) {
            a0 + "new "@.len()
        } else {
            a0
        };
        line.subrange(a, spec_dotted_end(line, a))
    }
}

/// Captures the type referenced by a data-binding-context assignment.
pub fn dc_value(line: &Vec<char>) -> (v: Vec<char>)
    ensures
        v@ == spec_dc_value(line@),
{
    match find_sub(line, "DataContext =~ ", 0) {
        None => {
            assert(spec_dc_value(line@) =~= Seq::<char>::empty());
            Vec::new()
        },
        Some(p) => {
            proof {
                crate::text::lemma_find_sub_props(line@, "DataContext =~ "@, 0);
                assert(spec_matches_at(line@, p as int, "DataContext =~ "@));
            }
            let pl: usize = "DataContext =~ ".unicode_len();
            assert(p + pl <= line.len());
            let a0 = p + pl;
            let nl: usize = "new ".unicode_len();
            let a: usize = if matches_at(line, a0, "new ") {
                assert(a0 + nl <= line.len());
                a0 + nl
            } else {
                a0
            };
            let e = dotted_end(line, a);
            sub_vec(line, a, e)
        },
    }
}

/// The implied type name a markup class-name declaration establishes: the
/// last dot-separated segment of the quoted attribute value.
pub open spec fn spec_markup_class(line: Seq<char>) -> Seq<char> {
    let p = spec_find_sub(line, "x:Class=\""@, 0);
    if p < 0 {
        Seq::empty()
    } else {
        let a = p + "x:Class=\""@.len();
        let b = spec_find_char(line, '"', a);
        crate::split::spec_after_last(line.subrange(a, b), '.')
    }
}

/// Captures the implied type name from a markup class-name declaration.
pub fn markup_class(line: &Vec<char>) -> (v: Vec<char>)
    ensures
        v@ == spec_markup_class(line@),
{
    match find_sub(line, "x:Class=\"", 0) {
        None => {
            assert(spec_markup_class(line@) =~= Seq::<char>::empty());
            Vec::new()
        },
        Some(p) => {
            proof {
                crate::text::lemma_find_sub_props(line@, "x:Class=\""@, 0);
                assert(spec_matches_at(line@, p as int, "x:Class=\""@));
            }
            let pl: usize = "x:Class=\"".unicode_len();
            assert(p + pl <= line.len());
            let a = p + pl;
            let b = find_char(line, '"', a);
            let val = sub_vec(line, a, b);
            crate::split::after_last(&val, '.')
        },
    }
}

/// The member text a markup named-element declaration contributes: the
/// element's name attribute typed by its tag name, as a public member.
pub open spec fn spec_markup_member(line: Seq<char>) -> Seq<char> {
    let p = spec_find_sub(line, "x:Name=\""@, 0);
    if p < 0 {
        Seq::empty()
    } else {
        let a = p + "x:Name=\""@.len();
        let b = spec_find_char(line, '"', a);
        let nm = line.subrange(a, b);
        if nm.len() == 0 {
            Seq::empty()
        } else {
            let et = if line.len() > 0 && line[0] == '~' {
                crate::split::spec_after_last(line.subrange(1, spec_tag_end(line, 1)), ':')
            } else {
                Seq::empty()
            };
            "\n\t\t+ "@ + nm + ": "@ + et
        }
    }
}

/// Renders the member a markup named-element declaration contributes.
pub fn markup_member(line: &Vec<char>) -> (v: Vec<char>)
    ensures
        v@ == spec_markup_member(line@),
{
    match find_sub(line, "x:Name=\"", 0) {
        None => {
            assert(spec_markup_member(line@) =~= Seq::<char>::empty());
            Vec::new()
        },
        Some(p) => {
            proof {
                crate::text::lemma_find_sub_props(line@, "x:Name=\""@, 0);
                assert(spec_matches_at(line@, p as int, "x:Name=\""@));
            }
            let pl: usize = "x:Name=\"".unicode_len();
            assert(p + pl <= line.len());
            let a = p + pl;
            let b = find_char(line, '"', a);
            let nm = sub_vec(line, a, b);
            if nm.len() == 0 {
                assert(spec_markup_member(line@) =~= Seq::<char>::empty());
                return Vec::new();
            }
            let mut et: Vec<char> = Vec::new();
            if line.len() > 0 && line[0] == '~' {
                let te = tag_end(line, 1);
                let tag = sub_vec(line, 1, te);
                let seg = crate::split::after_last(&tag, ':');
                push_chars(&mut et, &seg);
            }
            let mut v: Vec<char> = Vec::new();
            push_str_chars(&mut v, "\n\t\t+ ");
            push_chars(&mut v, &nm);
            push_str_chars(&mut v, ": ");
            push_chars(&mut v, &et);
            assert(v@ =~= spec_markup_member(line@));
            v
        },
    }
}

fn has_token_class(s: &Vec<char>) -> (r: bool)
    ensures
        r == spec_has_token(s@, "class"@),
{
    proof {
        reveal_strlit("class");
    }
    crate::text::has_token(s, "class")
}

fn has_token_interface(s: &Vec<char>) -> (r: bool)
    ensures
        r == spec_has_token(s@, "interface"@),
{
    proof {
        reveal_strlit("interface");
    }
    crate::text::has_token(s, "interface")
}

} // verus!
