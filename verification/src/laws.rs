//! Run-level laws: properties of the extractor and the resolver that hold
//! for every input, stated over the specification functions and proved once.

use vstd::prelude::*;

use crate::diagram::spec_extract_tree;
use crate::model::{ArrowKind, ArrowV};
use crate::resolve::{spec_declared, spec_generic_match, spec_resolve, spec_resolve_one};
use crate::split::{spec_comma_items, spec_join, spec_split_char, spec_tokens};
use crate::text::{
    is_ident_char, is_space, spec_collapse, spec_colon_spaced, spec_contains_char,
    spec_contains_sub, spec_find_char, spec_find_token, spec_matches_at, spec_trim, spec_trim_back,
    spec_trim_front,
};

verus! {

/// A non-empty run of identifier characters: the shape of the names the laws
/// below quantify over.
pub open spec fn ident_token(t: Seq<char>) -> bool {
    t.len() > 0 && forall|k: int| 0 <= k < t.len() ==> is_ident_char(t[k])
}

/// Text without the generic marker passes the collapse pass unchanged.
pub proof fn lemma_collapse_id(s: Seq<char>)
    requires
        !spec_contains_char(s, '~'),
    ensures
        spec_collapse(s) == s,
    decreases s.len(),
{
    if s.len() > 0 {
        assert(s[0] != '~');
        assert(!spec_contains_char(s.skip(1), '~')) by {
            if spec_contains_char(s.skip(1), '~') {
                let j = choose|j: int| 0 <= j < s.skip(1).len() && s.skip(1)[j] == '~';
                assert(s[j + 1] == '~');
            }
        }
        lemma_collapse_id(s.skip(1));
        assert(seq![s[0]] + s.skip(1) =~= s);
    }
}

/// Spacing colons distributes over concatenation.
pub proof fn lemma_colon_spaced_concat(a: Seq<char>, b: Seq<char>)
    ensures
        spec_colon_spaced(a + b) == spec_colon_spaced(a) + spec_colon_spaced(b),
    decreases a.len(),
{
    if a.len() == 0 {
        assert(a + b =~= b);
        assert(spec_colon_spaced(a) =~= Seq::<char>::empty());
        assert(spec_colon_spaced(a) + spec_colon_spaced(b) =~= spec_colon_spaced(b));
    } else {
        assert((a + b)[0] == a[0]);
        assert((a + b).skip(1) =~= a.skip(1) + b);
        lemma_colon_spaced_concat(a.skip(1), b);
        assert(spec_colon_spaced(a + b) =~= spec_colon_spaced(a) + spec_colon_spaced(b));
    }
}

/// Text without a colon passes the colon-spacing pass unchanged.
pub proof fn lemma_colon_spaced_id(s: Seq<char>)
    requires
        !spec_contains_char(s, ':'),
    ensures
        spec_colon_spaced(s) == s,
    decreases s.len(),
{
    if s.len() > 0 {
        assert(s[0] != ':');
        assert(!spec_contains_char(s.skip(1), ':')) by {
            if spec_contains_char(s.skip(1), ':') {
                let j = choose|j: int| 0 <= j < s.skip(1).len() && s.skip(1)[j] == ':';
                assert(s[j + 1] == ':');
            }
        }
        lemma_colon_spaced_id(s.skip(1));
        assert(seq![s[0]] + s.skip(1) =~= s);
    }
}

/// Text that neither starts nor ends with whitespace is its own trim.
pub proof fn lemma_trim_id(t: Seq<char>)
    requires
        t.len() == 0 || (!is_space(t[0]) && !is_space(t.last())),
    ensures
        spec_trim(t) == t,
{
    assert(spec_trim_front(t) == t);
    assert(spec_trim_back(t) == t);
}

/// Appending whitespace adds no token.
pub proof fn lemma_tokens_append_spaces(s: Seq<char>, sp: Seq<char>)
    requires
        forall|k: int| 0 <= k < sp.len() ==> is_space(sp[k]),
    ensures
        spec_tokens(s + sp) == spec_tokens(s),
    decreases sp.len(),
{
    if sp.len() == 0 {
        assert(s + sp =~= s);
    } else {
        assert((s + sp).drop_last() =~= s + sp.drop_last());
        assert((s + sp).last() == sp.last());
        lemma_tokens_append_spaces(s, sp.drop_last());
    }
}

/// Appending one whole word after whitespace (or at the start) appends
/// exactly that token.
pub proof fn lemma_tokens_append_token(s: Seq<char>, t: Seq<char>)
    requires
        s.len() == 0 || is_space(s.last()),
        t.len() > 0,
        forall|k: int| 0 <= k < t.len() ==> !is_space(t[k]),
    ensures
        spec_tokens(s + t) == spec_tokens(s).push(t),
    decreases t.len(),
{
    if t.len() == 1 {
        assert((s + t).drop_last() =~= s);
        assert((s + t).last() == t[0]);
        assert(!is_space(t[0]));
        assert(spec_tokens(s + t) == spec_tokens(s).push(seq![t[0]]));
        assert(seq![t[0]] =~= t);
    } else {
        assert((s + t).drop_last() =~= s + t.drop_last());
        assert((s + t).last() == t.last());
        lemma_tokens_append_token(s, t.drop_last());
        let rest = (s + t).drop_last();
        assert(rest.len() > 0);
        assert(rest.last() == t[t.len() - 2]);
        assert(!is_space(rest.last()));
        let tt = spec_tokens(rest);
        assert(tt == spec_tokens(s).push(t.drop_last()));
        assert(tt.len() == spec_tokens(s).len() + 1);
        assert(tt.last() == t.drop_last());
        assert(spec_tokens(s + t) == tt.update(tt.len() - 1, tt.last().push(t.last())));
        assert(t.drop_last().push(t.last()) =~= t);
        assert(tt.update(tt.len() - 1, t) =~= spec_tokens(s).push(t));
    }
}

/// Splitting on a separator that does not occur yields the single piece.
pub proof fn lemma_split_char_no_sep(t: Seq<char>, sep: char)
    requires
        !spec_contains_char(t, sep),
    ensures
        spec_split_char(t, sep) == seq![t],
    decreases t.len(),
{
    if t.len() == 0 {
        assert(t =~= Seq::<char>::empty());
        assert(spec_split_char(t, sep) =~~= seq![t]);
    } else {
        assert(t.last() != sep);
        assert(!spec_contains_char(t.drop_last(), sep)) by {
            if spec_contains_char(t.drop_last(), sep) {
                let j = choose|j: int| 0 <= j < t.drop_last().len() && t.drop_last()[j] == sep;
                assert(t[j] == sep);
            }
        }
        lemma_split_char_no_sep(t.drop_last(), sep);
        let sp = spec_split_char(t, sep);
        assert(sp == seq![t.drop_last()].update(0, t.drop_last().push(t.last())));
        assert(t.drop_last().push(t.last()) =~= t);
        assert(sp =~~= seq![t]);
    }
}

/// A plain word is its own single comma item.
pub proof fn lemma_comma_items_plain(t: Seq<char>)
    requires
        t.len() > 0,
        !spec_contains_char(t, ','),
        !is_space(t[0]),
        !is_space(t.last()),
    ensures
        spec_comma_items(t) == seq![t],
{
    lemma_split_char_no_sep(t, ',');
    lemma_trim_id(t);
    let m = spec_split_char(t, ',').map_values(|x: Seq<char>| spec_trim(x));
    assert(m =~~= seq![t]);
    reveal(Seq::filter);
    assert(m.drop_last() =~~= Seq::<Seq<char>>::empty());
    assert(m.filter(|x: Seq<char>| crate::split::nonempty_piece(x)) =~~= seq![t]);
}

/// A plain word with a trailing comma still yields that single item: the
/// empty piece after the comma is dropped.
pub proof fn lemma_comma_items_trailing_comma(b: Seq<char>)
    requires
        b.len() > 0,
        !spec_contains_char(b, ','),
        !is_space(b[0]),
        !is_space(b.last()),
    ensures
        spec_comma_items(b + seq![',']) == seq![b],
{
    let t = b + seq![','];
    assert(t.last() == ',');
    assert(t.drop_last() =~= b);
    lemma_split_char_no_sep(b, ',');
    assert(spec_split_char(t, ',') == seq![b].push(Seq::<char>::empty()));
    lemma_trim_id(b);
    let m = spec_split_char(t, ',').map_values(|x: Seq<char>| spec_trim(x));
    assert(spec_trim(Seq::<char>::empty()) =~= Seq::<char>::empty());
    assert(m =~~= seq![b, Seq::<char>::empty()]);
    reveal(Seq::filter);
    assert(m.drop_last() =~~= seq![b]);
    assert(m.drop_last().drop_last() =~~= Seq::<Seq<char>>::empty());
    assert(m.drop_last().filter(|x: Seq<char>| crate::split::nonempty_piece(x)) =~~= seq![b]);
    assert(m.filter(|x: Seq<char>| crate::split::nonempty_piece(x)) =~~= seq![b]);
}

/// The finished document is a function of the scanned files alone: two runs
/// over an unchanged tree render byte-identical output.
pub proof fn lemma_output_deterministic(a: Seq<Seq<Seq<char>>>, b: Seq<Seq<Seq<char>>>)
    requires
        a == b,
    ensures
        spec_extract_tree(a) == spec_extract_tree(b),
{
}

/// A pattern holding a character that a text never holds cannot stand in it.
pub proof fn lemma_no_char_no_sub(s: Seq<char>, p: Seq<char>, c: char)
    requires
        spec_contains_char(p, c),
        !spec_contains_char(s, c),
    ensures
        !spec_contains_sub(s, p),
{
    assert forall|i: int| !spec_matches_at(s, i, p) by {
        if spec_matches_at(s, i, p) {
            let k = choose|k: int| 0 <= k < p.len() && p[k] == c;
            assert(s.subrange(i, i + p.len())[k] == p[k]);
            assert(s[i + k] == c);
        }
    }
}

/// A field type without the generic marker never matches a wrapped declared
/// name, whatever was declared.
pub proof fn lemma_no_marker_no_generic_match(classes: Seq<Seq<char>>, t: Seq<char>, i: int)
    requires
        !spec_contains_char(t, '~'),
    ensures
        spec_generic_match(classes, t, i) == -1,
    decreases classes.len() - i,
{
    if 0 <= i && i < classes.len() {
        let p = seq!['~'] + classes[i] + seq!['~'];
        assert(p[0] == '~');
        lemma_no_char_no_sub(t, p, '~');
        lemma_no_marker_no_generic_match(classes, t, i + 1);
    }
}

/// A field of a plain type that was never declared contributes no surviving
/// edge: its aggregation candidate is dropped by resolution, not rewritten.
pub proof fn lemma_undeclared_plain_field_dropped(classes: Seq<Seq<char>>, a: ArrowV)
    requires
        a.kind == ArrowKind::Aggregation,
        !spec_declared(classes, a.end),
        !spec_contains_char(a.field_type, '~'),
    ensures
        spec_resolve_one(classes, a) == Seq::<ArrowV>::empty(),
{
    lemma_no_marker_no_generic_match(classes, a.field_type, 0);
}

/// An inheritance or realization candidate between two distinct names always
/// survives resolution unchanged, whether or not its endpoints were declared.
pub proof fn lemma_base_edge_kept(classes: Seq<Seq<char>>, a: ArrowV)
    requires
        a.kind == ArrowKind::Inheritance || a.kind == ArrowKind::Realization,
        a.start != a.end,
    ensures
        spec_resolve_one(classes, a) == seq![a],
{
}

proof fn lemma_access_kw_shape(access: Seq<char>)
    requires
        crate::parse::spec_is_access_kw(access),
    ensures
        ident_token(access),
        6 <= access.len() <= 9,
        access != "operator"@,
{
    reveal_strlit("public");
    reveal_strlit("private");
    reveal_strlit("protected");
    reveal_strlit("internal");
    reveal_strlit("operator");
    if access == "public"@ {
        assert forall|k: int| 0 <= k < access.len() implies is_ident_char(access[k]) by {}
        assert(access.len() == 6);
    } else if access == "private"@ {
        assert forall|k: int| 0 <= k < access.len() implies is_ident_char(access[k]) by {}
        assert(access.len() == 7);
    } else if access == "protected"@ {
        assert forall|k: int| 0 <= k < access.len() implies is_ident_char(access[k]) by {}
        assert(access.len() == 9);
    } else {
        assert(access == "internal"@);
        assert forall|k: int| 0 <= k < access.len() implies is_ident_char(access[k]) by {}
        assert(access[0] == 'i');
        assert("operator"@[0] == 'o');
        assert(access != "operator"@);
    }
    assert("operator"@.len() == 8);
}

/// The type-declaration line shape that the law below quantifies over.
pub open spec fn spec_class_line(
    access: Seq<char>,
    name: Seq<char>,
    b1: Seq<char>,
    b2: Seq<char>,
) -> Seq<char> {
    access + " class "@ + name + " : "@ + b1 + ", "@ + b2
}

proof fn lemma_class_line_shape(access: Seq<char>, name: Seq<char>, b1: Seq<char>, b2: Seq<char>)
    requires
        crate::parse::spec_is_access_kw(access),
        ident_token(name),
        ident_token(b1),
        ident_token(b2),
    ensures
        ({
            let line = spec_class_line(access, name, b1, b2);
            let al = access.len() as int;
            let nl = name.len() as int;
            let bl1 = b1.len() as int;
            let x = al + 10 + nl + bl1;
            &&& line.len() == x + 2 + b2.len()
            &&& forall|j: int| 0 <= j < al ==> line[j] == access[j]
            &&& forall|j: int| 0 <= j < 7 ==> line[al + j] == " class "@[j]
            &&& forall|j: int| 0 <= j < nl ==> line[al + 7 + j] == name[j]
            &&& forall|j: int| 0 <= j < 3 ==> line[al + 7 + nl + j] == " : "@[j]
            &&& forall|j: int| 0 <= j < bl1 ==> line[al + 10 + nl + j] == b1[j]
            &&& line[x] == ','
            &&& line[x + 1] == ' '
            &&& forall|j: int| 0 <= j < b2.len() ==> line[x + 2 + j] == b2[j]
            &&& forall|j: int|
                0 <= j < line.len() ==> (is_ident_char(line[j]) || line[j] == ' ' || line[j] == ':'
                    || line[j] == ',')
            &&& forall|j: int|
                0 <= j < line.len() && is_space(line[j]) ==> (j == al || j == al + 6 || j == al + 7
                    + nl || j == al + 9 + nl || j == x + 1)
        }),
{
    reveal_strlit(" class ");
    reveal_strlit(" : ");
    reveal_strlit(", ");
    lemma_access_kw_shape(access);
    let s1 = " class "@;
    let s2 = " : "@;
    let s3 = ", "@;
    let al = access.len() as int;
    let nl = name.len() as int;
    let bl1 = b1.len() as int;
    let line = spec_class_line(access, name, b1, b2);
    let x = al + 10 + nl + bl1;
    assert(line.len() == x + 2 + b2.len());
    assert forall|j: int| 0 <= j < al implies line[j] == access[j] by {}
    assert forall|j: int| 0 <= j < 7 implies line[al + j] == s1[j] by {}
    assert forall|j: int| 0 <= j < nl implies line[al + 7 + j] == name[j] by {}
    assert forall|j: int| 0 <= j < 3 implies line[al + 7 + nl + j] == s2[j] by {}
    assert forall|j: int| 0 <= j < bl1 implies line[al + 10 + nl + j] == b1[j] by {}
    assert(line[x] == ',');
    assert(line[x + 1] == ' ');
    assert forall|j: int| 0 <= j < b2.len() implies line[x + 2 + j] == b2[j] by {}
    assert forall|j: int|
        0 <= j < line.len() implies (is_ident_char(line[j]) || line[j] == ' ' || line[j] == ':'
            || line[j] == ',') by {
        if j < al {
        } else if j < al + 7 {
            assert(line[j] == s1[j - al]);
        } else if j < al + 7 + nl {
            assert(line[j] == name[j - al - 7]);
        } else if j < al + 10 + nl {
            assert(line[j] == s2[j - al - 7 - nl]);
        } else if j < x {
            assert(line[j] == b1[j - al - 10 - nl]);
        } else if j < x + 2 {
        } else {
            assert(line[j] == b2[j - x - 2]);
        }
    }
    assert forall|j: int|
        0 <= j < line.len() && is_space(line[j]) implies (j == al || j == al + 6 || j == al + 7
            + nl || j == al + 9 + nl || j == x + 1) by {
        if j < al {
            assert(is_ident_char(line[j]));
        } else if j < al + 7 {
            assert(line[j] == s1[j - al]);
        } else if j < al + 7 + nl {
            assert(is_ident_char(line[j]));
        } else if j < al + 10 + nl {
            assert(line[j] == s2[j - al - 7 - nl]);
        } else if j < x {
            assert(is_ident_char(line[j]));
        } else if j < x + 2 {
        } else {
            assert(is_ident_char(line[j]));
        }
    }
}

proof fn lemma_class_line_classify(access: Seq<char>, name: Seq<char>, b1: Seq<char>, b2: Seq<char>)
    requires
        crate::parse::spec_is_access_kw(access),
        ident_token(name),
        ident_token(b1),
        ident_token(b2),
        name != "operator"@,
    ensures
        ({
            let line = spec_class_line(access, name, b1, b2);
            &&& crate::parse::spec_classify(line, false) == crate::parse::LineKind::TypeDecl
            &&& crate::text::spec_normalize(line) == line
            &&& !spec_contains_char(line, '~')
        }),
{
    reveal_strlit(" class ");
    reveal_strlit(" : ");
    reveal_strlit(", ");
    reveal_strlit(" operator ");
    reveal_strlit("operator");
    reveal_strlit("DataContext =~ ");
    reveal_strlit("class");
    lemma_access_kw_shape(access);
    lemma_class_line_shape(access, name, b1, b2);
    let s1 = " class "@;
    let s2 = " : "@;
    let al = access.len() as int;
    let nl = name.len() as int;
    let bl1 = b1.len() as int;
    let bl2 = b2.len() as int;
    let line = spec_class_line(access, name, b1, b2);
    let x = al + 10 + nl + bl1;
    let op = " operator "@;
    assert(op.len() == 10);
    assert forall|i: int| !spec_matches_at(line, i, op) by {
        if spec_matches_at(line, i, op) {
            assert forall|k: int| 0 <= k < 10 implies line[i + k] == op[k] by {
                assert(line.subrange(i, i + 10)[k] == line[i + k]);
            }
            assert(line[i + 0] == op[0]);
            assert(op[0] == ' ');
            assert(line[i] == ' ');
            assert(is_space(line[i]));
            if i == al {
                assert(line[i + 1] == op[1]);
                assert(line[al + 1] == s1[1]);
                assert(op[1] == 'o');
            } else if i == al + 6 {
                assert(line[i + 9] == op[9]);
                assert(op[9] == ' ');
                assert(is_space(line[al + 15]));
                if nl == 8 {
                    assert forall|k: int| 0 <= k < 8 implies name[k] == "operator"@[k] by {
                        assert(line[al + 7 + k] == name[k]);
                        assert(line[i + (1 + k)] == op[1 + k]);
                        assert(i + (1 + k) == al + 7 + k);
                    }
                    assert(name =~= "operator"@);
                } else if nl < 8 {
                    assert(line[al + 7 + nl] == s2[0]);
                    assert(line[i + (1 + nl)] == op[1 + nl]);
                    assert(i + (1 + nl) == al + 7 + nl);
                } else {
                    assert(line[al + 7 + 8] == name[8]);
                    assert(is_ident_char(name[8]));
                }
            } else if i == al + 7 + nl {
                assert(line[i + 1] == op[1]);
                assert(line[al + 7 + nl + 1] == s2[1]);
                assert(op[1] == 'o');
            } else if i == al + 9 + nl {
                assert(line[i + 9] == op[9]);
                assert(op[9] == ' ');
                assert(is_space(line[al + 18 + nl]));
                assert(al + 18 + nl == x + 1);
                assert(bl1 == 7);
                assert(line[i + 8] == op[8]);
                assert(i + 8 == x);
                assert(op[8] == 'r');
            } else if i == x + 1 {
                assert(line[i + 9] == op[9]);
                assert(op[9] == ' ');
                assert(is_space(line[x + 10]));
                assert(line[x + 2 + 8] == b2[8]);
                assert(is_ident_char(b2[8]));
            }
            assert(false);
        }
    }
    assert(!spec_contains_sub(line, op));
    assert(spec_contains_char("DataContext =~ "@, '=')) by {
        assert("DataContext =~ "@[12] == '=');
    }
    assert(!spec_contains_char(line, '=')) by {
        if spec_contains_char(line, '=') {
            let j = choose|j: int| 0 <= j < line.len() && line[j] == '=';
            assert(is_ident_char(line[j]) || line[j] == ' ' || line[j] == ':' || line[j] == ',');
        }
    }
    lemma_no_char_no_sub(line, "DataContext =~ "@, '=');
    assert(line.subrange(0, al) =~= access);
    assert(crate::text::spec_token_at(line, 0, access)) by {
        assert(line[al] == s1[0]);
    }
    assert(crate::parse::spec_starts_access(line)) by {
        reveal_strlit("public");
        reveal_strlit("private");
        reveal_strlit("protected");
        reveal_strlit("internal");
    }
    assert(line.subrange(al + 1, al + 6) =~= "class"@) by {
        assert forall|k: int| 0 <= k < 5 implies line.subrange(al + 1, al + 6)[k] == "class"@[k] by {
            assert(line[al + 1 + k] == s1[1 + k]);
        }
    }
    assert(crate::text::spec_token_at(line, al + 1, "class"@)) by {
        assert(line[al] == s1[0]);
        assert(line[al + 6] == s1[6]);
    }
    assert(crate::text::spec_has_token(line, "class"@));
    assert(!crate::text::spec_ends_char(line, ';')) by {
        assert(line[x + 2 + (bl2 - 1)] == b2[bl2 - 1]);
        assert(is_ident_char(b2[bl2 - 1]));
    }
    assert(crate::parse::spec_classify(line, false) == crate::parse::LineKind::TypeDecl);
    assert(!is_space(line[0])) by {
        assert(line[0] == access[0]);
    }
    assert(!is_space(line.last())) by {
        assert(line[x + 2 + (bl2 - 1)] == b2[bl2 - 1]);
    }
    lemma_trim_id(line);
    assert(crate::text::spec_normalize(line) =~= line) by {
        assert forall|j: int|
            0 <= j < line.len() implies crate::text::spec_mark(line[j]) == line[j] by {
            assert(is_ident_char(line[j]) || line[j] == ' ' || line[j] == ':' || line[j] == ',');
        }
    }
    assert(!spec_contains_char(line, '~')) by {
        if spec_contains_char(line, '~') {
            let j = choose|j: int| 0 <= j < line.len() && line[j] == '~';
            assert(is_ident_char(line[j]) || line[j] == ' ' || line[j] == ':' || line[j] == ',');
        }
    }
}

proof fn lemma_no_colon_in_ident(t: Seq<char>)
    requires
        forall|k: int| 0 <= k < t.len() ==> is_ident_char(t[k]),
    ensures
        !spec_contains_char(t, ':'),
        !spec_contains_char(t, ','),
{
    if spec_contains_char(t, ':') {
        let j = choose|j: int| 0 <= j < t.len() && t[j] == ':';
        assert(is_ident_char(t[j]));
    }
    if spec_contains_char(t, ',') {
        let j = choose|j: int| 0 <= j < t.len() && t[j] == ',';
        assert(is_ident_char(t[j]));
    }
}

proof fn lemma_class_line_parse(access: Seq<char>, name: Seq<char>, b1: Seq<char>, b2: Seq<char>)
    requires
        crate::parse::spec_is_access_kw(access),
        ident_token(name),
        ident_token(b1),
        ident_token(b2),
        !spec_contains_char(spec_class_line(access, name, b1, b2), '~'),
    ensures
        crate::parse::spec_type_name(spec_class_line(access, name, b1, b2)) == name,
        crate::parse::spec_type_bases(spec_class_line(access, name, b1, b2)) == seq![b1, b2],
{
    reveal_strlit(" class ");
    reveal_strlit(" : ");
    reveal_strlit(", ");
    reveal_strlit("class");
    lemma_access_kw_shape(access);
    let s1 = " class "@;
    let s2 = " : "@;
    let s3 = ", "@;
    let nl = name.len() as int;
    let bl1 = b1.len() as int;
    let bl2 = b2.len() as int;
    let line = spec_class_line(access, name, b1, b2);
    lemma_collapse_id(line);
    let s2w = seq![' ', ' ', ':', ' ', ' '];
    assert(spec_colon_spaced(s2) =~= s2w) by {
        assert(s2.skip(1).skip(1) =~= s2.skip(2));
        assert(s2.skip(2).skip(1) =~= s2.skip(3));
        assert(s2.skip(3) =~= Seq::<char>::empty());
        assert(spec_colon_spaced(s2.skip(3)) =~= Seq::<char>::empty());
        assert(s2.skip(2)[0] == ' ');
        assert(spec_colon_spaced(s2.skip(2)) =~= seq![' ']);
        assert(s2.skip(1)[0] == ':');
        assert(spec_colon_spaced(s2.skip(1)) =~= seq![' ', ':', ' ', ' ']);
    }
    lemma_no_colon_in_ident(access);
    lemma_no_colon_in_ident(name);
    lemma_no_colon_in_ident(b1);
    lemma_no_colon_in_ident(b2);
    assert(!spec_contains_char(s1, ':')) by {
        if spec_contains_char(s1, ':') {
            let j = choose|j: int| 0 <= j < 7 && s1[j] == ':';
        }
    }
    assert(!spec_contains_char(s3, ':')) by {
        if spec_contains_char(s3, ':') {
            let j = choose|j: int| 0 <= j < 2 && s3[j] == ':';
        }
    }
    lemma_colon_spaced_id(access);
    lemma_colon_spaced_id(name);
    lemma_colon_spaced_id(b1);
    lemma_colon_spaced_id(b2);
    lemma_colon_spaced_id(s1);
    lemma_colon_spaced_id(s3);
    lemma_colon_spaced_concat(access + s1 + name + s2 + b1 + s3, b2);
    lemma_colon_spaced_concat(access + s1 + name + s2 + b1, s3);
    lemma_colon_spaced_concat(access + s1 + name + s2, b1);
    lemma_colon_spaced_concat(access + s1 + name, s2);
    lemma_colon_spaced_concat(access + s1, name);
    lemma_colon_spaced_concat(access, s1);
    let widened = access + s1 + name + s2w + b1 + s3 + b2;
    assert(spec_colon_spaced(line) =~= widened);
    let colon_tok = seq![':'];
    let b1c = b1 + seq![','];
    let sp1 = seq![' '];
    let sp2 = seq![' ', ' '];
    let cl = "class"@;
    let q1 = access;
    let q2 = q1 + sp1;
    let q3 = q2 + cl;
    let q4 = q3 + sp1;
    let q5 = q4 + name;
    let q6 = q5 + sp2;
    let q7 = q6 + colon_tok;
    let q8 = q7 + sp2;
    let q9 = q8 + b1c;
    let q10 = q9 + sp1;
    let q11 = q10 + b2;
    assert(q11 =~= widened);
    assert(spec_tokens(q1) == seq![access]) by {
        lemma_tokens_append_token(Seq::empty(), access);
        assert(Seq::empty() + access =~= access);
        assert(spec_tokens(Seq::<char>::empty()).push(access) =~~= seq![access]);
    }
    lemma_tokens_append_spaces(q1, sp1);
    assert(cl.len() == 5);
    assert forall|k: int| 0 <= k < 5 implies !is_space(cl[k]) by {}
    lemma_tokens_append_token(q2, cl);
    assert(spec_tokens(q3) =~~= seq![access, cl]);
    lemma_tokens_append_spaces(q3, sp1);
    assert forall|k: int| 0 <= k < nl implies !is_space(name[k]) by {}
    lemma_tokens_append_token(q4, name);
    assert(spec_tokens(q5) =~~= seq![access, cl, name]);
    lemma_tokens_append_spaces(q5, sp2);
    lemma_tokens_append_token(q6, colon_tok);
    assert(spec_tokens(q7) =~~= seq![access, cl, name, colon_tok]);
    lemma_tokens_append_spaces(q7, sp2);
    assert forall|k: int| 0 <= k < b1c.len() implies !is_space(b1c[k]) by {
        if k < bl1 {
            assert(b1c[k] == b1[k]);
        }
    }
    lemma_tokens_append_token(q8, b1c);
    assert(spec_tokens(q9) =~~= seq![access, cl, name, colon_tok, b1c]);
    lemma_tokens_append_spaces(q9, sp1);
    assert forall|k: int| 0 <= k < bl2 implies !is_space(b2[k]) by {}
    lemma_tokens_append_token(q10, b2);
    let toks6 = seq![access, cl, name, colon_tok, b1c, b2];
    assert(spec_tokens(widened) =~~= toks6);
    assert forall|k: int| 0 <= k < 5 implies is_ident_char(cl[k]) by {}
    lemma_comma_items_plain(access);
    lemma_comma_items_plain(name);
    lemma_comma_items_plain(b2);
    assert(!spec_contains_char(cl, ',')) by {
        if spec_contains_char(cl, ',') {
            let j = choose|j: int| 0 <= j < 5 && cl[j] == ',';
        }
    }
    assert(!spec_contains_char(colon_tok, ',')) by {
        if spec_contains_char(colon_tok, ',') {
            let j = choose|j: int| 0 <= j < 1 && colon_tok[j] == ',';
        }
    }
    lemma_comma_items_plain(cl);
    lemma_comma_items_plain(colon_tok);
    lemma_comma_items_trailing_comma(b1);
    let toks = seq![access, cl, name, colon_tok, b1, b2];
    assert(crate::split::spec_comma_split_all(toks6) =~~= toks) by {
        let t5 = seq![access, cl, name, colon_tok, b1c];
        let t4 = seq![access, cl, name, colon_tok];
        let t3 = seq![access, cl, name];
        let t2 = seq![access, cl];
        let t1 = seq![access];
        let t0 = Seq::<Seq<char>>::empty();
        assert(toks6.drop_last() =~~= t5);
        assert(t5.drop_last() =~~= t4);
        assert(t4.drop_last() =~~= t3);
        assert(t3.drop_last() =~~= t2);
        assert(t2.drop_last() =~~= t1);
        assert(t1.drop_last() =~~= t0);
        assert(t1.last() == access);
        assert(crate::split::spec_comma_split_all(t0) =~~= Seq::<Seq<char>>::empty());
        assert(crate::split::spec_comma_split_all(t1) =~~= seq![access]);
        assert(crate::split::spec_comma_split_all(t2) =~~= seq![access, cl]);
        assert(crate::split::spec_comma_split_all(t3) =~~= seq![access, cl, name]);
        assert(crate::split::spec_comma_split_all(t4) =~~= seq![access, cl, name, colon_tok]);
        assert(crate::split::spec_comma_split_all(t5) =~~= seq![access, cl, name, colon_tok, b1]);
    }
    assert(crate::parse::spec_type_tokens(line) =~~= toks);
    assert(crate::parse::spec_colon_index(toks, 0) == 3) by {
        assert(access != colon_tok) by {
            assert(access.len() != 1);
        }
        assert(cl != colon_tok) by {
            assert(cl.len() == 5);
        }
        assert(name != colon_tok) by {
            if name == colon_tok {
                assert(is_ident_char(name[0]));
            }
        }
        assert(crate::parse::spec_colon_index(toks, 0) == crate::parse::spec_colon_index(toks, 1));
        assert(crate::parse::spec_colon_index(toks, 1) == crate::parse::spec_colon_index(toks, 2));
        assert(crate::parse::spec_colon_index(toks, 2) == crate::parse::spec_colon_index(toks, 3));
        assert(crate::parse::spec_colon_index(toks, 3) == 3);
    }
    assert(crate::parse::spec_type_name(line) == name);
    assert(crate::parse::spec_type_bases(line) =~~= seq![b1, b2]);
}

/// For all type-declaration lines of the form `<access> class Name : Base1,
/// Base2` — identifier-shaped names, `Name` not the word `operator` (such a
/// line is skipped whole) and distinct from its bases (a self-edge is always
/// dropped) — extracting that one-line file yields exactly the type block
/// named `Name`, the declared name `Name`, and one candidate edge per base,
/// classified as realization when the base is interface-shaped and
/// inheritance otherwise; resolution keeps both edges, so the run renders
/// one relationship line per base.
pub proof fn lemma_type_declaration_line(
    access: Seq<char>,
    name: Seq<char>,
    b1: Seq<char>,
    b2: Seq<char>,
)
    requires
        crate::parse::spec_is_access_kw(access),
        ident_token(name),
        ident_token(b1),
        ident_token(b2),
        name != "operator"@,
        name != b1,
        name != b2,
    ensures
        ({
            let line = spec_class_line(access, name, b1, b2);
            let st = crate::extract::spec_extract(seq![line]);
            &&& st.out == crate::parse::spec_open_fragment(name) + "\n\t}"@
            &&& st.classes == seq![name]
            &&& st.arrows == seq![
                crate::parse::spec_base_arrow(name, b1),
                crate::parse::spec_base_arrow(name, b2),
            ]
            &&& crate::resolve::spec_render_arrows(
                crate::resolve::spec_resolve(st.classes, st.arrows),
            ) == crate::resolve::spec_render_arrow(crate::parse::spec_base_arrow(name, b1))
                + crate::resolve::spec_render_arrow(crate::parse::spec_base_arrow(name, b2))
        }),
{
    lemma_class_line_classify(access, name, b1, b2);
    lemma_class_line_parse(access, name, b1, b2);
    let line = spec_class_line(access, name, b1, b2);
    let a1 = crate::parse::spec_base_arrow(name, b1);
    let a2 = crate::parse::spec_base_arrow(name, b2);
    assert(crate::parse::spec_type_arrows(line) =~~= seq![a1, a2]) by {
        assert(crate::parse::spec_type_bases(line).map_values(
            |b: Seq<char>| crate::parse::spec_base_arrow(crate::parse::spec_type_name(line), b),
        ).len() == 2);
    }
    let lines0 = seq![line];
    let nlns = crate::extract::spec_norm_lines(lines0);
    assert(nlns =~~= seq![line]);
    assert(nlns.len() == 1);
    let st0 = crate::extract::spec_fold(nlns, 0);
    assert(st0 == crate::extract::spec_file_init());
    let st1 = crate::extract::spec_fold(nlns, 1);
    assert(st1 == crate::extract::spec_step(st0, nlns, 0));
    assert(nlns[0] == line);
    assert(st1.out =~= crate::parse::spec_open_fragment(name));
    assert(st1.classes =~~= seq![name]);
    assert(st1.arrows =~~= seq![a1, a2]);
    assert(st1.open_block);
    assert(st1.dc.len() == 0);
    let fin = crate::extract::spec_extract(lines0);
    assert(fin == crate::extract::spec_finalize(st1));
    assert(fin.out =~= crate::parse::spec_open_fragment(name) + "\n\t}"@);
    assert(fin.classes =~~= seq![name]);
    assert(fin.arrows =~~= seq![a1, a2]);
    lemma_base_edge_kept(fin.classes, a1);
    lemma_base_edge_kept(fin.classes, a2);
    let resolved = spec_resolve(fin.classes, fin.arrows);
    assert(resolved =~~= seq![a1, a2]) by {
        assert(fin.arrows.drop_last() =~~= seq![a1]);
        assert(seq![a1].drop_last() =~~= Seq::<ArrowV>::empty());
        assert(seq![a1].last() == a1);
        assert(spec_resolve(fin.classes, Seq::<ArrowV>::empty()) =~~= Seq::<ArrowV>::empty());
        assert(Seq::<ArrowV>::empty() + seq![a1] =~~= seq![a1]);
        assert(spec_resolve(fin.classes, seq![a1]) =~~= seq![a1]);
        assert(seq![a1] + seq![a2] =~~= seq![a1, a2]);
    }
    assert(crate::resolve::spec_render_arrows(resolved) =~= crate::resolve::spec_render_arrow(a1)
        + crate::resolve::spec_render_arrow(a2)) by {
        assert(resolved.drop_last() =~~= seq![a1]);
        assert(resolved.last() == a2);
        assert(seq![a1].drop_last() =~~= Seq::<ArrowV>::empty());
        assert(seq![a1].last() == a1);
        assert(crate::resolve::spec_render_arrows(Seq::<ArrowV>::empty()) =~= Seq::<char>::empty());
        assert(crate::resolve::spec_render_arrows(seq![a1]) =~= crate::resolve::spec_render_arrow(
            a1,
        ));
    }
}

/// An all-identifier word that stands with word boundaries inside a text
/// whose identifier characters form a known maximal run must be that whole
/// run.
proof fn lemma_ident_match_is_segment(line: Seq<char>, i: int, kw: Seq<char>, lo: int, hi: int)
    requires
        spec_matches_at(line, i, kw),
        kw.len() > 0,
        forall|k: int| 0 <= k < kw.len() ==> is_ident_char(kw[k]),
        i == 0 || !is_ident_char(line[i - 1]),
        i + kw.len() == line.len() || !is_ident_char(line[i + kw.len()]),
        0 <= lo <= hi <= line.len(),
        forall|j: int| lo <= j < hi ==> is_ident_char(line[j]),
        lo == 0 || !is_ident_char(line[lo - 1]),
        hi == line.len() || !is_ident_char(line[hi]),
        lo <= i < hi,
    ensures
        i == lo,
        i + kw.len() == hi,
        kw == line.subrange(lo, hi),
{
    assert forall|k: int| 0 <= k < kw.len() implies line[i + k] == kw[k] by {
        assert(line.subrange(i, i + kw.len())[k] == line[i + k]);
    }
    if i > lo {
        assert(is_ident_char(line[i - 1]));
        assert(false);
    }
    if i + kw.len() < hi {
        assert(is_ident_char(line[i + kw.len()]));
        assert(false);
    }
    if i + kw.len() > hi {
        assert(line[i + (hi - i)] == kw[hi - i]);
        assert(is_ident_char(line[hi]));
        assert(false);
    }
    assert(kw =~= line.subrange(lo, hi));
}

/// Where a run of non-whitespace characters ends at `p` and begins at `x`,
/// the backward name scan from `p` stops exactly at `x`.
proof fn lemma_name_start_at(s: Seq<char>, p: int, x: int)
    requires
        0 <= x <= p <= s.len(),
        forall|j: int| x <= j < p ==> !is_space(s[j]),
        x == 0 || is_space(s[x - 1]),
    ensures
        crate::text::spec_name_start(s, p) == x,
    decreases p,
{
    if p > x {
        assert(!is_space(s[p - 1]));
        lemma_name_start_at(s, p - 1, x);
    }
}

/// Splitting text that holds exactly one separator parts it there.
proof fn lemma_split_one_sep(a: Seq<char>, b: Seq<char>, sep: char)
    requires
        !spec_contains_char(a, sep),
        !spec_contains_char(b, sep),
    ensures
        spec_split_char(a + seq![sep] + b, sep) == seq![a, b],
    decreases b.len(),
{
    if b.len() == 0 {
        let t = a + seq![sep] + b;
        assert(t =~= a + seq![sep]);
        assert((a + seq![sep]).drop_last() =~= a);
        assert((a + seq![sep]).last() == sep);
        lemma_split_char_no_sep(a, sep);
        assert(spec_split_char(a + seq![sep], sep) =~~= seq![a, b]);
    } else {
        let t = a + seq![sep] + b;
        assert(t.last() == b.last());
        assert(b.last() != sep) by {
            if b.last() == sep {
                assert(b[b.len() - 1] == sep);
            }
        }
        assert(t.drop_last() =~= a + seq![sep] + b.drop_last());
        assert(!spec_contains_char(b.drop_last(), sep)) by {
            if spec_contains_char(b.drop_last(), sep) {
                let j = choose|j: int| 0 <= j < b.drop_last().len() && b.drop_last()[j] == sep;
                assert(b[j] == sep);
            }
        }
        lemma_split_one_sep(a, b.drop_last(), sep);
        let sp = spec_split_char(t, sep);
        assert(sp == seq![a, b.drop_last()].update(1, b.drop_last().push(b.last())));
        assert(b.drop_last().push(b.last()) =~= b);
        assert(sp =~~= seq![a, b]);
    }
}

/// The method-declaration line shape that the law below quantifies over.
pub open spec fn spec_method_line(
    access: Seq<char>,
    rt: Seq<char>,
    m: Seq<char>,
    t1: Seq<char>,
    p1: Seq<char>,
    t2: Seq<char>,
    p2: Seq<char>,
) -> Seq<char> {
    access + " "@ + rt + " "@ + m + "("@ + t1 + " "@ + p1 + ", "@ + t2 + " "@ + p2 + ")"@
}

proof fn lemma_method_line_shape(
    access: Seq<char>,
    rt: Seq<char>,
    m: Seq<char>,
    t1: Seq<char>,
    p1: Seq<char>,
    t2: Seq<char>,
    p2: Seq<char>,
)
    requires
        crate::parse::spec_is_access_kw(access),
        ident_token(rt),
        ident_token(m),
        ident_token(t1),
        ident_token(p1),
        ident_token(t2),
        ident_token(p2),
    ensures
        ({
            let line = spec_method_line(access, rt, m, t1, p1, t2, p2);
            let al = access.len() as int;
            let rtl = rt.len() as int;
            let ml = m.len() as int;
            let pp = al + 2 + rtl + ml;
            let aa = pp + 1 + t1.len();
            let bb = aa + 1 + p1.len();
            let cc = bb + 2 + t2.len();
            let ee = cc + 1 + p2.len();
            &&& line.len() == ee + 1
            &&& forall|j: int| 0 <= j < al ==> line[j] == access[j]
            &&& line[al] == ' '
            &&& forall|j: int| 0 <= j < rtl ==> line[al + 1 + j] == rt[j]
            &&& line[al + 1 + rtl] == ' '
            &&& forall|j: int| 0 <= j < ml ==> line[al + 2 + rtl + j] == m[j]
            &&& line[pp] == '('
            &&& forall|j: int| 0 <= j < t1.len() ==> line[pp + 1 + j] == t1[j]
            &&& line[aa] == ' '
            &&& forall|j: int| 0 <= j < p1.len() ==> line[aa + 1 + j] == p1[j]
            &&& line[bb] == ','
            &&& line[bb + 1] == ' '
            &&& forall|j: int| 0 <= j < t2.len() ==> line[bb + 2 + j] == t2[j]
            &&& line[cc] == ' '
            &&& forall|j: int| 0 <= j < p2.len() ==> line[cc + 1 + j] == p2[j]
            &&& line[ee] == ')'
            &&& forall|j: int|
                0 <= j < line.len() ==> (is_ident_char(line[j]) || line[j] == ' ' || line[j] == '('
                    || line[j] == ',' || line[j] == ')')
            &&& forall|j: int|
                0 <= j < line.len() && is_space(line[j]) ==> (j == al || j == al + 1 + rtl || j
                    == aa || j == bb + 1 || j == cc)
            &&& forall|j: int| 0 <= j < line.len() && line[j] == '(' ==> j == pp
            &&& forall|j: int| 0 <= j < line.len() && line[j] == ',' ==> j == bb
            &&& forall|j: int| 0 <= j < line.len() && line[j] == ')' ==> j == ee
            &&& forall|j: int|
                0 <= j < line.len() && is_ident_char(line[j]) ==> (j < al || (al + 1 <= j < al + 1
                    + rtl) || (al + 2 + rtl <= j < pp) || (pp + 1 <= j < aa) || (aa + 1 <= j < bb)
                    || (bb + 2 <= j < cc) || (cc + 1 <= j < ee))
        }),
{
    reveal_strlit(" ");
    reveal_strlit("(");
    reveal_strlit(", ");
    reveal_strlit(")");
    lemma_access_kw_shape(access);
    let line = spec_method_line(access, rt, m, t1, p1, t2, p2);
    let al = access.len() as int;
    let rtl = rt.len() as int;
    let ml = m.len() as int;
    let pp = al + 2 + rtl + ml;
    let aa = pp + 1 + t1.len();
    let bb = aa + 1 + p1.len();
    let cc = bb + 2 + t2.len();
    let ee = cc + 1 + p2.len();
    assert(line.len() == ee + 1);
    assert forall|j: int| 0 <= j < al implies line[j] == access[j] by {}
    assert(line[al] == ' ');
    assert forall|j: int| 0 <= j < rtl implies line[al + 1 + j] == rt[j] by {}
    assert(line[al + 1 + rtl] == ' ');
    assert forall|j: int| 0 <= j < ml implies line[al + 2 + rtl + j] == m[j] by {}
    assert(line[pp] == '(');
    assert forall|j: int| 0 <= j < t1.len() implies line[pp + 1 + j] == t1[j] by {}
    assert(line[aa] == ' ');
    assert forall|j: int| 0 <= j < p1.len() implies line[aa + 1 + j] == p1[j] by {}
    assert(line[bb] == ',');
    assert(line[bb + 1] == ' ');
    assert forall|j: int| 0 <= j < t2.len() implies line[bb + 2 + j] == t2[j] by {}
    assert(line[cc] == ' ');
    assert forall|j: int| 0 <= j < p2.len() implies line[cc + 1 + j] == p2[j] by {}
    assert(line[ee] == ')');
    assert forall|j: int|
        0 <= j < line.len() implies (is_ident_char(line[j]) || line[j] == ' ' || line[j] == '('
            || line[j] == ',' || line[j] == ')') by {
        lemma_method_line_char_at(access, rt, m, t1, p1, t2, p2, j);
    }
    assert forall|j: int|
        0 <= j < line.len() && is_space(line[j]) implies (j == al || j == al + 1 + rtl || j == aa
            || j == bb + 1 || j == cc) by {
        lemma_method_line_char_at(access, rt, m, t1, p1, t2, p2, j);
    }
    assert forall|j: int| 0 <= j < line.len() && line[j] == '(' implies j == pp by {
        lemma_method_line_char_at(access, rt, m, t1, p1, t2, p2, j);
    }
    assert forall|j: int| 0 <= j < line.len() && line[j] == ',' implies j == bb by {
        lemma_method_line_char_at(access, rt, m, t1, p1, t2, p2, j);
    }
    assert forall|j: int| 0 <= j < line.len() && line[j] == ')' implies j == ee by {
        lemma_method_line_char_at(access, rt, m, t1, p1, t2, p2, j);
    }
    assert forall|j: int|
        0 <= j < line.len() && is_ident_char(line[j]) implies (j < al || (al + 1 <= j < al + 1
            + rtl) || (al + 2 + rtl <= j < pp) || (pp + 1 <= j < aa) || (aa + 1 <= j < bb) || (bb
            + 2 <= j < cc) || (cc + 1 <= j < ee)) by {
        lemma_method_line_char_at(access, rt, m, t1, p1, t2, p2, j);
    }
}

proof fn lemma_method_line_char_at(
    access: Seq<char>,
    rt: Seq<char>,
    m: Seq<char>,
    t1: Seq<char>,
    p1: Seq<char>,
    t2: Seq<char>,
    p2: Seq<char>,
    j: int,
)
    requires
        crate::parse::spec_is_access_kw(access),
        ident_token(rt),
        ident_token(m),
        ident_token(t1),
        ident_token(p1),
        ident_token(t2),
        ident_token(p2),
        0 <= j < spec_method_line(access, rt, m, t1, p1, t2, p2).len(),
    ensures
        ({
            let line = spec_method_line(access, rt, m, t1, p1, t2, p2);
            let al = access.len() as int;
            let rtl = rt.len() as int;
            let ml = m.len() as int;
            let pp = al + 2 + rtl + ml;
            let aa = pp + 1 + t1.len();
            let bb = aa + 1 + p1.len();
            let cc = bb + 2 + t2.len();
            let ee = cc + 1 + p2.len();
            &&& (j < al ==> line[j] == access[j] && is_ident_char(line[j]))
            &&& (j == al ==> line[j] == ' ')
            &&& (al + 1 <= j < al + 1 + rtl ==> line[j] == rt[j - al - 1] && is_ident_char(line[j]))
            &&& (j == al + 1 + rtl ==> line[j] == ' ')
            &&& (al + 2 + rtl <= j < pp ==> line[j] == m[j - al - 2 - rtl] && is_ident_char(
                line[j],
            ))
            &&& (j == pp ==> line[j] == '(')
            &&& (pp + 1 <= j < aa ==> line[j] == t1[j - pp - 1] && is_ident_char(line[j]))
            &&& (j == aa ==> line[j] == ' ')
            &&& (aa + 1 <= j < bb ==> line[j] == p1[j - aa - 1] && is_ident_char(line[j]))
            &&& (j == bb ==> line[j] == ',')
            &&& (j == bb + 1 ==> line[j] == ' ')
            &&& (bb + 2 <= j < cc ==> line[j] == t2[j - bb - 2] && is_ident_char(line[j]))
            &&& (j == cc ==> line[j] == ' ')
            &&& (cc + 1 <= j < ee ==> line[j] == p2[j - cc - 1] && is_ident_char(line[j]))
            &&& (j == ee ==> line[j] == ')')
        }),
{
    reveal_strlit(" ");
    reveal_strlit("(");
    reveal_strlit(", ");
    reveal_strlit(")");
    lemma_access_kw_shape(access);
}

proof fn lemma_access_kw_is_not(access: Seq<char>, kw: Seq<char>)
    requires
        crate::parse::spec_is_access_kw(access),
        kw == "class"@ || kw == "interface"@ || kw == "new"@,
    ensures
        access != kw,
{
    reveal_strlit("public");
    reveal_strlit("private");
    reveal_strlit("protected");
    reveal_strlit("internal");
    reveal_strlit("class");
    reveal_strlit("interface");
    reveal_strlit("new");
    assert("class"@.len() == 5);
    assert("interface"@.len() == 9);
    assert("new"@.len() == 3);
    assert("public"@.len() == 6);
    assert("private"@.len() == 7);
    assert("protected"@.len() == 9);
    assert("internal"@.len() == 8);
    if access == kw {
        assert(access == "protected"@ && kw == "interface"@);
        assert("protected"@[0] == 'p');
        assert("interface"@[0] == 'i');
        assert(access[0] == 'p' && access[0] == 'i');
        assert(false);
    }
}

proof fn lemma_method_line_no_kw(
    access: Seq<char>,
    rt: Seq<char>,
    m: Seq<char>,
    t1: Seq<char>,
    p1: Seq<char>,
    t2: Seq<char>,
    p2: Seq<char>,
    kw: Seq<char>,
)
    requires
        crate::parse::spec_is_access_kw(access),
        ident_token(rt),
        ident_token(m),
        ident_token(t1),
        ident_token(p1),
        ident_token(t2),
        ident_token(p2),
        kw == "class"@ || kw == "interface"@ || kw == "new"@,
        rt != kw && m != kw && t1 != kw && p1 != kw && t2 != kw && p2 != kw,
    ensures
        !crate::text::spec_has_token(spec_method_line(access, rt, m, t1, p1, t2, p2), kw),
{
    reveal_strlit("class");
    reveal_strlit("interface");
    reveal_strlit("new");
    let line = spec_method_line(access, rt, m, t1, p1, t2, p2);
    assert(kw.len() > 0);
    assert forall|k: int| 0 <= k < kw.len() implies is_ident_char(kw[k]) by {}
    assert forall|i: int| !crate::text::spec_token_at(line, i, kw) by {
        if crate::text::spec_token_at(line, i, kw) {
            lemma_method_line_kw_token_is_segment(access, rt, m, t1, p1, t2, p2, i, kw);
            lemma_access_kw_is_not(access, kw);
        }
    }
}

#[verifier::rlimit(100)]
proof fn lemma_method_line_no_keywords(
    access: Seq<char>,
    rt: Seq<char>,
    m: Seq<char>,
    t1: Seq<char>,
    p1: Seq<char>,
    t2: Seq<char>,
    p2: Seq<char>,
)
    requires
        crate::parse::spec_is_access_kw(access),
        ident_token(rt),
        ident_token(m),
        ident_token(t1),
        ident_token(p1),
        ident_token(t2),
        ident_token(p2),
        rt != "class"@ && m != "class"@ && t1 != "class"@ && p1 != "class"@ && t2 != "class"@
            && p2 != "class"@,
        rt != "interface"@ && m != "interface"@ && t1 != "interface"@ && p1 != "interface"@ && t2
            != "interface"@ && p2 != "interface"@,
        rt != "new"@ && m != "new"@ && t1 != "new"@ && p1 != "new"@ && t2 != "new"@ && p2
            != "new"@,
    ensures
        ({
            let line = spec_method_line(access, rt, m, t1, p1, t2, p2);
            &&& !crate::text::spec_has_token(line, "class"@)
            &&& !crate::text::spec_has_token(line, "interface"@)
            &&& !spec_contains_sub(line, " new "@)
        }),
{
    reveal_strlit("new");
    reveal_strlit(" new ");
    lemma_method_line_shape(access, rt, m, t1, p1, t2, p2);
    let line = spec_method_line(access, rt, m, t1, p1, t2, p2);
    lemma_method_line_no_kw(access, rt, m, t1, p1, t2, p2, "class"@);
    lemma_method_line_no_kw(access, rt, m, t1, p1, t2, p2, "interface"@);
    lemma_method_line_no_kw(access, rt, m, t1, p1, t2, p2, "new"@);
    assert forall|i: int| !spec_matches_at(line, i, " new "@) by {
        if spec_matches_at(line, i, " new "@) {
            assert(" new "@.len() == 5);
            assert forall|k: int| 0 <= k < 5 implies line[i + k] == " new "@[k] by {
                assert(line.subrange(i, i + 5)[k] == line[i + k]);
            }
            assert(line[i + 0] == " new "@[0]);
            assert(line[i + 4] == " new "@[4]);
            assert(line.subrange(i + 1, i + 4) =~= "new"@) by {
                assert forall|k: int|
                    0 <= k < 3 implies line.subrange(i + 1, i + 4)[k] == "new"@[k] by {
                    assert(line[i + (1 + k)] == " new "@[1 + k]);
                }
            }
            assert(crate::text::spec_token_at(line, i + 1, "new"@)) by {
                assert(!is_ident_char(line[i + 0]));
                assert(i + 1 + 3 == i + 4);
                assert(!is_ident_char(line[i + 4]));
            }
            assert(!crate::text::spec_has_token(line, "new"@));
            assert(false);
        }
    }
    assert(!spec_contains_sub(line, " new "@));
}

#[verifier::rlimit(100)]
proof fn lemma_method_line_no_operator(
    access: Seq<char>,
    rt: Seq<char>,
    m: Seq<char>,
    t1: Seq<char>,
    p1: Seq<char>,
    t2: Seq<char>,
    p2: Seq<char>,
)
    requires
        crate::parse::spec_is_access_kw(access),
        ident_token(rt),
        ident_token(m),
        ident_token(t1),
        ident_token(p1),
        ident_token(t2),
        ident_token(p2),
        rt != "operator"@,
        t2 != "operator"@,
    ensures
        !spec_contains_sub(spec_method_line(access, rt, m, t1, p1, t2, p2), " operator "@),
{
    reveal_strlit(" operator ");
    reveal_strlit("operator");
    lemma_method_line_shape(access, rt, m, t1, p1, t2, p2);
    let line = spec_method_line(access, rt, m, t1, p1, t2, p2);
    let al = access.len() as int;
    let rtl = rt.len() as int;
    let ml = m.len() as int;
    let pp = al + 2 + rtl + ml;
    let aa = pp + 1 + t1.len();
    let bb = aa + 1 + p1.len();
    let cc = bb + 2 + t2.len();
    let ee = cc + 1 + p2.len();
    // the operator guard never fires
    let op = " operator "@;
    assert(op.len() == 10);
    assert forall|i: int| !spec_matches_at(line, i, op) by {
        if spec_matches_at(line, i, op) {
            assert forall|k: int| 0 <= k < 10 implies line[i + k] == op[k] by {
                assert(line.subrange(i, i + 10)[k] == line[i + k]);
            }
            assert(line[i + 0] == op[0]);
            assert(op[0] == ' ');
            assert(line[i] == ' ');
            assert(is_space(line[i]));
            assert(line[i + 9] == op[9]);
            assert(op[9] == ' ');
            assert(is_space(line[i + 9]));
            assert(i + 9 < line.len());
            if i == al {
                if i + 9 == al + 1 + rtl {
                    assert(rtl == 8);
                    assert forall|k: int| 0 <= k < 8 implies rt[k] == "operator"@[k] by {
                        assert(line[i + (1 + k)] == op[1 + k]);
                        assert(i + (1 + k) == al + 1 + k);
                        assert(line[al + 1 + k] == rt[k]);
                    }
                    assert(rt =~= "operator"@);
                } else {
                    assert(i + 9 == aa || i + 9 == bb + 1 || i + 9 == cc);
                    assert(rtl <= 7);
                    assert(line[i + (1 + rtl)] == op[1 + rtl]);
                    assert(i + (1 + rtl) == al + 1 + rtl);
                    assert(line[al + 1 + rtl] == ' ');
                }
            } else if i == al + 1 + rtl {
                assert(i + 9 == aa || i + 9 == bb + 1 || i + 9 == cc);
                assert(ml <= 7);
                assert(line[i + (1 + ml)] == op[1 + ml]);
                assert(i + (1 + ml) == pp);
                assert(line[pp] == '(');
            } else if i == aa {
                assert(i + 9 == bb + 1 || i + 9 == cc);
                let pl1 = p1.len() as int;
                assert(pl1 <= 7);
                assert(line[i + (1 + pl1)] == op[1 + pl1]);
                assert(i + (1 + pl1) == bb);
                assert(line[bb] == ',');
            } else if i == bb + 1 {
                if i + 9 == cc {
                    assert(t2.len() == 8);
                    assert forall|k: int| 0 <= k < 8 implies t2[k] == "operator"@[k] by {
                        assert(line[i + (1 + k)] == op[1 + k]);
                        assert(i + (1 + k) == bb + 2 + k);
                        assert(line[bb + 2 + k] == t2[k]);
                    }
                    assert(t2 =~= "operator"@);
                } else {
                    assert(false);
                }
            } else if i == cc {
                assert(i + 9 == al || i + 9 == al + 1 + rtl || i + 9 == aa || i + 9 == bb + 1 || i
                    + 9 == cc);
            }
            assert(false);
        }
    }
    assert(!spec_contains_sub(line, op));
}

#[verifier::rlimit(100)]
proof fn lemma_method_line_classify(
    access: Seq<char>,
    rt: Seq<char>,
    m: Seq<char>,
    t1: Seq<char>,
    p1: Seq<char>,
    t2: Seq<char>,
    p2: Seq<char>,
)
    requires
        crate::parse::spec_is_access_kw(access),
        ident_token(rt),
        ident_token(m),
        ident_token(t1),
        ident_token(p1),
        ident_token(t2),
        ident_token(p2),
        rt != "operator"@,
        t2 != "operator"@,
        rt != "class"@ && m != "class"@ && t1 != "class"@ && p1 != "class"@ && t2 != "class"@
            && p2 != "class"@,
        rt != "interface"@ && m != "interface"@ && t1 != "interface"@ && p1 != "interface"@ && t2
            != "interface"@ && p2 != "interface"@,
        rt != "new"@ && m != "new"@ && t1 != "new"@ && p1 != "new"@ && t2 != "new"@ && p2
            != "new"@,
    ensures
        ({
            let line = spec_method_line(access, rt, m, t1, p1, t2, p2);
            &&& crate::parse::spec_classify(line, false) == crate::parse::LineKind::MethodDecl
            &&& crate::text::spec_normalize(line) == line
        }),
{
    reveal_strlit(" operator ");
    reveal_strlit("operator");
    reveal_strlit("DataContext =~ ");
    reveal_strlit("class");
    reveal_strlit("interface");
    reveal_strlit("new");
    reveal_strlit(" new ");
    lemma_access_kw_shape(access);
    lemma_method_line_shape(access, rt, m, t1, p1, t2, p2);
    let line = spec_method_line(access, rt, m, t1, p1, t2, p2);
    let al = access.len() as int;
    let rtl = rt.len() as int;
    let ml = m.len() as int;
    let pp = al + 2 + rtl + ml;
    let aa = pp + 1 + t1.len();
    let bb = aa + 1 + p1.len();
    let cc = bb + 2 + t2.len();
    let ee = cc + 1 + p2.len();
    lemma_method_line_no_operator(access, rt, m, t1, p1, t2, p2);
    // no assignment marker
    assert(spec_contains_char("DataContext =~ "@, '=')) by {
        assert("DataContext =~ "@[12] == '=');
    }
    assert(!spec_contains_char(line, '=')) by {
        if spec_contains_char(line, '=') {
            let j = choose|j: int| 0 <= j < line.len() && line[j] == '=';
            assert(is_ident_char(line[j]) || line[j] == ' ' || line[j] == '(' || line[j] == ','
                || line[j] == ')');
        }
    }
    lemma_no_char_no_sub(line, "DataContext =~ "@, '=');
    lemma_method_line_no_keywords(access, rt, m, t1, p1, t2, p2);
    // the parenthesis pair
    assert(crate::parse::spec_has_paren_pair(line)) by {
        assert(line[pp] == '(' && line[ee] == ')' && 0 <= pp < ee < line.len());
    }
    // starts with the access keyword
    assert(line.subrange(0, al) =~= access);
    assert(crate::text::spec_token_at(line, 0, access)) by {
        assert(line[al] == ' ');
    }
    assert(crate::parse::spec_starts_access(line)) by {
        reveal_strlit("public");
        reveal_strlit("private");
        reveal_strlit("protected");
        reveal_strlit("internal");
    }
    assert(crate::parse::spec_classify(line, false) == crate::parse::LineKind::MethodDecl);
    // normalization leaves the line as it stands
    assert(!is_space(line[0])) by {
        assert(line[0] == access[0]);
    }
    assert(!is_space(line.last())) by {
        assert(line[ee] == ')');
    }
    lemma_trim_id(line);
    assert(crate::text::spec_normalize(line) =~= line) by {
        assert forall|j: int|
            0 <= j < line.len() implies crate::text::spec_mark(line[j]) == line[j] by {
            assert(is_ident_char(line[j]) || line[j] == ' ' || line[j] == '(' || line[j] == ','
                || line[j] == ')');
        }
    }
}

#[verifier::rlimit(100)]
proof fn lemma_method_line_kw_token_is_segment(
    access: Seq<char>,
    rt: Seq<char>,
    m: Seq<char>,
    t1: Seq<char>,
    p1: Seq<char>,
    t2: Seq<char>,
    p2: Seq<char>,
    i: int,
    kw: Seq<char>,
)
    requires
        crate::parse::spec_is_access_kw(access),
        ident_token(rt),
        ident_token(m),
        ident_token(t1),
        ident_token(p1),
        ident_token(t2),
        ident_token(p2),
        kw.len() > 0,
        forall|k: int| 0 <= k < kw.len() ==> is_ident_char(kw[k]),
        crate::text::spec_token_at(spec_method_line(access, rt, m, t1, p1, t2, p2), i, kw),
    ensures
        kw == access || kw == rt || kw == m || kw == t1 || kw == p1 || kw == t2 || kw == p2,
{
    lemma_method_line_shape(access, rt, m, t1, p1, t2, p2);
    let line = spec_method_line(access, rt, m, t1, p1, t2, p2);
    let al = access.len() as int;
    let rtl = rt.len() as int;
    let ml = m.len() as int;
    let pp = al + 2 + rtl + ml;
    let aa = pp + 1 + t1.len();
    let bb = aa + 1 + p1.len();
    let cc = bb + 2 + t2.len();
    let ee = cc + 1 + p2.len();
    assert(line.subrange(i, i + kw.len())[0] == line[i + 0]);
    assert(line[i + 0] == kw[0]);
    assert(is_ident_char(line[i]));
    if i < al {
        lemma_ident_match_is_segment(line, i, kw, 0, al);
        assert(kw =~= access);
    } else if al + 1 <= i < al + 1 + rtl {
        lemma_ident_match_is_segment(line, i, kw, al + 1, al + 1 + rtl);
        assert(kw =~= rt) by {
            assert forall|k: int| 0 <= k < rtl implies line.subrange(al + 1, al + 1 + rtl)[k]
                == rt[k] by {
                assert(line[al + 1 + k] == rt[k]);
            }
            assert(line.subrange(al + 1, al + 1 + rtl) =~= rt);
        }
    } else if al + 2 + rtl <= i < pp {
        lemma_ident_match_is_segment(line, i, kw, al + 2 + rtl, pp);
        assert(kw =~= m) by {
            assert forall|k: int| 0 <= k < ml implies line.subrange(al + 2 + rtl, pp)[k] == m[k] by {
                assert(line[al + 2 + rtl + k] == m[k]);
            }
            assert(line.subrange(al + 2 + rtl, pp) =~= m);
        }
    } else if pp + 1 <= i < aa {
        lemma_ident_match_is_segment(line, i, kw, pp + 1, aa);
        assert(kw =~= t1) by {
            assert forall|k: int| 0 <= k < t1.len() implies line.subrange(pp + 1, aa)[k]
                == t1[k] by {
                assert(line[pp + 1 + k] == t1[k]);
            }
            assert(line.subrange(pp + 1, aa) =~= t1);
        }
    } else if aa + 1 <= i < bb {
        lemma_ident_match_is_segment(line, i, kw, aa + 1, bb);
        assert(kw =~= p1) by {
            assert forall|k: int| 0 <= k < p1.len() implies line.subrange(aa + 1, bb)[k]
                == p1[k] by {
                assert(line[aa + 1 + k] == p1[k]);
            }
            assert(line.subrange(aa + 1, bb) =~= p1);
        }
    } else if bb + 2 <= i < cc {
        lemma_ident_match_is_segment(line, i, kw, bb + 2, cc);
        assert(kw =~= t2) by {
            assert forall|k: int| 0 <= k < t2.len() implies line.subrange(bb + 2, cc)[k]
                == t2[k] by {
                assert(line[bb + 2 + k] == t2[k]);
            }
            assert(line.subrange(bb + 2, cc) =~= t2);
        }
    } else {
        assert(cc + 1 <= i < ee);
        lemma_ident_match_is_segment(line, i, kw, cc + 1, ee);
        assert(kw =~= p2) by {
            assert forall|k: int| 0 <= k < p2.len() implies line.subrange(cc + 1, ee)[k]
                == p2[k] by {
                assert(line[cc + 1 + k] == p2[k]);
            }
            assert(line.subrange(cc + 1, ee) =~= p2);
        }
    }
}

proof fn lemma_params_rendered(t1: Seq<char>, p1: Seq<char>, t2: Seq<char>, p2: Seq<char>)
    requires
        ident_token(t1),
        ident_token(p1),
        ident_token(t2),
        ident_token(p2),
    ensures
        crate::parse::spec_params_rendered(
            t1 + seq![' '] + p1 + seq![','] + (seq![' '] + t2 + seq![' '] + p2),
        ) == (p1 + ": "@ + t1) + ", "@ + (p2 + ": "@ + t2),
{
    let sp1 = seq![' '];
    let a = t1 + sp1 + p1;
    let b = sp1 + t2 + sp1 + p2;
    let params = t1 + seq![' '] + p1 + seq![','] + (seq![' '] + t2 + seq![' '] + p2);
    assert(params =~= a + seq![','] + b);
    assert(!spec_contains_char(a, ',')) by {
        if spec_contains_char(a, ',') {
            let j = choose|j: int| 0 <= j < a.len() && a[j] == ',';
            if j < t1.len() {
                assert(is_ident_char(t1[j]));
            } else if j == t1.len() {
            } else {
                assert(is_ident_char(p1[j - t1.len() - 1]));
            }
        }
    }
    assert(!spec_contains_char(b, ',')) by {
        if spec_contains_char(b, ',') {
            let j = choose|j: int| 0 <= j < b.len() && b[j] == ',';
            if j == 0 {
            } else if j < 1 + t2.len() {
                assert(is_ident_char(t2[j - 1]));
            } else if j == 1 + t2.len() {
            } else {
                assert(is_ident_char(p2[j - t2.len() - 2]));
            }
        }
    }
    lemma_split_one_sep(a, b, ',');
    assert(spec_split_char(params, ',') == seq![a, b]);
    assert(a[0] == t1[0]);
    assert(a.last() == p1.last()) by {
        assert(a[t1.len() + 1 + (p1.len() - 1)] == p1[p1.len() - 1]);
    }
    lemma_trim_id(a);
    let bt = t2 + sp1 + p2;
    assert(spec_trim(b) == bt) by {
        assert(b[0] == ' ');
        assert(is_space(b[0]));
        assert(b.skip(1) =~= bt);
        assert(bt[0] == t2[0]);
        assert(!is_space(bt[0]));
        assert(crate::text::spec_trim_front(b) == crate::text::spec_trim_front(b.skip(1)));
        assert(crate::text::spec_trim_front(bt) == bt);
        assert(bt.last() == p2.last()) by {
            assert(bt[t2.len() + 1 + (p2.len() - 1)] == p2[p2.len() - 1]);
        }
        assert(!is_space(bt.last()));
        assert(crate::text::spec_trim_back(bt) == bt);
    }
    assert(spec_tokens(a) =~~= seq![t1, p1]) by {
        let w1 = t1;
        let w2 = w1 + sp1;
        let w3 = w2 + p1;
        assert(w3 =~= a);
        assert(spec_tokens(w1) == seq![t1]) by {
            lemma_tokens_append_token(Seq::empty(), t1);
            assert(Seq::empty() + t1 =~= t1);
            assert(spec_tokens(Seq::<char>::empty()).push(t1) =~~= seq![t1]);
        }
        lemma_tokens_append_spaces(w1, sp1);
        assert forall|k: int| 0 <= k < p1.len() implies !is_space(p1[k]) by {}
        lemma_tokens_append_token(w2, p1);
    }
    assert(spec_tokens(bt) =~~= seq![t2, p2]) by {
        let w1 = t2;
        let w2 = w1 + sp1;
        let w3 = w2 + p2;
        assert(w3 =~= bt);
        assert(spec_tokens(w1) == seq![t2]) by {
            lemma_tokens_append_token(Seq::empty(), t2);
            assert(Seq::empty() + t2 =~= t2);
            assert(spec_tokens(Seq::<char>::empty()).push(t2) =~~= seq![t2]);
        }
        lemma_tokens_append_spaces(w1, sp1);
        assert forall|k: int| 0 <= k < p2.len() implies !is_space(p2[k]) by {}
        lemma_tokens_append_token(w2, p2);
    }
    let r1 = p1 + ": "@ + t1;
    let r2 = p2 + ": "@ + t2;
    assert(crate::parse::spec_param_render(spec_trim(a)) == r1) by {
        assert(spec_trim(a) == a);
        assert(a.len() > 0);
        assert(spec_tokens(a)[0] == t1);
        assert(spec_tokens(a)[1] == p1);
    }
    assert(crate::parse::spec_param_render(spec_trim(b)) == r2) by {
        assert(spec_trim(b) == bt);
        assert(bt.len() > 0);
        assert(spec_tokens(bt)[0] == t2);
        assert(spec_tokens(bt)[1] == p2);
    }
    assert(crate::parse::spec_params_rendered(params) == r1 + ", "@ + r2) by {
        let mapped = seq![a, b].map_values(
            |t: Seq<char>| crate::parse::spec_param_render(spec_trim(t)),
        );
        assert(mapped =~~= seq![r1, r2]);
        assert(mapped.drop_last() =~~= seq![r1]);
        assert(mapped.last() == r2);
        assert(crate::split::spec_join(seq![r1], ", "@) == r1);
        assert(crate::split::spec_join(mapped, ", "@) == r1 + ", "@ + r2);
    }
}

proof fn lemma_prefix_tokens(access: Seq<char>, rt: Seq<char>)
    requires
        crate::parse::spec_is_access_kw(access),
        ident_token(rt),
    ensures
        spec_tokens(access + seq![' '] + rt + seq![' ']) == seq![access, rt],
{
    lemma_access_kw_shape(access);
    let sp1 = seq![' '];
    let q1 = access;
    let q2 = q1 + sp1;
    let q3 = q2 + rt;
    assert(spec_tokens(q1) == seq![access]) by {
        lemma_tokens_append_token(Seq::empty(), access);
        assert(Seq::empty() + access =~= access);
        assert(spec_tokens(Seq::<char>::empty()).push(access) =~~= seq![access]);
    }
    lemma_tokens_append_spaces(q1, sp1);
    assert forall|k: int| 0 <= k < rt.len() implies !is_space(rt[k]) by {}
    lemma_tokens_append_token(q2, rt);
    assert(spec_tokens(q3) =~~= seq![access, rt]);
    lemma_tokens_append_spaces(q3, sp1);
}

#[verifier::rlimit(100)]
proof fn lemma_method_line_positions(
    access: Seq<char>,
    rt: Seq<char>,
    m: Seq<char>,
    t1: Seq<char>,
    p1: Seq<char>,
    t2: Seq<char>,
    p2: Seq<char>,
)
    requires
        crate::parse::spec_is_access_kw(access),
        ident_token(rt),
        ident_token(m),
        ident_token(t1),
        ident_token(p1),
        ident_token(t2),
        ident_token(p2),
    ensures
        ({
            let line = spec_method_line(access, rt, m, t1, p1, t2, p2);
            let al = access.len() as int;
            let rtl = rt.len() as int;
            let ml = m.len() as int;
            let pp = al + 2 + rtl + ml;
            let ee = pp + 5 + t1.len() + p1.len() + t2.len() + p2.len();
            &&& line.len() == ee + 1
            &&& spec_find_char(line, '(', 0) == pp
            &&& spec_find_char(line, ')', pp + 1) == ee
            &&& crate::text::spec_name_start(line, pp) == al + 2 + rtl
        }),
{
    lemma_method_line_shape(access, rt, m, t1, p1, t2, p2);
    let line = spec_method_line(access, rt, m, t1, p1, t2, p2);
    let al = access.len() as int;
    let rtl = rt.len() as int;
    let ml = m.len() as int;
    let pp = al + 2 + rtl + ml;
    let aa = pp + 1 + t1.len();
    let bb = aa + 1 + p1.len();
    let cc = bb + 2 + t2.len();
    let ee = cc + 1 + p2.len();
    crate::text::lemma_find_char_props(line, '(', 0);
    let fp = spec_find_char(line, '(', 0);
    assert(fp == pp) by {
        assert(line[pp] == '(');
        if fp < line.len() {
            assert(line[fp] == '(');
        }
    }
    crate::text::lemma_find_char_props(line, ')', pp + 1);
    let fq = spec_find_char(line, ')', pp + 1);
    assert(fq == ee) by {
        assert(line[ee] == ')');
        if fq < line.len() {
            assert(line[fq] == ')');
        }
    }
    assert forall|j: int| al + 2 + rtl <= j < pp implies !is_space(line[j]) by {
        assert(line[j] == m[j - al - 2 - rtl]);
        assert(is_ident_char(line[j]));
    }
    lemma_name_start_at(line, pp, al + 2 + rtl);
}

proof fn lemma_method_line_subranges(
    access: Seq<char>,
    rt: Seq<char>,
    m: Seq<char>,
    t1: Seq<char>,
    p1: Seq<char>,
    t2: Seq<char>,
    p2: Seq<char>,
)
    ensures
        ({
            let line = spec_method_line(access, rt, m, t1, p1, t2, p2);
            let al = access.len() as int;
            let rtl = rt.len() as int;
            let ml = m.len() as int;
            let pp = al + 2 + rtl + ml;
            let ee = pp + 5 + t1.len() + p1.len() + t2.len() + p2.len();
            &&& line.subrange(al + 2 + rtl, pp) == m
            &&& line.subrange(0, al + 2 + rtl) == access + seq![' '] + rt + seq![' ']
            &&& line.subrange(pp + 1, ee) == t1 + seq![' '] + p1 + seq![','] + (seq![' '] + t2
                + seq![' '] + p2)
        }),
{
    reveal_strlit(" ");
    reveal_strlit("(");
    reveal_strlit(", ");
    reveal_strlit(")");
    let line = spec_method_line(access, rt, m, t1, p1, t2, p2);
    let al = access.len() as int;
    let rtl = rt.len() as int;
    let ml = m.len() as int;
    let pp = al + 2 + rtl + ml;
    let ee = pp + 5 + t1.len() + p1.len() + t2.len() + p2.len();
    assert(line.subrange(al + 2 + rtl, pp) =~= m);
    assert(line.subrange(0, al + 2 + rtl) =~= access + seq![' '] + rt + seq![' ']);
    assert(line.subrange(pp + 1, ee) =~= t1 + seq![' '] + p1 + seq![','] + (seq![' '] + t2
        + seq![' '] + p2));
}

proof fn lemma_method_line_sig(
    access: Seq<char>,
    rt: Seq<char>,
    m: Seq<char>,
    t1: Seq<char>,
    p1: Seq<char>,
    t2: Seq<char>,
    p2: Seq<char>,
)
    requires
        crate::parse::spec_is_access_kw(access),
        ident_token(rt),
        ident_token(m),
        ident_token(t1),
        ident_token(p1),
        ident_token(t2),
        ident_token(p2),
        !crate::parse::spec_is_method_modifier(rt),
    ensures
        ({
            let line = spec_method_line(access, rt, m, t1, p1, t2, p2);
            let sig = crate::parse::spec_parse_method(line);
            &&& sig.ok
            &&& sig.vis == access
            &&& sig.rt == rt
            &&& sig.name == m
            &&& sig.params == t1 + seq![' '] + p1 + seq![','] + (seq![' '] + t2 + seq![' '] + p2)
        }),
{
    lemma_method_line_positions(access, rt, m, t1, p1, t2, p2);
    lemma_method_line_subranges(access, rt, m, t1, p1, t2, p2);
    lemma_prefix_tokens(access, rt);
    let line = spec_method_line(access, rt, m, t1, p1, t2, p2);
    let pre = spec_tokens(line.subrange(0, access.len() as int + 2 + rt.len() as int));
    assert(pre == seq![access, rt]);
    assert(pre[0] == access);
    assert(pre[1] == rt);
    assert(pre.len() == 2);
}

proof fn lemma_method_line_parse(
    access: Seq<char>,
    rt: Seq<char>,
    m: Seq<char>,
    t1: Seq<char>,
    p1: Seq<char>,
    t2: Seq<char>,
    p2: Seq<char>,
)
    requires
        crate::parse::spec_is_access_kw(access),
        ident_token(rt),
        ident_token(m),
        ident_token(t1),
        ident_token(p1),
        ident_token(t2),
        ident_token(p2),
        !crate::parse::spec_is_method_modifier(rt),
    ensures
        ({
            let line = spec_method_line(access, rt, m, t1, p1, t2, p2);
            crate::parse::spec_method_fragment(line) == "\n\t\t"@ + crate::parse::spec_glyph(access)
                + m + "("@ + (p1 + ": "@ + t1 + ", "@ + p2 + ": "@ + t2) + ")"@ + " "@ + rt
        }),
{
    lemma_method_line_sig(access, rt, m, t1, p1, t2, p2);
    lemma_params_rendered(t1, p1, t2, p2);
    let line = spec_method_line(access, rt, m, t1, p1, t2, p2);
    let sig = crate::parse::spec_parse_method(line);
    let r1 = p1 + ": "@ + t1;
    let r2 = p2 + ": "@ + t2;
    assert(crate::parse::spec_params_rendered(sig.params) == r1 + ", "@ + r2);
    assert(sig.rt.len() > 0);
    assert(crate::parse::spec_method_fragment(line) =~= "\n\t\t"@ + crate::parse::spec_glyph(
        access,
    ) + m + "("@ + (r1 + ", "@ + r2) + ")"@ + " "@ + rt);
    assert(r1 + ", "@ + r2 =~= p1 + ": "@ + t1 + ", "@ + p2 + ": "@ + t2);
    assert("\n\t\t"@ + crate::parse::spec_glyph(access) + m + "("@ + (r1 + ", "@ + r2) + ")"@
        + " "@ + rt =~= "\n\t\t"@ + crate::parse::spec_glyph(access) + m + "("@ + (p1 + ": "@ + t1
        + ", "@ + p2 + ": "@ + t2) + ")"@ + " "@ + rt);
}

/// For all method-declaration lines `<access> ReturnType MethodName(T1 p1,
/// T2 p2)` — identifier-shaped tokens that are none of the keywords the
/// classifier watches for, and a return type that is not a modifier — the
/// rendered member is `MethodName(p1: T1, p2: T2) ReturnType`, prefixed with
/// the glyph matching the declared access (the default glyph when the access
/// is not private or protected), and the line declares no name and no edge.
pub proof fn lemma_method_declaration_line(
    access: Seq<char>,
    rt: Seq<char>,
    m: Seq<char>,
    t1: Seq<char>,
    p1: Seq<char>,
    t2: Seq<char>,
    p2: Seq<char>,
)
    requires
        crate::parse::spec_is_access_kw(access),
        ident_token(rt),
        ident_token(m),
        ident_token(t1),
        ident_token(p1),
        ident_token(t2),
        ident_token(p2),
        rt != "operator"@,
        t2 != "operator"@,
        rt != "class"@ && m != "class"@ && t1 != "class"@ && p1 != "class"@ && t2 != "class"@
            && p2 != "class"@,
        rt != "interface"@ && m != "interface"@ && t1 != "interface"@ && p1 != "interface"@ && t2
            != "interface"@ && p2 != "interface"@,
        rt != "new"@ && m != "new"@ && t1 != "new"@ && p1 != "new"@ && t2 != "new"@ && p2
            != "new"@,
        !crate::parse::spec_is_method_modifier(rt),
    ensures
        ({
            let line = spec_method_line(access, rt, m, t1, p1, t2, p2);
            let st = crate::extract::spec_extract(seq![line]);
            &&& st.out == "\n\t\t"@ + crate::parse::spec_glyph(access) + m + "("@ + (p1 + ": "@
                + t1 + ", "@ + p2 + ": "@ + t2) + ")"@ + " "@ + rt
            &&& st.classes == Seq::<Seq<char>>::empty()
            &&& st.arrows == Seq::<ArrowV>::empty()
        }),
{
    lemma_method_line_classify(access, rt, m, t1, p1, t2, p2);
    lemma_method_line_parse(access, rt, m, t1, p1, t2, p2);
    let line = spec_method_line(access, rt, m, t1, p1, t2, p2);
    let lines0 = seq![line];
    let nlns = crate::extract::spec_norm_lines(lines0);
    assert(nlns =~~= seq![line]);
    assert(nlns.len() == 1);
    let st0 = crate::extract::spec_fold(nlns, 0);
    assert(st0 == crate::extract::spec_file_init());
    let st1 = crate::extract::spec_fold(nlns, 1);
    assert(st1 == crate::extract::spec_step(st0, nlns, 0));
    assert(nlns[0] == line);
    assert(st1.out =~= crate::parse::spec_method_fragment(line));
    assert(st1.classes =~~= Seq::<Seq<char>>::empty());
    assert(st1.arrows =~~= Seq::<ArrowV>::empty());
    assert(!st1.open_block);
    assert(st1.dc.len() == 0);
    let fin = crate::extract::spec_extract(lines0);
    assert(fin == crate::extract::spec_finalize(st1));
    assert(fin.out == st1.out);
    assert(fin.classes =~~= Seq::<Seq<char>>::empty());
    assert(fin.arrows =~~= Seq::<ArrowV>::empty());
}



/// Splitting distributes over a separator between two texts.
proof fn lemma_split_char_concat(a: Seq<char>, b: Seq<char>, sep: char)
    ensures
        spec_split_char(a + seq![sep] + b, sep) == spec_split_char(a, sep) + spec_split_char(
            b,
            sep,
        ),
    decreases b.len(),
{
    if b.len() == 0 {
        let t = a + seq![sep] + b;
        assert(t =~= a + seq![sep]);
        assert((a + seq![sep]).drop_last() =~= a);
        assert((a + seq![sep]).last() == sep);
        assert(spec_split_char(b, sep) =~~= seq![Seq::<char>::empty()]);
        assert(spec_split_char(t, sep) =~~= spec_split_char(a, sep) + spec_split_char(b, sep));
    } else {
        let t = a + seq![sep] + b;
        assert(t.last() == b.last());
        assert(t.drop_last() =~= a + seq![sep] + b.drop_last());
        lemma_split_char_concat(a, b.drop_last(), sep);
        crate::split::lemma_split_char_nonempty(b.drop_last(), sep);
        let sa = spec_split_char(a, sep);
        let sd = spec_split_char(b.drop_last(), sep);
        if b.last() == sep {
            assert(spec_split_char(t, sep) == (sa + sd).push(Seq::<char>::empty()));
            assert(spec_split_char(b, sep) == sd.push(Seq::<char>::empty()));
            assert((sa + sd).push(Seq::<char>::empty()) =~~= sa + sd.push(Seq::<char>::empty()));
        } else {
            let n = (sa + sd).len();
            assert(spec_split_char(t, sep) == (sa + sd).update(
                n - 1,
                (sa + sd).last().push(b.last()),
            ));
            assert((sa + sd).last() == sd.last());
            assert(spec_split_char(b, sep) == sd.update(sd.len() - 1, sd.last().push(b.last())));
            assert((sa + sd).update(n - 1, sd.last().push(b.last())) =~~= sa + sd.update(
                sd.len() - 1,
                sd.last().push(b.last()),
            ));
        }
    }
}

/// Comma items distribute over a comma between two texts.
proof fn lemma_comma_items_concat(a: Seq<char>, b: Seq<char>)
    ensures
        spec_comma_items(a + seq![','] + b) == spec_comma_items(a) + spec_comma_items(b),
{
    lemma_split_char_concat(a, b, ',');
    let f = |t: Seq<char>| spec_trim(t);
    let p = |t: Seq<char>| crate::split::nonempty_piece(t);
    let sa = spec_split_char(a, ',');
    let sb = spec_split_char(b, ',');
    assert((sa + sb).map_values(f) =~~= sa.map_values(f) + sb.map_values(f));
    Seq::filter_distributes_over_add(sa.map_values(f), sb.map_values(f), p);
}

/// A non-empty join seen from the front.
proof fn lemma_join_front(vs: Seq<Seq<char>>, sep: Seq<char>)
    requires
        vs.len() >= 2,
    ensures
        spec_join(vs, sep) == vs[0] + sep + spec_join(vs.skip(1), sep),
    decreases vs.len(),
{
    if vs.len() == 2 {
        assert(vs.drop_last() =~~= seq![vs[0]]);
        assert(spec_join(seq![vs[0]], sep) == vs[0]);
        assert(vs.skip(1) =~~= seq![vs[1]]);
        assert(spec_join(vs.skip(1), sep) == vs[1]);
    } else {
        lemma_join_front(vs.drop_last(), sep);
        assert(vs.drop_last()[0] == vs[0]);
        assert(vs.drop_last().skip(1) =~~= vs.skip(1).drop_last());
        assert(spec_join(vs, sep) == spec_join(vs.drop_last(), sep) + sep + vs.last());
        assert(spec_join(vs.skip(1), sep) == spec_join(vs.skip(1).drop_last(), sep) + sep
            + vs.last()) by {
            assert(vs.skip(1).len() >= 2);
            assert(vs.skip(1).last() == vs.last());
        }
        assert(vs[0] + sep + (spec_join(vs.skip(1).drop_last(), sep) + sep + vs.last()) =~= (vs[0]
            + sep + spec_join(vs.skip(1).drop_last(), sep)) + sep + vs.last());
    }
}

/// A space-padded plain word is its single comma item.
proof fn lemma_comma_items_padded(v: Seq<char>, back_pad: bool)
    requires
        ident_token(v),
    ensures
        !back_pad ==> spec_comma_items(seq![' '] + v) == seq![v],
        back_pad ==> spec_comma_items(seq![' '] + v + seq![' ']) == seq![v],
{
    let t = if back_pad {
        seq![' '] + v + seq![' ']
    } else {
        seq![' '] + v
    };
    assert(!spec_contains_char(t, ',')) by {
        if spec_contains_char(t, ',') {
            let j = choose|j: int| 0 <= j < t.len() && t[j] == ',';
            if 1 <= j < 1 + v.len() {
                assert(is_ident_char(v[j - 1]));
            }
        }
    }
    lemma_split_char_no_sep(t, ',');
    assert(spec_trim(t) == v) by {
        assert(t[0] == ' ');
        assert(is_space(t[0]));
        if back_pad {
            assert(spec_trim_front(t) == spec_trim_front(t.skip(1)));
            assert(t.skip(1) =~= v + seq![' ']);
            assert((v + seq![' '])[0] == v[0]);
            assert(!is_space(v[0]));
            assert(spec_trim_front(v + seq![' ']) == v + seq![' ']);
            assert(spec_trim_front(t) == v + seq![' ']);
            assert((v + seq![' ']).last() == ' ');
            assert((v + seq![' ']).drop_last() =~= v);
            assert(!is_space(v.last()));
            assert(spec_trim_back(v + seq![' ']) == spec_trim_back(v));
            assert(spec_trim_back(v) == v);
        } else {
            assert(spec_trim_front(t) == spec_trim_front(t.skip(1)));
            assert(t.skip(1) =~= v);
            assert(!is_space(v[0]));
            assert(spec_trim_front(v) == v);
            assert(!is_space(v.last()));
            assert(spec_trim_back(v) == v);
        }
    }
    let m = spec_split_char(t, ',').map_values(|x: Seq<char>| spec_trim(x));
    assert(m =~~= seq![v]);
    reveal(Seq::filter);
    assert(m.drop_last() =~~= Seq::<Seq<char>>::empty());
    assert(m.filter(|x: Seq<char>| crate::split::nonempty_piece(x)) =~~= seq![v]);
}

/// The comma items of a space-padded, comma-joined list of plain words are
/// exactly those words.
proof fn lemma_comma_items_padded_join(vs: Seq<Seq<char>>)
    requires
        forall|k: int| 0 <= k < vs.len() ==> ident_token(#[trigger] vs[k]),
    ensures
        spec_comma_items(seq![' '] + spec_join(vs, ", "@) + seq![' ']) == vs,
    decreases vs.len(),
{
    reveal_strlit(", ");
    if vs.len() == 0 {
        let t = seq![' '] + spec_join(vs, ", "@) + seq![' '];
        assert(t =~= seq![' ', ' ']);
        assert(!spec_contains_char(t, ',')) by {
            if spec_contains_char(t, ',') {
                let j = choose|j: int| 0 <= j < 2 && t[j] == ',';
            }
        }
        lemma_split_char_no_sep(t, ',');
        assert(spec_trim(t) =~= Seq::<char>::empty()) by {
            assert(is_space(t[0]));
            assert(spec_trim_front(t) == spec_trim_front(t.skip(1)));
            assert(t.skip(1) =~= seq![' ']);
            assert(is_space(seq![' '][0]));
            assert(spec_trim_front(seq![' ']) == spec_trim_front(seq![' '].skip(1)));
            assert(seq![' '].skip(1) =~= Seq::<char>::empty());
            assert(spec_trim_front(t) == Seq::<char>::empty());
            assert(spec_trim_back(Seq::<char>::empty()) == Seq::<char>::empty());
        }
        let m = spec_split_char(t, ',').map_values(|x: Seq<char>| spec_trim(x));
        assert(m =~~= seq![Seq::<char>::empty()]);
        reveal(Seq::filter);
        assert(m.drop_last() =~~= Seq::<Seq<char>>::empty());
        assert(Seq::<Seq<char>>::empty().filter(|x: Seq<char>| crate::split::nonempty_piece(x))
            =~~= Seq::<Seq<char>>::empty());
        assert(!crate::split::nonempty_piece(m.last()));
        assert(m.filter(|x: Seq<char>| crate::split::nonempty_piece(x)) =~~= vs);
    } else if vs.len() == 1 {
        assert(spec_join(vs, ", "@) == vs[0]);
        lemma_comma_items_padded(vs[0], true);
        assert(spec_comma_items(seq![' '] + vs[0] + seq![' ']) =~~= vs);
    } else {
        lemma_join_front(vs, ", "@);
        let t = seq![' '] + spec_join(vs, ", "@) + seq![' '];
        let a = seq![' '] + vs[0];
        let b = seq![' '] + spec_join(vs.skip(1), ", "@) + seq![' '];
        assert(t =~= a + seq![','] + b) by {
            assert(", "@ =~= seq![',', ' ']);
        }
        lemma_comma_items_concat(a, b);
        lemma_comma_items_padded(vs[0], false);
        assert(forall|k: int| 0 <= k < vs.skip(1).len() ==> ident_token(#[trigger] vs.skip(1)[k]));
        lemma_comma_items_padded_join(vs.skip(1));
        assert(seq![vs[0]] + vs.skip(1) =~~= vs);
    }
}


proof fn lemma_ident_end_at(s: Seq<char>, i: int, e: int)
    requires
        0 <= i <= e <= s.len(),
        forall|j: int| i <= j < e ==> is_ident_char(s[j]),
        e == s.len() || !is_ident_char(s[e]),
    ensures
        crate::text::spec_ident_end(s, i) == e,
    decreases e - i,
{
    if i < e {
        assert(is_ident_char(s[i]));
        lemma_ident_end_at(s, i + 1, e);
    }
}

proof fn lemma_join_chars(vs: Seq<Seq<char>>)
    requires
        forall|k: int| 0 <= k < vs.len() ==> ident_token(#[trigger] vs[k]),
    ensures
        forall|j: int|
            0 <= j < spec_join(vs, ", "@).len() ==> (is_ident_char(#[trigger] spec_join(
                vs,
                ", "@,
            )[j]) || spec_join(vs, ", "@)[j] == ',' || spec_join(vs, ", "@)[j] == ' '),
    decreases vs.len(),
{
    reveal_strlit(", ");
    if vs.len() == 0 {
    } else if vs.len() == 1 {
        assert(spec_join(vs, ", "@) == vs[0]);
    } else {
        lemma_join_chars(vs.drop_last());
        let a = spec_join(vs.drop_last(), ", "@);
        let w = spec_join(vs, ", "@);
        assert(w == a + ", "@ + vs.last());
        assert forall|j: int|
            0 <= j < w.len() implies (is_ident_char(w[j]) || w[j] == ',' || w[j] == ' ') by {
            if j < a.len() {
                assert(w[j] == a[j]);
            } else if j < a.len() + 2 {
                assert(w[j] == ", "@[j - a.len()]);
            } else {
                assert(w[j] == vs.last()[j - a.len() - 2]);
                assert(is_ident_char(vs.last()[j - a.len() - 2]));
            }
        }
    }
}

proof fn lemma_comma_items_empty()
    ensures
        spec_comma_items(Seq::<char>::empty()) == Seq::<Seq<char>>::empty(),
{
    let t = Seq::<char>::empty();
    assert(spec_split_char(t, ',') =~~= seq![Seq::<char>::empty()]);
    let m = spec_split_char(t, ',').map_values(|x: Seq<char>| spec_trim(x));
    assert(spec_trim(Seq::<char>::empty()) == Seq::<char>::empty());
    assert(m =~~= seq![Seq::<char>::empty()]);
    reveal(Seq::filter);
    assert(m.drop_last() =~~= Seq::<Seq<char>>::empty());
    assert(Seq::<Seq<char>>::empty().filter(|x: Seq<char>| crate::split::nonempty_piece(x)) =~~= Seq::<
        Seq<char>,
    >::empty());
    assert(!crate::split::nonempty_piece(m.last()));
    assert(m.filter(|x: Seq<char>| crate::split::nonempty_piece(x)) =~~= Seq::<Seq<char>>::empty());
}

proof fn lemma_scan_value_lines(lines: Seq<Seq<char>>, vs: Seq<Seq<char>>, j: int)
    requires
        lines.len() == vs.len() + 2,
        forall|k: int| 0 <= k < vs.len() ==> lines[1 + k] == #[trigger] vs[k] + seq![','],
        lines[vs.len() as int + 1] == seq!['}'],
        forall|k: int| 0 <= k < vs.len() ==> ident_token(#[trigger] vs[k]),
        1 <= j <= vs.len() + 1,
    ensures
        crate::parse::spec_scan_values(lines, j) == vs.skip(j - 1),
    decreases vs.len() + 1 - j,
{
    if j == vs.len() + 1 {
        assert(spec_contains_char(lines[j], '}')) by {
            assert(lines[j][0] == '}');
        }
        assert(vs.skip(j - 1) =~~= Seq::<Seq<char>>::empty());
    } else {
        let v = vs[j - 1];
        assert(lines[j] == v + seq![',']);
        assert(!spec_contains_char(lines[j], '}')) by {
            if spec_contains_char(lines[j], '}') {
                let x = choose|x: int| 0 <= x < lines[j].len() && lines[j][x] == '}';
                if x < v.len() {
                    assert(is_ident_char(v[x]));
                }
            }
        }
        assert(!spec_contains_char(v, ',')) by {
            if spec_contains_char(v, ',') {
                let x = choose|x: int| 0 <= x < v.len() && v[x] == ',';
                assert(is_ident_char(v[x]));
            }
        }
        lemma_comma_items_trailing_comma(v);
        lemma_scan_value_lines(lines, vs, j + 1);
        assert(crate::parse::spec_scan_values(lines, j) == seq![v] + vs.skip(j));
        assert(seq![v] + vs.skip(j) =~~= vs.skip(j - 1));
    }
}

/// An enum declared with an inline brace-delimited value list and one
/// declared with an opening brace followed by one comma-terminated value per
/// line, up to a closing-brace line, produce identical value lists: the
/// written values, in order, for every list of identifier-shaped values.
#[verifier::rlimit(100)]
pub proof fn lemma_enum_forms_agree(name: Seq<char>, vs: Seq<Seq<char>>)
    requires
        ident_token(name),
        forall|k: int| 0 <= k < vs.len() ==> ident_token(#[trigger] vs[k]),
    ensures
        ({
            let inline_file = seq!["enum "@ + name + " { "@ + spec_join(vs, ", "@) + " }"@];
            let block_file = seq!["enum "@ + name + " {"@] + vs.map_values(
                |v: Seq<char>| v + seq![','],
            ) + seq![seq!['}']];
            &&& crate::parse::spec_enum_values(inline_file, 0) == vs
            &&& crate::parse::spec_enum_values(block_file, 0) == vs
        }),
{
    reveal_strlit("enum ");
    reveal_strlit("enum");
    reveal_strlit(" { ");
    reveal_strlit(" }");
    reveal_strlit(" {");
    reveal_strlit(", ");
    let nl = name.len() as int;
    let jn = spec_join(vs, ", "@);
    let jl = jn.len() as int;
    lemma_join_chars(vs);
    // the inline form
    let s1 = "enum "@ + name + " { "@ + jn + " }"@;
    let inline_file = seq![s1];
    assert(s1.len() == 10 + nl + jl);
    assert forall|j: int| 0 <= j < 5 implies s1[j] == "enum "@[j] by {}
    assert forall|j: int| 0 <= j < nl implies s1[5 + j] == name[j] by {}
    assert forall|j: int| 0 <= j < 3 implies s1[5 + nl + j] == " { "@[j] by {}
    assert forall|j: int| 0 <= j < jl implies s1[8 + nl + j] == jn[j] by {}
    assert(s1[8 + nl + jl] == ' ');
    assert(s1[9 + nl + jl] == '}');
    assert(spec_find_token(s1, "enum"@, 0) == 0) by {
        assert(s1.subrange(0, 4) =~= "enum"@) by {
            assert forall|k: int| 0 <= k < 4 implies s1.subrange(0, 4)[k] == "enum"@[k] by {
                assert(s1[k] == "enum "@[k]);
            }
        }
        assert(s1[4] == ' ');
        assert(crate::text::spec_token_at(s1, 0, "enum"@));
    }
    assert(crate::text::spec_skip_spaces(s1, 4) == 5) by {
        assert(s1[4] == ' ');
        assert(crate::text::spec_skip_spaces(s1, 4) == crate::text::spec_skip_spaces(s1, 5));
        assert(s1[5] == name[0]);
        assert(!is_space(s1[5]));
    }
    assert(crate::parse::spec_enum_name_start(s1) == 5) by {
        assert("enum"@.len() == 4);
    }
    assert(crate::text::spec_ident_end(s1, 5) == 5 + nl) by {
        assert forall|j: int| 5 <= j < 5 + nl implies is_ident_char(s1[j]) by {
            assert(s1[j] == name[j - 5]);
        }
        assert(s1[5 + nl] == ' ');
        lemma_ident_end_at(s1, 5, 5 + nl);
    }
    assert(crate::text::spec_skip_spaces(s1, 5 + nl) == 6 + nl) by {
        assert(s1[5 + nl] == ' ');
        assert(crate::text::spec_skip_spaces(s1, 5 + nl) == crate::text::spec_skip_spaces(
            s1,
            6 + nl,
        ));
        assert(s1[6 + nl] == '{');
        assert(!is_space(s1[6 + nl]));
    }
    assert(s1[6 + nl] == '{');
    assert(spec_find_char(s1, '}', 7 + nl) == 9 + nl + jl) by {
        crate::text::lemma_find_char_props(s1, '}', 7 + nl);
        let fc = spec_find_char(s1, '}', 7 + nl);
        assert(s1[9 + nl + jl] == '}');
        if fc < s1.len() {
            assert(s1[fc] == '}');
            if fc < 9 + nl + jl {
                if fc == 7 + nl {
                    assert(s1[7 + nl] == ' ');
                } else if fc < 8 + nl + jl {
                    assert(s1[fc] == jn[fc - 8 - nl]);
                    assert(is_ident_char(jn[fc - 8 - nl]) || jn[fc - 8 - nl] == ',' || jn[fc - 8
                        - nl] == ' ');
                } else {
                    assert(s1[8 + nl + jl] == ' ');
                }
            }
        }
    }
    let contents = s1.subrange(7 + nl, 9 + nl + jl);
    assert(contents =~= seq![' '] + jn + seq![' ']);
    lemma_comma_items_padded_join(vs);
    assert(spec_comma_items(contents) == vs);
    if vs.len() > 0 {
        assert(crate::parse::spec_enum_values(inline_file, 0) == vs);
    } else {
        assert(crate::parse::spec_scan_values(inline_file, 1) =~~= Seq::<Seq<char>>::empty());
        assert(crate::parse::spec_enum_values(inline_file, 0) =~~= vs);
    }
    // the block form
    let s2 = "enum "@ + name + " {"@;
    let block_file = seq![s2] + vs.map_values(|v: Seq<char>| v + seq![',']) + seq![seq!['}']];
    assert(block_file.len() == vs.len() + 2);
    assert(block_file[0] == s2);
    assert(s2.len() == 7 + nl);
    assert forall|j: int| 0 <= j < 5 implies s2[j] == "enum "@[j] by {}
    assert forall|j: int| 0 <= j < nl implies s2[5 + j] == name[j] by {}
    assert(s2[5 + nl] == ' ');
    assert(s2[6 + nl] == '{');
    assert(spec_find_token(s2, "enum"@, 0) == 0) by {
        assert(s2.subrange(0, 4) =~= "enum"@) by {
            assert forall|k: int| 0 <= k < 4 implies s2.subrange(0, 4)[k] == "enum"@[k] by {
                assert(s2[k] == "enum "@[k]);
            }
        }
        assert(s2[4] == ' ');
        assert(crate::text::spec_token_at(s2, 0, "enum"@));
    }
    assert(crate::text::spec_skip_spaces(s2, 4) == 5) by {
        assert(s2[4] == ' ');
        assert(crate::text::spec_skip_spaces(s2, 4) == crate::text::spec_skip_spaces(s2, 5));
        assert(s2[5] == name[0]);
        assert(!is_space(s2[5]));
    }
    assert(crate::parse::spec_enum_name_start(s2) == 5) by {
        assert("enum"@.len() == 4);
    }
    assert(crate::text::spec_ident_end(s2, 5) == 5 + nl) by {
        assert forall|j: int| 5 <= j < 5 + nl implies is_ident_char(s2[j]) by {
            assert(s2[j] == name[j - 5]);
        }
        assert(s2[5 + nl] == ' ');
        lemma_ident_end_at(s2, 5, 5 + nl);
    }
    assert(crate::text::spec_skip_spaces(s2, 5 + nl) == 6 + nl) by {
        assert(s2[5 + nl] == ' ');
        assert(crate::text::spec_skip_spaces(s2, 5 + nl) == crate::text::spec_skip_spaces(
            s2,
            6 + nl,
        ));
        assert(s2[6 + nl] == '{');
        assert(!is_space(s2[6 + nl]));
    }
    assert(spec_find_char(s2, '}', 7 + nl) == s2.len() as int);
    assert(s2.subrange(7 + nl, 7 + nl) =~= Seq::<char>::empty());
    lemma_comma_items_empty();
    assert forall|k: int| 0 <= k < vs.len() implies block_file[1 + k] == #[trigger] vs[k]
        + seq![','] by {
        assert(block_file[1 + k] == vs.map_values(|v: Seq<char>| v + seq![','])[k]);
    }
    assert(block_file[vs.len() as int + 1] == seq!['}']);
    lemma_scan_value_lines(block_file, vs, 1);
    assert(vs.skip(0) =~~= vs);
    assert(crate::parse::spec_enum_values(block_file, 0) == vs);
}

} // verus!
