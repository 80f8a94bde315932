//! Splitting lines into whitespace tokens and comma-separated items, and
//! joining rendered pieces back together.

use vstd::prelude::*;

use crate::text::{is_space, space_char, spec_trim, trim};

verus! {

/// The whitespace-separated tokens of `s`, in order.
pub open spec fn spec_tokens(s: Seq<char>) -> Seq<Seq<char>>
    decreases s.len(),
{
    if s.len() == 0 {
        Seq::empty()
    } else {
        let rest = s.drop_last();
        let c = s.last();
        let t = spec_tokens(rest);
        if is_space(c) {
            t
        } else if rest.len() > 0 && !is_space(rest.last()) {
            t.update(t.len() - 1, t.last().push(c))
        } else {
            t.push(seq![c])
        }
    }
}

pub fn tokens(s: &Vec<char>) -> (v: Vec<Vec<char>>)
    ensures
        v.deep_view() == spec_tokens(s@),
{
    let mut done: Vec<Vec<char>> = Vec::new();
    let mut cur: Vec<char> = Vec::new();
    let mut i: usize = 0;
    assert(s@.subrange(0, 0) =~= Seq::<char>::empty());
    assert(done.deep_view() =~~= Seq::<Seq<char>>::empty());
    while i < s.len()
        invariant
            i <= s@.len(),
            (i == 0 || is_space(s@[i as int - 1])) ==> cur@.len() == 0
                && spec_tokens(s@.subrange(0, i as int)) == done.deep_view(),
            !(i == 0 || is_space(s@[i as int - 1])) ==> cur@.len() > 0
                && spec_tokens(s@.subrange(0, i as int)) == done.deep_view().push(cur@),
        decreases s@.len() - i,
    {
        let ghost pre = s@.subrange(0, i as int);
        let ghost post = s@.subrange(0, i as int + 1);
        proof {
            assert(post.drop_last() =~= pre);
            assert(post.last() == s@[i as int]);
        }
        let c = s[i];
        if space_char(c) {
            if cur.len() > 0 {
                let ghost dv = done.deep_view();
                let ghost cv = cur@;
                done.push(cur);
                cur = Vec::new();
                proof {
                    assert(done.deep_view() =~~= dv.push(cv));
                    assert(spec_tokens(post) == done.deep_view());
                }
            } else {
                assert(spec_tokens(post) == done.deep_view());
            }
        } else {
            if cur.len() == 0 {
                cur.push(c);
                proof {
                    assert(cur@ =~= seq![c]);
                    assert(spec_tokens(post) == done.deep_view().push(cur@));
                }
            } else {
                let ghost dv = done.deep_view();
                let ghost cv = cur@;
                let ghost t = spec_tokens(pre);
                cur.push(c);
                proof {
                    assert(t == dv.push(cv));
                    assert(t.len() == dv.len() + 1);
                    assert(t.last() == cv);
                    assert(spec_tokens(post) == t.update(t.len() - 1, t.last().push(c)));
                    assert(t.update(t.len() - 1, t.last().push(c)) =~~= dv.push(cv.push(c)));
                    assert(spec_tokens(post) == done.deep_view().push(cur@));
                }
            }
        }
        i += 1;
    }
    assert(s@.subrange(0, s@.len() as int) =~= s@);
    if cur.len() > 0 {
        let ghost dv = done.deep_view();
        let ghost cv = cur@;
        done.push(cur);
        proof {
            assert(done.deep_view() =~~= dv.push(cv));
        }
    }
    done
}

/// `s` split on the separator `sep`, keeping empty pieces; always at least one piece.
pub open spec fn spec_split_char(s: Seq<char>, sep: char) -> Seq<Seq<char>>
    decreases s.len(),
{
    if s.len() == 0 {
        seq![Seq::empty()]
    } else {
        let t = spec_split_char(s.drop_last(), sep);
        let c = s.last();
        if c == sep {
            t.push(Seq::empty())
        } else {
            t.update(t.len() - 1, t.last().push(c))
        }
    }
}

pub proof fn lemma_split_char_nonempty(s: Seq<char>, sep: char)
    ensures
        spec_split_char(s, sep).len() >= 1,
    decreases s.len(),
{
    if s.len() > 0 {
        lemma_split_char_nonempty(s.drop_last(), sep);
    }
}

pub fn split_char(s: &Vec<char>, sep: char) -> (v: Vec<Vec<char>>)
    ensures
        v.deep_view() == spec_split_char(s@, sep),
{
    let mut done: Vec<Vec<char>> = Vec::new();
    let mut cur: Vec<char> = Vec::new();
    let mut i: usize = 0;
    assert(s@.subrange(0, 0) =~= Seq::<char>::empty());
    assert(spec_split_char(s@.subrange(0, 0), sep) =~~= done.deep_view().push(cur@));
    while i < s.len()
        invariant
            i <= s@.len(),
            spec_split_char(s@.subrange(0, i as int), sep) == done.deep_view().push(cur@),
        decreases s@.len() - i,
    {
        let ghost pre = s@.subrange(0, i as int);
        let ghost post = s@.subrange(0, i as int + 1);
        let ghost t = spec_split_char(pre, sep);
        proof {
            assert(post.drop_last() =~= pre);
            assert(post.last() == s@[i as int]);
        }
        let c = s[i];
        if c == sep {
            let ghost dv = done.deep_view();
            let ghost cv = cur@;
            done.push(cur);
            cur = Vec::new();
            proof {
                assert(done.deep_view() =~~= dv.push(cv));
                assert(spec_split_char(post, sep) == t.push(Seq::empty()));
                assert(t.push(Seq::empty()) =~~= done.deep_view().push(cur@));
            }
        } else {
            let ghost dv = done.deep_view();
            let ghost cv = cur@;
            cur.push(c);
            proof {
                assert(t == dv.push(cv));
                assert(t.len() == dv.len() + 1);
                assert(t.last() == cv);
                assert(spec_split_char(post, sep) == t.update(t.len() - 1, t.last().push(c)));
                assert(t.update(t.len() - 1, t.last().push(c)) =~~= dv.push(cv.push(c)));
            }
        }
        i += 1;
    }
    assert(s@.subrange(0, s@.len() as int) =~= s@);
    let ghost dv = done.deep_view();
    let ghost cv = cur@;
    done.push(cur);
    proof {
        assert(done.deep_view() =~~= dv.push(cv));
    }
    done
}

/// Whether a trimmed piece is worth keeping.
pub open spec fn nonempty_piece(t: Seq<char>) -> bool {
    t.len() > 0
}

/// `s` split on commas, each piece trimmed, empty pieces dropped.
pub open spec fn spec_comma_items(s: Seq<char>) -> Seq<Seq<char>> {
    spec_split_char(s, ',').map_values(|t: Seq<char>| spec_trim(t)).filter(
        |t: Seq<char>| nonempty_piece(t),
    )
}

pub fn comma_items(s: &Vec<char>) -> (v: Vec<Vec<char>>)
    ensures
        v.deep_view() == spec_comma_items(s@),
{
    let pieces = split_char(s, ',');
    let ghost sp = spec_split_char(s@, ',');
    let mut out: Vec<Vec<char>> = Vec::new();
    let mut k: usize = 0;
    assert(sp.take(0) =~~= Seq::<Seq<char>>::empty());
    assert(out.deep_view() =~~= Seq::<Seq<char>>::empty());
    assert(Seq::<Seq<char>>::empty().map_values(|t: Seq<char>| spec_trim(t)) =~~= Seq::<Seq<
        char,
    >>::empty());
    while k < pieces.len()
        invariant
            k <= pieces@.len(),
            pieces.deep_view() == sp,
            sp == spec_split_char(s@, ','),
            out.deep_view() == sp.take(k as int).map_values(|t: Seq<char>| spec_trim(t)).filter(
                |t: Seq<char>| nonempty_piece(t),
            ),
        decreases pieces@.len() - k,
    {
        let ghost a = sp.take(k as int);
        let ghost b = sp.take(k as int + 1);
        proof {
            assert(pieces.deep_view().len() == pieces@.len());
            assert(sp[k as int] == pieces@[k as int].deep_view());
            assert(pieces@[k as int].deep_view() =~= pieces@[k as int]@);
            assert(b =~~= a.push(sp[k as int]));
        }
        let t = trim(&pieces[k]);
        let ghost am = a.map_values(|t: Seq<char>| spec_trim(t));
        let ghost bm = b.map_values(|t: Seq<char>| spec_trim(t));
        proof {
            assert(bm =~~= am.push(spec_trim(sp[k as int])));
            assert(bm.len() > 0);
            assert(bm.drop_last() =~~= am);
            assert(bm.last() == spec_trim(sp[k as int]));
        }
        if t.len() > 0 {
            let ghost ov = out.deep_view();
            let ghost tv = t@;
            out.push(t);
            proof {
                reveal(Seq::filter);
                assert(out.deep_view() =~~= ov.push(tv));
                assert(bm.filter(|t: Seq<char>| nonempty_piece(t)) =~~= out.deep_view());
            }
        } else {
            proof {
                reveal(Seq::filter);
                assert(bm.filter(|t: Seq<char>| nonempty_piece(t)) =~~= out.deep_view());
            }
        }
        k += 1;
    }
    assert(sp.take(sp.len() as int) =~~= sp);
    out
}

/// The comma items of every token, in token order.
pub open spec fn spec_comma_split_all(toks: Seq<Seq<char>>) -> Seq<Seq<char>>
    decreases toks.len(),
{
    if toks.len() == 0 {
        Seq::empty()
    } else {
        spec_comma_split_all(toks.drop_last()) + spec_comma_items(toks.last())
    }
}

pub fn comma_split_all(toks: &Vec<Vec<char>>) -> (v: Vec<Vec<char>>)
    ensures
        v.deep_view() == spec_comma_split_all(toks.deep_view()),
{
    let ghost tv = toks.deep_view();
    let mut out: Vec<Vec<char>> = Vec::new();
    let mut k: usize = 0;
    assert(tv.take(0) =~~= Seq::<Seq<char>>::empty());
    assert(out.deep_view() =~~= spec_comma_split_all(tv.take(0)));
    while k < toks.len()
        invariant
            k <= toks@.len(),
            tv == toks.deep_view(),
            out.deep_view() == spec_comma_split_all(tv.take(k as int)),
        decreases toks@.len() - k,
    {
        proof {
            assert(tv.len() == toks@.len());
            assert(tv[k as int] == toks@[k as int].deep_view());
            assert(toks@[k as int].deep_view() =~= toks@[k as int]@);
        }
        let mut items = comma_items(&toks[k]);
        let ghost ov = out.deep_view();
        let ghost iv = items.deep_view();
        out.append(&mut items);
        proof {
            assert(out.deep_view() =~~= ov + iv);
            assert(tv.take(k as int + 1).drop_last() =~~= tv.take(k as int));
            assert(tv.take(k as int + 1).last() == tv[k as int]);
            assert(out.deep_view() =~~= spec_comma_split_all(tv.take(k as int + 1)));
        }
        k += 1;
    }
    assert(tv.take(tv.len() as int) =~~= tv);
    out
}

/// The items joined by `sep`.
pub open spec fn spec_join(items: Seq<Seq<char>>, sep: Seq<char>) -> Seq<char>
    decreases items.len(),
{
    if items.len() == 0 {
        Seq::empty()
    } else if items.len() == 1 {
        items[0]
    } else {
        spec_join(items.drop_last(), sep) + sep + items.last()
    }
}

pub fn join_with(items: &Vec<Vec<char>>, sep: &str) -> (v: Vec<char>)
    ensures
        v@ == spec_join(items.deep_view(), sep@),
{
    let ghost iv = items.deep_view();
    let mut out: Vec<char> = Vec::new();
    let mut k: usize = 0;
    assert(iv.take(0) =~~= Seq::<Seq<char>>::empty());
    while k < items.len()
        invariant
            k <= items@.len(),
            iv == items.deep_view(),
            out@ == spec_join(iv.take(k as int), sep@),
        decreases items@.len() - k,
    {
        proof {
            assert(iv.len() == items@.len());
            assert(iv[k as int] == items@[k as int].deep_view());
            assert(items@[k as int].deep_view() =~= items@[k as int]@);
        }
        if k > 0 {
            crate::text::push_str_chars(&mut out, sep);
        }
        crate::text::push_chars(&mut out, &items[k]);
        proof {
            let b = iv.take(k as int + 1);
            assert(b.drop_last() =~~= iv.take(k as int));
            assert(b.last() == iv[k as int]);
            if k == 0 {
                assert(b.len() == 1);
                assert(spec_join(b, sep@) == b[0]);
                assert(out@ =~= spec_join(b, sep@));
            } else {
                assert(spec_join(b, sep@) == spec_join(iv.take(k as int), sep@) + sep@ + iv[k as int]);
                assert(out@ =~= spec_join(b, sep@));
            }
        }
        k += 1;
    }
    assert(iv.take(iv.len() as int) =~~= iv);
    out
}

/// The suffix of `t` after the last occurrence of `sep`, or all of `t`.
pub open spec fn spec_after_last(t: Seq<char>, sep: char) -> Seq<char>
    decreases t.len(),
{
    if t.len() == 0 {
        t
    } else if t.last() == sep {
        Seq::empty()
    } else {
        spec_after_last(t.drop_last(), sep).push(t.last())
    }
}

proof fn lemma_after_last_at(t: Seq<char>, sep: char, i: int)
    requires
        0 <= i <= t.len(),
        forall|k: int| i <= k < t.len() ==> t[k] != sep,
        i == 0 || t[i - 1] == sep,
    ensures
        spec_after_last(t, sep) == t.subrange(i, t.len() as int),
    decreases t.len(),
{
    if t.len() == 0 {
        assert(t.subrange(0, 0) =~= t);
    } else if t.last() == sep {
        assert(i == t.len());
        assert(t.subrange(i, t.len() as int) =~= Seq::<char>::empty());
    } else {
        if i == t.len() {
            assert(t[i - 1] == sep);
            assert(false);
        }
        lemma_after_last_at(t.drop_last(), sep, i);
        assert(t.drop_last().subrange(i, t.len() - 1) =~= t.subrange(i, t.len() - 1));
        assert(t.subrange(i, t.len() - 1).push(t.last()) =~= t.subrange(i, t.len() as int));
    }
}

pub fn after_last(t: &Vec<char>, sep: char) -> (v: Vec<char>)
    ensures
        v@ == spec_after_last(t@, sep),
{
    let mut i: usize = t.len();
    while i > 0 && t[i - 1] != sep
        invariant
            i <= t@.len(),
            forall|k: int| i <= k < t@.len() ==> t@[k] != sep,
        decreases i,
    {
        i -= 1;
    }
    proof {
        lemma_after_last_at(t@, sep, i as int);
    }
    crate::text::sub_vec(t, i, t.len())
}

} // verus!
