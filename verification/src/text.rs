//! Character predicates and sequence helpers shared by the line scanner: substring
//! and token search, whitespace splitting, trimming, and simple rewriting.

use vstd::prelude::*;

verus! {

/// Whitespace as the line scanner understands it: the code points with the
/// Unicode `White_Space` property, the set that `str::trim` and
/// `str::split_whitespace` go by.
pub open spec fn is_space(c: char) -> bool {
    ('\u{0009}' <= c && c <= '\u{000D}') || c == ' ' || c == '\u{0085}' || c == '\u{00A0}' || c
        == '\u{1680}' || ('\u{2000}' <= c && c <= '\u{200A}') || c == '\u{2028}' || c == '\u{2029}'
        || c == '\u{202F}' || c == '\u{205F}' || c == '\u{3000}'
}

pub fn space_char(c: char) -> (r: bool)
    ensures
        r == is_space(c),
{
    ('\u{0009}' <= c && c <= '\u{000D}') || c == ' ' || c == '\u{0085}' || c == '\u{00A0}' || c
        == '\u{1680}' || ('\u{2000}' <= c && c <= '\u{200A}') || c == '\u{2028}' || c == '\u{2029}'
        || c == '\u{202F}' || c == '\u{205F}' || c == '\u{3000}'
}

/// A character that may stand inside an identifier: a letter, a digit or `_`.
pub open spec fn is_ident_char(c: char) -> bool {
    ('A' <= c && c <= 'Z') || ('a' <= c && c <= 'z') || ('0' <= c && c <= '9') || c == '_'
}

pub fn ident_char(c: char) -> (r: bool)
    ensures
        r == is_ident_char(c),
{
    ('A' <= c && c <= 'Z') || ('a' <= c && c <= 'z') || ('0' <= c && c <= '9') || c == '_'
}

/// Whether two character vectors hold the same text.
pub fn eq_chars(a: &Vec<char>, b: &Vec<char>) -> (r: bool)
    ensures
        r == (a@ == b@),
{
    if a.len() != b.len() {
        return false;
    }
    let n: usize = a.len();
    let mut i: usize = 0;
    while i < n
        invariant
            n == a@.len(),
            n == b@.len(),
            i <= n,
            forall|k: int| 0 <= k < i ==> a@[k] == b@[k],
        decreases n - i,
    {
        if a[i] != b[i] {
            return false;
        }
        i += 1;
    }
    assert(a@ =~= b@);
    true
}

/// Whether the text of `a` is the text of the string slice `b`.
pub fn eq_str(a: &Vec<char>, b: &str) -> (r: bool)
    ensures
        r == (a@ == b@),
{
    let n: usize = b.unicode_len();
    if a.len() != n {
        return false;
    }
    let mut i: usize = 0;
    while i < n
        invariant
            n == a@.len(),
            n == b@.len(),
            i <= n,
            forall|k: int| 0 <= k < i ==> a@[k] == b@[k],
        decreases n - i,
    {
        if a[i] != b.get_char(i) {
            return false;
        }
        i += 1;
    }
    assert(a@ =~= b@);
    true
}

/// The pattern `p` stands in `s` starting at position `i`.
pub open spec fn spec_matches_at(s: Seq<char>, i: int, p: Seq<char>) -> bool {
    0 <= i && i + p.len() <= s.len() && s.subrange(i, i + p.len()) == p
}

pub fn matches_at(s: &Vec<char>, i: usize, p: &str) -> (r: bool)
    ensures
        r == spec_matches_at(s@, i as int, p@),
{
    let pl: usize = p.unicode_len();
    if i > s.len() || pl > s.len() - i {
        return false;
    }
    let mut k: usize = 0;
    while k < pl
        invariant
            pl == p@.len(),
            i + pl <= s@.len(),
            k <= pl,
            forall|j: int| 0 <= j < k ==> s@[i + j] == p@[j],
        decreases pl - k,
    {
        assert(i + k < s.len());
        if s[i + k] != p.get_char(k) {
            assert(s@.subrange(i as int, i + pl) != p@) by {
                assert(s@.subrange(i as int, i + pl)[k as int] == s@[i + k]);
            }
            return false;
        }
        k += 1;
    }
    assert(s@.subrange(i as int, i + pl) =~= p@);
    true
}

/// The pattern `p` stands somewhere in `s`.
pub open spec fn spec_contains_sub(s: Seq<char>, p: Seq<char>) -> bool {
    exists|i: int| spec_matches_at(s, i, p)
}

/// [`matches_at`], with the pattern given as a character vector.
pub fn matches_at_chars(s: &Vec<char>, i: usize, p: &Vec<char>) -> (r: bool)
    ensures
        r == spec_matches_at(s@, i as int, p@),
{
    let pl: usize = p.len();
    if i > s.len() || pl > s.len() - i {
        return false;
    }
    let mut k: usize = 0;
    while k < pl
        invariant
            pl == p@.len(),
            i + pl <= s@.len(),
            k <= pl,
            forall|j: int| 0 <= j < k ==> s@[i + j] == p@[j],
        decreases pl - k,
    {
        assert(i + k < s.len());
        if s[i + k] != p[k] {
            assert(s@.subrange(i as int, i + pl) != p@) by {
                assert(s@.subrange(i as int, i + pl)[k as int] == s@[i + k]);
            }
            return false;
        }
        k += 1;
    }
    assert(s@.subrange(i as int, i + pl) =~= p@);
    true
}

/// [`contains_sub`], with the pattern given as a character vector.
pub fn contains_sub_chars(s: &Vec<char>, p: &Vec<char>) -> (r: bool)
    ensures
        r == spec_contains_sub(s@, p@),
{
    let pl: usize = p.len();
    if pl == 0 {
        assert(spec_matches_at(s@, 0, p@)) by {
            assert(s@.subrange(0, 0) =~= p@);
        }
        return true;
    }
    let mut i: usize = 0;
    while i <= s.len() && pl <= s.len() - i
        invariant
            pl == p@.len(),
            pl >= 1,
            forall|j: int| 0 <= j < i ==> !spec_matches_at(s@, j, p@),
        decreases s@.len() + 1 - i,
    {
        if matches_at_chars(s, i, p) {
            return true;
        }
        assert(i + 1 <= s.len());
        i += 1;
    }
    assert forall|j: int| !spec_matches_at(s@, j, p@) by {
        if 0 <= j < i {
        } else if j >= i {
            assert(j + p@.len() > s@.len());
        }
    }
    false
}

/// The first position at or after `i` where `p` stands in `s`, or `-1`.
pub open spec fn spec_find_sub(s: Seq<char>, p: Seq<char>, i: int) -> int
    decreases s.len() - i,
{
    if i < 0 || p.len() == 0 || i + p.len() > s.len() {
        -1
    } else if s.subrange(i, i + p.len()) == p {
        i
    } else {
        spec_find_sub(s, p, i + 1)
    }
}

pub proof fn lemma_find_sub_props(s: Seq<char>, p: Seq<char>, i: int)
    requires
        0 <= i,
        p.len() > 0,
    ensures
        spec_find_sub(s, p, i) == -1 ==> forall|j: int| j >= i ==> !spec_matches_at(s, j, p),
        spec_find_sub(s, p, i) >= 0 ==> spec_matches_at(s, spec_find_sub(s, p, i), p)
            && spec_find_sub(s, p, i) >= i
            && (forall|j: int| i <= j < spec_find_sub(s, p, i) ==> !spec_matches_at(s, j, p)),
    decreases s.len() - i,
{
    if i + p.len() > s.len() {
        assert forall|j: int| j >= i implies !spec_matches_at(s, j, p) by {}
    } else if s.subrange(i, i + p.len()) == p {
    } else {
        lemma_find_sub_props(s, p, i + 1);
    }
}

pub fn find_sub(s: &Vec<char>, p: &str, from: usize) -> (r: Option<usize>)
    ensures
        match r {
            Some(i) => i as int == spec_find_sub(s@, p@, from as int) && i <= s@.len(),
            None => spec_find_sub(s@, p@, from as int) == -1,
        },
{
    let pl: usize = p.unicode_len();
    if pl == 0 {
        return None;
    }
    let mut i: usize = from;
    while i <= s.len() && pl <= s.len() - i
        invariant
            pl == p@.len(),
            pl >= 1,
            from <= i,
            spec_find_sub(s@, p@, from as int) == spec_find_sub(s@, p@, i as int),
        decreases s@.len() + 1 - i,
    {
        if matches_at(s, i, p) {
            assert(s@.subrange(i as int, i + pl) == p@);
            return Some(i);
        }
        assert(i + 1 <= s.len());
        i += 1;
    }
    None
}

pub fn contains_sub(s: &Vec<char>, p: &str) -> (r: bool)
    ensures
        r == spec_contains_sub(s@, p@),
{
    if p.unicode_len() == 0 {
        assert(spec_matches_at(s@, 0, p@)) by {
            assert(s@.subrange(0, 0) =~= p@);
        }
        return true;
    }
    proof {
        lemma_find_sub_props(s@, p@, 0);
    }
    match find_sub(s, p, 0) {
        Some(i) => {
            assert(spec_matches_at(s@, i as int, p@));
            true
        },
        None => {
            assert forall|j: int| !spec_matches_at(s@, j, p@) by {
                if j >= 0 {
                    assert(!spec_matches_at(s@, j, p@));
                }
            }
            false
        },
    }
}

/// Whether the character `c` occurs in `s`.
pub open spec fn spec_contains_char(s: Seq<char>, c: char) -> bool {
    exists|i: int| 0 <= i < s.len() && s[i] == c
}

/// The first position at or after `i` holding `c`, or the length of `s`.
pub open spec fn spec_find_char(s: Seq<char>, c: char, i: int) -> int
    decreases s.len() - i,
{
    if i < 0 || i >= s.len() {
        s.len() as int
    } else if s[i] == c {
        i
    } else {
        spec_find_char(s, c, i + 1)
    }
}

pub proof fn lemma_find_char_props(s: Seq<char>, c: char, i: int)
    requires
        0 <= i <= s.len(),
    ensures
        i <= spec_find_char(s, c, i) <= s.len(),
        spec_find_char(s, c, i) < s.len() ==> s[spec_find_char(s, c, i)] == c,
        forall|j: int| i <= j < spec_find_char(s, c, i) ==> s[j] != c,
    decreases s.len() - i,
{
    if i < s.len() && s[i] != c {
        lemma_find_char_props(s, c, i + 1);
    }
}

pub fn find_char(s: &Vec<char>, c: char, from: usize) -> (r: usize)
    requires
        from <= s@.len(),
    ensures
        r as int == spec_find_char(s@, c, from as int),
        from <= r <= s@.len(),
        r < s@.len() ==> s@[r as int] == c,
        forall|j: int| from <= j < r ==> s@[j] != c,
{
    proof {
        lemma_find_char_props(s@, c, from as int);
    }
    let mut i: usize = from;
    while i < s.len()
        invariant
            from <= i <= s@.len(),
            spec_find_char(s@, c, from as int) == spec_find_char(s@, c, i as int),
        decreases s@.len() - i,
    {
        if s[i] == c {
            assert(spec_find_char(s@, c, i as int) == i as int);
            proof {
                lemma_find_char_props(s@, c, from as int);
            }
            return i;
        }
        assert(spec_find_char(s@, c, i as int) == spec_find_char(s@, c, i as int + 1));
        i += 1;
    }
    assert(spec_find_char(s@, c, i as int) == s@.len() as int);
    s.len()
}

pub fn contains_char(s: &Vec<char>, c: char) -> (r: bool)
    ensures
        r == spec_contains_char(s@, c),
{
    let i = find_char(s, c, 0);
    proof {
        lemma_find_char_props(s@, c, 0);
    }
    i < s.len()
}

/// The pattern `kw` stands at `i` as a whole word: no identifier character abuts it.
pub open spec fn spec_token_at(s: Seq<char>, i: int, kw: Seq<char>) -> bool {
    spec_matches_at(s, i, kw)
        && (i == 0 || !is_ident_char(s[i - 1]))
        && (i + kw.len() == s.len() || !is_ident_char(s[i + kw.len()]))
}

/// The first whole-word occurrence of `kw` at or after `i`, or `-1`.
pub open spec fn spec_find_token(s: Seq<char>, kw: Seq<char>, i: int) -> int
    decreases s.len() - i,
{
    if i < 0 || kw.len() == 0 || i + kw.len() > s.len() {
        -1
    } else if spec_token_at(s, i, kw) {
        i
    } else {
        spec_find_token(s, kw, i + 1)
    }
}

/// `kw` occurs somewhere in `s` as a whole word.
pub open spec fn spec_has_token(s: Seq<char>, kw: Seq<char>) -> bool {
    exists|i: int| spec_token_at(s, i, kw)
}

pub proof fn lemma_find_token_props(s: Seq<char>, kw: Seq<char>, i: int)
    requires
        0 <= i,
        kw.len() > 0,
    ensures
        spec_find_token(s, kw, i) == -1 ==> forall|j: int| j >= i ==> !spec_token_at(s, j, kw),
        spec_find_token(s, kw, i) >= 0 ==> spec_token_at(s, spec_find_token(s, kw, i), kw)
            && spec_find_token(s, kw, i) >= i,
    decreases s.len() - i,
{
    if i + kw.len() > s.len() {
        assert forall|j: int| j >= i implies !spec_token_at(s, j, kw) by {}
    } else if spec_token_at(s, i, kw) {
    } else {
        lemma_find_token_props(s, kw, i + 1);
    }
}

pub fn token_at(s: &Vec<char>, i: usize, kw: &str) -> (r: bool)
    ensures
        r == spec_token_at(s@, i as int, kw@),
{
    let kl: usize = kw.unicode_len();
    if !matches_at(s, i, kw) {
        return false;
    }
    assert(i + kl <= s.len());
    let before_ok = i == 0 || !ident_char(s[i - 1]);
    let after_ok = i + kl == s.len() || !ident_char(s[i + kl]);
    before_ok && after_ok
}

pub fn find_token(s: &Vec<char>, kw: &str, from: usize) -> (r: Option<usize>)
    ensures
        match r {
            Some(i) => i as int == spec_find_token(s@, kw@, from as int) && i <= s@.len(),
            None => spec_find_token(s@, kw@, from as int) == -1,
        },
{
    let kl: usize = kw.unicode_len();
    if kl == 0 {
        return None;
    }
    let mut i: usize = from;
    while i <= s.len() && kl <= s.len() - i
        invariant
            kl == kw@.len(),
            kl >= 1,
            from <= i,
            spec_find_token(s@, kw@, from as int) == spec_find_token(s@, kw@, i as int),
        decreases s@.len() + 1 - i,
    {
        if token_at(s, i, kw) {
            return Some(i);
        }
        assert(i + 1 <= s.len());
        i += 1;
    }
    None
}

pub fn has_token(s: &Vec<char>, kw: &str) -> (r: bool)
    requires
        kw@.len() > 0,
    ensures
        r == spec_has_token(s@, kw@),
{
    proof {
        lemma_find_token_props(s@, kw@, 0);
    }
    match find_token(s, kw, 0) {
        Some(i) => {
            assert(spec_token_at(s@, i as int, kw@));
            true
        },
        None => {
            assert forall|j: int| !spec_token_at(s@, j, kw@) by {
                if j >= 0 {
                    assert(!spec_token_at(s@, j, kw@));
                }
            }
            false
        },
    }
}

/// `s` begins with the whole word `kw`.
pub open spec fn spec_starts_token(s: Seq<char>, kw: Seq<char>) -> bool {
    spec_token_at(s, 0, kw)
}

pub fn starts_token(s: &Vec<char>, kw: &str) -> (r: bool)
    ensures
        r == spec_starts_token(s@, kw@),
{
    token_at(s, 0, kw)
}

/// `s` ends with the character `c`.
pub open spec fn spec_ends_char(s: Seq<char>, c: char) -> bool {
    s.len() > 0 && s[s.len() - 1] == c
}

pub fn ends_char(s: &Vec<char>, c: char) -> (r: bool)
    ensures
        r == spec_ends_char(s@, c),
{
    s.len() > 0 && s[s.len() - 1] == c
}

/// The first position at or after `i` holding a character that is not whitespace.
pub open spec fn spec_skip_spaces(s: Seq<char>, i: int) -> int
    decreases s.len() - i,
{
    if 0 <= i && i < s.len() && is_space(s[i]) {
        spec_skip_spaces(s, i + 1)
    } else {
        i
    }
}

pub proof fn lemma_skip_spaces_bounds(s: Seq<char>, i: int)
    requires
        0 <= i <= s.len(),
    ensures
        i <= spec_skip_spaces(s, i) <= s.len(),
    decreases s.len() - i,
{
    if i < s.len() && is_space(s[i]) {
        lemma_skip_spaces_bounds(s, i + 1);
    }
}

pub fn skip_spaces(s: &Vec<char>, from: usize) -> (r: usize)
    requires
        from <= s@.len(),
    ensures
        r as int == spec_skip_spaces(s@, from as int),
        from <= r <= s@.len(),
{
    let mut i: usize = from;
    while i < s.len() && space_char(s[i])
        invariant
            from <= i <= s@.len(),
            spec_skip_spaces(s@, from as int) == spec_skip_spaces(s@, i as int),
        decreases s@.len() - i,
    {
        i += 1;
    }
    i
}

/// The end of the identifier run that starts at `i`.
pub open spec fn spec_ident_end(s: Seq<char>, i: int) -> int
    decreases s.len() - i,
{
    if 0 <= i && i < s.len() && is_ident_char(s[i]) {
        spec_ident_end(s, i + 1)
    } else {
        i
    }
}

pub fn ident_end(s: &Vec<char>, from: usize) -> (r: usize)
    requires
        from <= s@.len(),
    ensures
        r as int == spec_ident_end(s@, from as int),
        from <= r <= s@.len(),
{
    let mut i: usize = from;
    while i < s.len() && ident_char(s[i])
        invariant
            from <= i <= s@.len(),
            spec_ident_end(s@, from as int) == spec_ident_end(s@, i as int),
        decreases s@.len() - i,
    {
        i += 1;
    }
    i
}

/// The start of the run of non-whitespace characters that ends at `p`.
pub open spec fn spec_name_start(s: Seq<char>, p: int) -> int
    decreases p,
{
    if 0 < p <= s.len() && !is_space(s[p - 1]) {
        spec_name_start(s, p - 1)
    } else {
        p
    }
}

pub fn name_start(s: &Vec<char>, p: usize) -> (r: usize)
    requires
        p <= s@.len(),
    ensures
        r as int == spec_name_start(s@, p as int),
        r <= p,
{
    let mut i: usize = p;
    while i > 0 && !space_char(s[i - 1])
        invariant
            i <= p <= s@.len(),
            spec_name_start(s@, p as int) == spec_name_start(s@, i as int),
        decreases i,
    {
        i -= 1;
    }
    i
}

/// A copy of `s[a..b]`.
pub fn sub_vec(s: &Vec<char>, a: usize, b: usize) -> (v: Vec<char>)
    requires
        a <= b <= s@.len(),
    ensures
        v@ == s@.subrange(a as int, b as int),
{
    let mut v: Vec<char> = Vec::new();
    let mut i: usize = a;
    while i < b
        invariant
            a <= i <= b <= s@.len(),
            v@ == s@.subrange(a as int, i as int),
        decreases b - i,
    {
        let ghost pre = v@;
        v.push(s[i]);
        i += 1;
        assert(v@ =~= s@.subrange(a as int, i as int));
    }
    v
}

/// Appends the text of `s` to `out`.
pub fn push_chars(out: &mut Vec<char>, s: &Vec<char>)
    ensures
        final(out)@ == old(out)@ + s@,
{
    let mut i: usize = 0;
    while i < s.len()
        invariant
            i <= s@.len(),
            out@ == old(out)@ + s@.subrange(0, i as int),
        decreases s@.len() - i,
    {
        out.push(s[i]);
        i += 1;
        assert(out@ =~= old(out)@ + s@.subrange(0, i as int));
    }
    assert(s@.subrange(0, s@.len() as int) =~= s@);
}

/// Appends the text of the string slice `s` to `out`.
pub fn push_str_chars(out: &mut Vec<char>, s: &str)
    ensures
        final(out)@ == old(out)@ + s@,
{
    let n: usize = s.unicode_len();
    let mut i: usize = 0;
    while i < n
        invariant
            n == s@.len(),
            i <= n,
            out@ == old(out)@ + s@.subrange(0, i as int),
        decreases n - i,
    {
        out.push(s.get_char(i));
        i += 1;
        assert(out@ =~= old(out)@ + s@.subrange(0, i as int));
    }
    assert(s@.subrange(0, s@.len() as int) =~= s@);
}

/// `s` without leading whitespace.
pub open spec fn spec_trim_front(s: Seq<char>) -> Seq<char>
    decreases s.len(),
{
    if s.len() > 0 && is_space(s[0]) {
        spec_trim_front(s.skip(1))
    } else {
        s
    }
}

/// `s` without trailing whitespace.
pub open spec fn spec_trim_back(s: Seq<char>) -> Seq<char>
    decreases s.len(),
{
    if s.len() > 0 && is_space(s.last()) {
        spec_trim_back(s.drop_last())
    } else {
        s
    }
}

/// `s` without leading or trailing whitespace.
pub open spec fn spec_trim(s: Seq<char>) -> Seq<char> {
    spec_trim_back(spec_trim_front(s))
}

pub fn trim(s: &Vec<char>) -> (v: Vec<char>)
    ensures
        v@ == spec_trim(s@),
{
    assert(s@.skip(0) =~= s@);
    let mut a: usize = 0;
    while a < s.len() && space_char(s[a])
        invariant
            a <= s@.len(),
            spec_trim_front(s@) == spec_trim_front(s@.skip(a as int)),
        decreases s@.len() - a,
    {
        assert(s@.skip(a as int).skip(1) =~= s@.skip(a as int + 1));
        a += 1;
    }
    assert(spec_trim_front(s@) == s@.skip(a as int));
    assert(s@.skip(a as int) =~= s@.subrange(a as int, s@.len() as int));
    let mut b: usize = s.len();
    while b > a && space_char(s[b - 1])
        invariant
            a <= b <= s@.len(),
            spec_trim_back(s@.skip(a as int)) == spec_trim_back(s@.subrange(a as int, b as int)),
        decreases b,
    {
        assert(s@.subrange(a as int, b as int).drop_last() =~= s@.subrange(a as int, b as int - 1));
        b -= 1;
    }
    assert(spec_trim_back(s@.subrange(a as int, b as int)) == s@.subrange(a as int, b as int)) by {
        assert(s@.subrange(a as int, b as int).len() > 0 ==> !is_space(s@.subrange(a as int, b as int).last()));
    }
    assert(s@.skip(a as int) =~= s@.subrange(a as int, s@.len() as int));
    sub_vec(s, a, b)
}

/// How the normalizer rewrites one character: angle brackets become the generic marker.
pub open spec fn spec_mark(c: char) -> char {
    if c == '<' || c == '>' {
        '~'
    } else {
        c
    }
}

/// A raw line after normalization: trimmed, with angle brackets replaced by `~`.
pub open spec fn spec_normalize(s: Seq<char>) -> Seq<char> {
    spec_trim(s).map_values(|c: char| spec_mark(c))
}

pub fn normalize_line(s: &Vec<char>) -> (v: Vec<char>)
    ensures
        v@ == spec_normalize(s@),
{
    let t = trim(s);
    let mut v: Vec<char> = Vec::new();
    let mut i: usize = 0;
    while i < t.len()
        invariant
            i <= t@.len(),
            t@ == spec_trim(s@),
            v@ == t@.subrange(0, i as int).map_values(|c: char| spec_mark(c)),
        decreases t@.len() - i,
    {
        let c = t[i];
        if c == '<' || c == '>' {
            v.push('~');
        } else {
            v.push(c);
        }
        i += 1;
        assert(v@ =~= t@.subrange(0, i as int).map_values(|c: char| spec_mark(c)));
    }
    assert(t@.subrange(0, t@.len() as int) =~= t@);
    v
}

/// Every generic-argument span `~...~` collapsed to the placeholder `~T~`.
pub open spec fn spec_collapse(s: Seq<char>) -> Seq<char>
    decreases s.len(),
{
    if s.len() == 0 {
        s
    } else if s[0] == '~' {
        let j = spec_find_char(s, '~', 1);
        if 1 <= j && j < s.len() {
            seq!['~', 'T', '~'] + spec_collapse(s.skip(j + 1))
        } else {
            s
        }
    } else {
        seq![s[0]] + spec_collapse(s.skip(1))
    }
}

proof fn lemma_find_char_shift(s: Seq<char>, c: char, k: int, i: int)
    requires
        0 <= k <= s.len(),
        0 <= i,
    ensures
        spec_find_char(s.skip(k), c, i) == spec_find_char(s, c, i + k) - k,
    decreases s.len() - k - i,
{
    let t = s.skip(k);
    if i >= t.len() {
    } else {
        assert(t[i] == s[i + k]);
        if t[i] == c {
        } else {
            lemma_find_char_shift(s, c, k, i + 1);
        }
    }
}

pub fn collapse_generics(s: &Vec<char>) -> (v: Vec<char>)
    ensures
        v@ == spec_collapse(s@),
{
    let mut v: Vec<char> = Vec::new();
    assert(s@.skip(0) =~= s@);
    assert(v@ + spec_collapse(s@) =~= spec_collapse(s@));
    let mut i: usize = 0;
    while i < s.len()
        invariant
            i <= s@.len(),
            spec_collapse(s@) == v@ + spec_collapse(s@.skip(i as int)),
        decreases s@.len() - i,
    {
        let ghost rem = s@.skip(i as int);
        if s[i] == '~' {
            assert(rem[0] == '~');
            let j = find_char(s, '~', i + 1);
            proof {
                lemma_find_char_shift(s@, '~', i as int, 1);
                assert(spec_find_char(rem, '~', 1) == j - i);
            }
            if j < s.len() {
                push_str_chars(&mut v, "~T~");
                proof {
                    assert(rem.skip(j - i + 1) =~= s@.skip(j + 1));
                    assert(spec_collapse(rem) == seq!['~', 'T', '~'] + spec_collapse(s@.skip(j + 1)));
                    reveal_strlit("~T~");
                    assert("~T~"@ =~= seq!['~', 'T', '~']);
                    assert(spec_collapse(s@) =~= v@ + spec_collapse(s@.skip(j + 1)));
                }
                i = j + 1;
            } else {
                let rest = sub_vec(s, i, s.len());
                push_chars(&mut v, &rest);
                proof {
                    assert(spec_collapse(rem) == rem);
                    assert(rem =~= s@.subrange(i as int, s@.len() as int));
                    assert(s@.skip(s@.len() as int) =~= Seq::<char>::empty());
                    assert(spec_collapse(s@) =~= v@ + spec_collapse(s@.skip(s@.len() as int)));
                }
                i = s.len();
            }
        } else {
            assert(rem[0] == s@[i as int]);
            v.push(s[i]);
            proof {
                assert(rem.skip(1) =~= s@.skip(i as int + 1));
                assert(spec_collapse(rem) == seq![s@[i as int]] + spec_collapse(s@.skip(i as int + 1)));
                assert(spec_collapse(s@) =~= v@ + spec_collapse(s@.skip(i as int + 1)));
            }
            i += 1;
        }
    }
    assert(s@.skip(s@.len() as int) =~= Seq::<char>::empty());
    assert(spec_collapse(s@) =~= v@);
    v
}

/// Every colon surrounded by single spaces, so that base-type lists split cleanly.
pub open spec fn spec_colon_spaced(s: Seq<char>) -> Seq<char>
    decreases s.len(),
{
    if s.len() == 0 {
        s
    } else {
        (if s[0] == ':' {
            seq![' ', ':', ' ']
        } else {
            seq![s[0]]
        }) + spec_colon_spaced(s.skip(1))
    }
}

pub fn colon_spaced(s: &Vec<char>) -> (v: Vec<char>)
    ensures
        v@ == spec_colon_spaced(s@),
{
    let mut v: Vec<char> = Vec::new();
    assert(s@.skip(0) =~= s@);
    assert(v@ + spec_colon_spaced(s@) =~= spec_colon_spaced(s@));
    let mut i: usize = 0;
    while i < s.len()
        invariant
            i <= s@.len(),
            spec_colon_spaced(s@) == v@ + spec_colon_spaced(s@.skip(i as int)),
        decreases s@.len() - i,
    {
        let ghost rem = s@.skip(i as int);
        assert(rem[0] == s@[i as int]);
        if s[i] == ':' {
            push_str_chars(&mut v, " : ");
            proof {
                reveal_strlit(" : ");
                assert(" : "@ =~= seq![' ', ':', ' ']);
            }
        } else {
            v.push(s[i]);
        }
        proof {
            assert(rem.skip(1) =~= s@.skip(i as int + 1));
            assert(spec_colon_spaced(s@) =~= v@ + spec_colon_spaced(s@.skip(i as int + 1)));
        }
        i += 1;
    }
    assert(s@.skip(s@.len() as int) =~= Seq::<char>::empty());
    assert(spec_colon_spaced(s@) =~= v@);
    v
}

/// Every occurrence of `p` in `s` replaced by `r`, scanning left to right.
pub open spec fn spec_replace_all(s: Seq<char>, p: Seq<char>, r: Seq<char>) -> Seq<char>
    decreases s.len(),
{
    if p.len() == 0 || s.len() < p.len() {
        s
    } else if s.subrange(0, p.len() as int) == p {
        r + spec_replace_all(s.skip(p.len() as int), p, r)
    } else {
        seq![s[0]] + spec_replace_all(s.skip(1), p, r)
    }
}

pub fn replace_all(s: &Vec<char>, p: &str, r: &str) -> (v: Vec<char>)
    ensures
        v@ == spec_replace_all(s@, p@, r@),
{
    let pl: usize = p.unicode_len();
    if pl == 0 {
        return sub_vec(s, 0, s.len());
    }
    let mut v: Vec<char> = Vec::new();
    assert(s@.skip(0) =~= s@);
    assert(v@ + spec_replace_all(s@, p@, r@) =~= spec_replace_all(s@, p@, r@));
    let mut i: usize = 0;
    while i < s.len()
        invariant
            pl == p@.len(),
            pl > 0,
            i <= s@.len(),
            spec_replace_all(s@, p@, r@) == v@ + spec_replace_all(s@.skip(i as int), p@, r@),
        decreases s@.len() - i,
    {
        let ghost rem = s@.skip(i as int);
        if matches_at(s, i, p) {
            assert(rem.subrange(0, pl as int) =~= s@.subrange(i as int, i + pl));
            push_str_chars(&mut v, r);
            proof {
                assert(rem.skip(pl as int) =~= s@.skip(i + pl));
                assert(spec_replace_all(rem, p@, r@) == r@ + spec_replace_all(s@.skip(i + pl), p@, r@));
                assert(spec_replace_all(s@, p@, r@) =~= v@ + spec_replace_all(s@.skip(i + pl), p@, r@));
            }
            i += pl;
        } else {
            assert(rem[0] == s@[i as int]);
            v.push(s[i]);
            proof {
                if rem.len() >= pl {
                    assert(rem.subrange(0, pl as int) =~= s@.subrange(i as int, i + pl));
                    assert(rem.subrange(0, pl as int) != p@);
                }
                assert(rem.skip(1) =~= s@.skip(i as int + 1));
                assert(spec_replace_all(rem, p@, r@) == seq![s@[i as int]] + spec_replace_all(s@.skip(i as int + 1), p@, r@));
                assert(spec_replace_all(s@, p@, r@) =~= v@ + spec_replace_all(s@.skip(i as int + 1), p@, r@));
            }
            i += 1;
        }
    }
    assert(s@.skip(s@.len() as int) =~= Seq::<char>::empty());
    assert(spec_replace_all(s@, p@, r@) =~= v@);
    v
}

} // verus!
