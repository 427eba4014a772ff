//! Character-level string operations used by the filters, each with an exact
//! specification over `Seq<char>`.
use vstd::prelude::*;
use vstd::string::*;

verus! {

/// The lowercase form of a character sequence, as the standard library computes it.
pub uninterp spec fn lower_of(s: Seq<char>) -> Seq<char>;

/// Relies on `str::to_lowercase`: the lowercase form depends on the characters alone.
#[verifier::external_body]
pub(crate) fn to_lower(s: &str) -> (r: String)
    ensures
        r@ == lower_of(s@),
{
    s.to_lowercase()
}

/// Unicode `White_Space`, the characters that `str::trim` removes.
pub open spec fn is_white_space(c: char) -> bool {
    let u = c as u32;
    (9 <= u && u <= 13) || u == 32 || u == 0x85 || u == 0xa0 || u == 0x1680 || (0x2000 <= u
        && u <= 0x200a) || u == 0x2028 || u == 0x2029 || u == 0x202f || u == 0x205f || u == 0x3000
}

pub open spec fn trim_start_ws(s: Seq<char>) -> Seq<char>
    decreases s.len(),
{
    if s.len() > 0 && is_white_space(s[0]) {
        trim_start_ws(s.drop_first())
    } else {
        s
    }
}

pub open spec fn trim_end_ws(s: Seq<char>) -> Seq<char>
    decreases s.len(),
{
    if s.len() > 0 && is_white_space(s.last()) {
        trim_end_ws(s.drop_last())
    } else {
        s
    }
}

/// `s` without leading and trailing white space.
pub open spec fn trimmed(s: Seq<char>) -> Seq<char> {
    trim_end_ws(trim_start_ws(s))
}

/// `s` without any leading `'.'`.
pub open spec fn strip_leading_dots(s: Seq<char>) -> Seq<char>
    decreases s.len(),
{
    if s.len() > 0 && s[0] == '.' {
        strip_leading_dots(s.drop_first())
    } else {
        s
    }
}

pub open spec fn is_sep(c: char) -> bool {
    c == '\\' || c == '/'
}

/// `s` without any trailing `'\\'` or `'/'`.
pub open spec fn strip_trailing_seps(s: Seq<char>) -> Seq<char>
    decreases s.len(),
{
    if s.len() > 0 && is_sep(s.last()) {
        strip_trailing_seps(s.drop_last())
    } else {
        s
    }
}

pub open spec fn unify_sep(c: char) -> char {
    if c == '/' {
        '\\'
    } else {
        c
    }
}

/// `s` with every `'/'` turned into `'\\'`.
pub open spec fn unify_seps(s: Seq<char>) -> Seq<char> {
    s.map_values(|c: char| unify_sep(c))
}

pub open spec fn has_suffix(s: Seq<char>, suf: Seq<char>) -> bool {
    suf.len() <= s.len() && s.subrange(s.len() - suf.len(), s.len() as int) == suf
}

pub open spec fn has_prefix(s: Seq<char>, pre: Seq<char>) -> bool {
    pre.len() <= s.len() && s.subrange(0, pre.len() as int) == pre
}

pub(crate) fn white_space(c: char) -> (r: bool)
    ensures
        r == is_white_space(c),
{
    let u = c as u32;
    (9 <= u && u <= 13) || u == 32 || u == 0x85 || u == 0xa0 || u == 0x1680 || (0x2000 <= u && u
        <= 0x200a) || u == 0x2028 || u == 0x2029 || u == 0x202f || u == 0x205f || u == 0x3000
}

/// Removes leading and trailing white space.
pub(crate) fn trim_ws(s: &str) -> (r: String)
    ensures
        r@ == trimmed(s@),
{
    let n = s.unicode_len();
    let mut i: usize = 0;
    assert(s@.subrange(0, n as int) =~= s@);
    while i < n && white_space(s.get_char(i))
        invariant
            n == s@.len(),
            i <= n,
            trim_start_ws(s@) == trim_start_ws(s@.subrange(i as int, n as int)),
        decreases n - i,
    {
        assert(s@.subrange(i as int, n as int).drop_first() =~= s@.subrange(i + 1, n as int));
        i = i + 1;
    }
    assert(trim_start_ws(s@) == s@.subrange(i as int, n as int));
    let mut j: usize = n;
    while j > i && white_space(s.get_char(j - 1))
        invariant
            n == s@.len(),
            i <= j <= n,
            trimmed(s@) == trim_end_ws(s@.subrange(i as int, j as int)),
        decreases j,
    {
        assert(s@.subrange(i as int, j as int).drop_last() =~= s@.subrange(i as int, j - 1));
        j = j - 1;
    }
    String::from_str(s.substring_char(i, j))
}

/// Removes every leading `'.'`.
pub(crate) fn strip_dots(s: &str) -> (r: String)
    ensures
        r@ == strip_leading_dots(s@),
{
    let n = s.unicode_len();
    let mut i: usize = 0;
    assert(s@.subrange(0, n as int) =~= s@);
    while i < n && s.get_char(i) == '.'
        invariant
            n == s@.len(),
            i <= n,
            strip_leading_dots(s@) == strip_leading_dots(s@.subrange(i as int, n as int)),
        decreases n - i,
    {
        assert(s@.subrange(i as int, n as int).drop_first() =~= s@.subrange(i + 1, n as int));
        i = i + 1;
    }
    String::from_str(s.substring_char(i, n))
}

/// Removes every trailing `'\\'` or `'/'`.
pub(crate) fn strip_seps(s: &str) -> (r: String)
    ensures
        r@ == strip_trailing_seps(s@),
{
    let n = s.unicode_len();
    let mut j: usize = n;
    assert(s@.subrange(0, n as int) =~= s@);
    while j > 0 && (s.get_char(j - 1) == '\\' || s.get_char(j - 1) == '/')
        invariant
            n == s@.len(),
            j <= n,
            strip_trailing_seps(s@) == strip_trailing_seps(s@.subrange(0, j as int)),
        decreases j,
    {
        assert(s@.subrange(0, j as int).drop_last() =~= s@.subrange(0, j - 1));
        j = j - 1;
    }
    if j == n {
        assert(s@.subrange(0, n as int) =~= s@);
    }
    String::from_str(s.substring_char(0, j))
}

/// Turns every `'/'` into `'\\'`.
pub(crate) fn unify_separators(s: &str) -> (r: String)
    ensures
        r@ == unify_seps(s@),
{
    let n = s.unicode_len();
    let mut r = String::new();
    let mut i: usize = 0;
    let back = "\\";
    proof {
        reveal_strlit("\\");
    }
    while i < n
        invariant
            n == s@.len(),
            i <= n,
            back@ == seq!['\\'],
            r@ == unify_seps(s@.subrange(0, i as int)),
        decreases n - i,
    {
        let c = s.get_char(i);
        if c == '/' {
            r.append(back);
        } else {
            r.append(s.substring_char(i, i + 1));
        }
        assert(unify_seps(s@.subrange(0, i + 1)) =~= unify_seps(s@.subrange(0, i as int)).push(
            unify_sep(c),
        ));
        i = i + 1;
    }
    assert(s@.subrange(0, n as int) =~= s@);
    r
}

/// Whether `s` ends with `'.'` followed by `ext`.
pub(crate) fn ends_with_dot_ext(s: &str, ext: &str) -> (r: bool)
    ensures
        r == has_suffix(s@, seq!['.'] + ext@),
{
    let n = s.unicode_len();
    let m = ext.unicode_len();
    if m >= n {
        return false;
    }
    let start = n - m;
    if s.get_char(start - 1) != '.' {
        assert((seq!['.'] + ext@)[0] == '.');
        assert(s@.subrange(start - 1, n as int)[0] == s@[start - 1]);
        return false;
    }
    let mut k: usize = 0;
    while k < m
        invariant
            n == s@.len(),
            m == ext@.len(),
            start == n - m,
            0 < start,
            k <= m,
            forall|j: int| 0 <= j < k ==> s@[start + j] == ext@[j],
        decreases m - k,
    {
        if s.get_char(start + k) != ext.get_char(k) {
            assert(s@.subrange(start - 1, n as int)[k + 1] == s@[start + k]);
            assert((seq!['.'] + ext@)[k + 1] == ext@[k as int]);
            return false;
        }
        k = k + 1;
    }
    assert(s@.subrange(start - 1, n as int) =~= seq!['.'] + ext@);
    true
}

/// Whether `s` starts with `dir` followed by `'\\'`.
pub(crate) fn starts_with_dir(s: &str, dir: &str) -> (r: bool)
    ensures
        r == has_prefix(s@, dir@.push('\\')),
{
    let n = s.unicode_len();
    let m = dir.unicode_len();
    if m >= n {
        return false;
    }
    let mut k: usize = 0;
    while k < m
        invariant
            n == s@.len(),
            m == dir@.len(),
            m < n,
            k <= m,
            forall|j: int| 0 <= j < k ==> s@[j] == dir@[j],
        decreases m - k,
    {
        if s.get_char(k) != dir.get_char(k) {
            assert(s@.subrange(0, m + 1)[k as int] == s@[k as int]);
            assert(dir@.push('\\')[k as int] == dir@[k as int]);
            return false;
        }
        k = k + 1;
    }
    if s.get_char(m) != '\\' {
        assert(s@.subrange(0, m + 1)[m as int] == s@[m as int]);
        return false;
    }
    assert(s@.subrange(0, m + 1) =~= dir@.push('\\'));
    true
}

/// Whether `a` and `b` hold the same characters.
pub(crate) fn same_chars(a: &str, b: &str) -> (r: bool)
    ensures
        r == (a@ == b@),
{
    let n = a.unicode_len();
    if n != b.unicode_len() {
        return false;
    }
    let mut i: usize = 0;
    while i < n
        invariant
            n == a@.len(),
            n == b@.len(),
            i <= n,
            forall|j: int| 0 <= j < i ==> a@[j] == b@[j],
        decreases n - i,
    {
        if a.get_char(i) != b.get_char(i) {
            return false;
        }
        i = i + 1;
    }
    assert(a@ =~= b@);
    true
}

/// Whether `c` occurs in `s`.
pub(crate) fn contains_char(s: &str, c: char) -> (r: bool)
    ensures
        r == s@.contains(c),
{
    let n = s.unicode_len();
    let mut i: usize = 0;
    while i < n
        invariant
            n == s@.len(),
            i <= n,
            forall|j: int| 0 <= j < i ==> s@[j] != c,
        decreases n - i,
    {
        if s.get_char(i) == c {
            return true;
        }
        i = i + 1;
    }
    false
}

/// What `trim_start_ws` leaves is a tail of its argument that does not start with white space.
pub proof fn lemma_trim_start_shape(s: Seq<char>)
    ensures
        trim_start_ws(s).len() <= s.len(),
        trim_start_ws(s) == s.subrange(s.len() - trim_start_ws(s).len(), s.len() as int),
        trim_start_ws(s).len() == 0 || !is_white_space(trim_start_ws(s)[0]),
    decreases s.len(),
{
    if s.len() > 0 && is_white_space(s[0]) {
        lemma_trim_start_shape(s.drop_first());
        let r = trim_start_ws(s.drop_first());
        assert(s.drop_first().subrange(s.len() - 1 - r.len(), s.len() - 1) =~= s.subrange(
            s.len() - r.len(),
            s.len() as int,
        ));
    } else {
        assert(s.subrange(0, s.len() as int) =~= s);
    }
}

/// What `trim_end_ws` leaves is a head of its argument that does not end with white space.
pub proof fn lemma_trim_end_shape(s: Seq<char>)
    ensures
        trim_end_ws(s).len() <= s.len(),
        trim_end_ws(s) == s.subrange(0, trim_end_ws(s).len() as int),
        trim_end_ws(s).len() == 0 || !is_white_space(trim_end_ws(s).last()),
    decreases s.len(),
{
    if s.len() > 0 && is_white_space(s.last()) {
        lemma_trim_end_shape(s.drop_last());
        let r = trim_end_ws(s.drop_last());
        assert(s.drop_last().subrange(0, r.len() as int) =~= s.subrange(0, r.len() as int));
    } else {
        assert(s.subrange(0, s.len() as int) =~= s);
    }
}

/// What `strip_trailing_seps` leaves is a head of its argument that does not end with a separator.
pub proof fn lemma_strip_seps_shape(s: Seq<char>)
    ensures
        strip_trailing_seps(s).len() <= s.len(),
        strip_trailing_seps(s) == s.subrange(0, strip_trailing_seps(s).len() as int),
        strip_trailing_seps(s).len() == 0 || !is_sep(strip_trailing_seps(s).last()),
    decreases s.len(),
{
    if s.len() > 0 && is_sep(s.last()) {
        lemma_strip_seps_shape(s.drop_last());
        let r = strip_trailing_seps(s.drop_last());
        assert(s.drop_last().subrange(0, r.len() as int) =~= s.subrange(0, r.len() as int));
    } else {
        assert(s.subrange(0, s.len() as int) =~= s);
    }
}

/// What `strip_leading_dots` leaves is a tail of its argument that does not start with a dot.
pub proof fn lemma_strip_dots_shape(s: Seq<char>)
    ensures
        has_suffix(s, strip_leading_dots(s)),
        strip_leading_dots(s).len() == 0 || strip_leading_dots(s)[0] != '.',
    decreases s.len(),
{
    if s.len() > 0 && s[0] == '.' {
        lemma_strip_dots_shape(s.drop_first());
        let r = strip_leading_dots(s.drop_first());
        assert(s.drop_first().subrange(s.len() - 1 - r.len(), s.len() - 1) =~= s.subrange(
            s.len() - r.len(),
            s.len() as int,
        ));
    } else {
        assert(s.subrange(0, s.len() as int) =~= s);
    }
}

} // verus!
