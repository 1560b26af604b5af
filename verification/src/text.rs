//! Character classes and substring primitives shared by the line-oriented
//! heuristics: everything here is stated over `Seq<char>` views.

use vstd::prelude::*;
use vstd::string::StrSliceExecFns;

verus! {

// ---------------------------------------------------------------------------
// Character classes
// ---------------------------------------------------------------------------

/// Whether `c` counts as whitespace; the classification `char::is_whitespace`
/// makes, which depends on the character alone.
pub uninterp spec fn is_space_char(c: char) -> bool;

/// Whether `c` counts as a letter or digit; the classification
/// `char::is_alphanumeric` makes, which depends on the character alone.
pub uninterp spec fn is_alnum_char(c: char) -> bool;

/// Relies on `char::is_whitespace`: a fixed per-character classification,
/// named here by `is_space_char`.
#[verifier::external_body]
pub(crate) fn char_is_space(c: char) -> (r: bool)
    ensures
        r == is_space_char(c),
{
    c.is_whitespace()
}

/// Relies on `char::is_alphanumeric`: a fixed per-character classification,
/// named here by `is_alnum_char`.
#[verifier::external_body]
pub(crate) fn char_is_alnum(c: char) -> (r: bool)
    ensures
        r == is_alnum_char(c),
{
    c.is_alphanumeric()
}

/// Characters that may make up an extracted identifier.
pub open spec fn is_word_char(c: char) -> bool {
    is_alnum_char(c) || c == '_'
}

pub(crate) fn char_is_word(c: char) -> (r: bool)
    ensures
        r == is_word_char(c),
{
    char_is_alnum(c) || c == '_'
}

/// Characters trimmed from both ends of an extracted import path.
pub open spec fn is_quote_or_semi(c: char) -> bool {
    c == '\'' || c == '"' || c == ';'
}

pub(crate) fn char_is_quote_or_semi(c: char) -> (r: bool)
    ensures
        r == is_quote_or_semi(c),
{
    c == '\'' || c == '"' || c == ';'
}

// ---------------------------------------------------------------------------
// Conversions between `&str`, `Vec<char>` and `String`
// ---------------------------------------------------------------------------

/// The characters of `s`, in order, as a vector.
pub fn str_chars(s: &str) -> (v: Vec<char>)
    ensures
        v@ == s@,
{
    let n = s.unicode_len();
    let mut v: Vec<char> = Vec::new();
    let mut i: usize = 0;
    while i < n
        invariant
            n == s@.len(),
            i <= n,
            v@ == s@.take(i as int),
        decreases n - i,
    {
        let c = s.get_char(i);
        v.push(c);
        proof {
            assert(s@.take(i + 1) =~= s@.take(i as int).push(s@[i as int]));
        }
        i = i + 1;
    }
    proof {
        assert(s@.take(n as int) =~= s@);
    }
    v
}

/// Relies on `Iterator::collect` for `String`: collecting characters yields
/// the string of exactly those characters.
#[verifier::external_body]
pub(crate) fn chars_to_string(v: &Vec<char>) -> (s: String)
    ensures
        s@ == v@,
{
    v.iter().collect()
}

/// The characters of `v` between `lo` (inclusive) and `hi` (exclusive).
pub(crate) fn sub_vec(v: &Vec<char>, lo: usize, hi: usize) -> (r: Vec<char>)
    requires
        lo <= hi <= v@.len(),
    ensures
        r@ == v@.subrange(lo as int, hi as int),
{
    let mut r: Vec<char> = Vec::new();
    let mut i: usize = lo;
    while i < hi
        invariant
            lo <= i <= hi <= v@.len(),
            r@ == v@.subrange(lo as int, i as int),
        decreases hi - i,
    {
        r.push(v[i]);
        proof {
            assert(v@.subrange(lo as int, i + 1) =~= v@.subrange(lo as int, i as int).push(
                v@[i as int],
            ));
        }
        i = i + 1;
    }
    r
}

// ---------------------------------------------------------------------------
// Substring search
// ---------------------------------------------------------------------------

/// `p` occurs in `s` starting at index `i`.
pub open spec fn has_sub_at(s: Seq<char>, p: Seq<char>, i: int) -> bool {
    &&& 0 <= i
    &&& i + p.len() <= s.len()
    &&& s.subrange(i, i + p.len()) == p
}

/// `p` occurs somewhere in `s`.
pub open spec fn contains_sub(s: Seq<char>, p: Seq<char>) -> bool {
    exists|i: int| has_sub_at(s, p, i)
}

/// `i` is the earliest occurrence of `p` in `s`.
pub open spec fn is_first_sub_at(s: Seq<char>, p: Seq<char>, i: int) -> bool {
    &&& has_sub_at(s, p, i)
    &&& forall|j: int| 0 <= j < i ==> !has_sub_at(s, p, j)
}

/// The earliest occurrence of `p` in `s`; meaningful only when
/// `contains_sub(s, p)` holds.
pub open spec fn first_sub(s: Seq<char>, p: Seq<char>) -> int {
    choose|i: int| is_first_sub_at(s, p, i)
}

pub proof fn lemma_first_sub_exists(s: Seq<char>, p: Seq<char>, i: int)
    requires
        has_sub_at(s, p, i),
    ensures
        is_first_sub_at(s, p, first_sub(s, p)),
    decreases i,
{
    if forall|j: int| 0 <= j < i ==> !has_sub_at(s, p, j) {
        assert(is_first_sub_at(s, p, i));
        let k = choose|k: int| is_first_sub_at(s, p, k);
        assert(is_first_sub_at(s, p, k));
    } else {
        let j = choose|j: int| 0 <= j < i && has_sub_at(s, p, j);
        lemma_first_sub_exists(s, p, j);
    }
}

pub proof fn lemma_first_sub_is(s: Seq<char>, p: Seq<char>, i: int)
    requires
        is_first_sub_at(s, p, i),
    ensures
        first_sub(s, p) == i,
{
    lemma_first_sub_exists(s, p, i);
    let k = first_sub(s, p);
    if k < i {
        assert(!has_sub_at(s, p, k));
    }
    if k > i {
        assert(!has_sub_at(s, p, i));
    }
}

/// Whether `pat` occurs in `v` starting at index `i`.
#[verifier::loop_isolation(false)]
pub(crate) fn match_at(v: &Vec<char>, pat: &Vec<char>, i: usize) -> (r: bool)
    requires
        i + pat@.len() <= v@.len(),
    ensures
        r == has_sub_at(v@, pat@, i as int),
{
    let n = v.len();
    let mut j: usize = 0;
    while j < pat.len()
        invariant
            i + pat@.len() <= v@.len(),
            j <= pat@.len(),
            forall|k: int| 0 <= k < j ==> v@[i + k] == pat@[k],
        decreases pat@.len() - j,
    {
        if v[i + j] != pat[j] {
            proof {
                if has_sub_at(v@, pat@, i as int) {
                    assert(v@.subrange(i as int, i + pat@.len())[j as int] == pat@[j as int]);
                }
            }
            return false;
        }
        j = j + 1;
    }
    proof {
        assert(v@.subrange(i as int, i + pat@.len()) =~= pat@);
    }
    true
}

/// The earliest occurrence of `pat` in `v`, if any.
pub(crate) fn find_pat(v: &Vec<char>, pat: &Vec<char>) -> (r: Option<usize>)
    ensures
        match r {
            Some(i) => is_first_sub_at(v@, pat@, i as int),
            None => !contains_sub(v@, pat@),
        },
{
    if pat.len() > v.len() {
        proof {
            assert forall|i: int| !has_sub_at(v@, pat@, i) by {}
        }
        return None;
    }
    let end = v.len() - pat.len();
    let mut i: usize = 0;
    loop
        invariant
            pat@.len() <= v@.len(),
            end == v@.len() - pat@.len(),
            i <= end,
            forall|j: int| 0 <= j < i ==> !has_sub_at(v@, pat@, j),
        decreases end - i,
    {
        if match_at(v, pat, i) {
            return Some(i);
        }
        if i == end {
            proof {
                assert forall|j: int| !has_sub_at(v@, pat@, j) by {
                    if j > end {
                        assert(j + pat@.len() > v@.len());
                    }
                }
            }
            return None;
        }
        i = i + 1;
    }
}

// ---------------------------------------------------------------------------
// Prefixes and suffixes
// ---------------------------------------------------------------------------

/// `s` begins with `p`.
pub open spec fn has_prefix(s: Seq<char>, p: Seq<char>) -> bool {
    p.len() <= s.len() && s.take(p.len() as int) == p
}

/// `s` ends with `p`.
pub open spec fn has_suffix(s: Seq<char>, p: Seq<char>) -> bool {
    p.len() <= s.len() && s.skip(s.len() - p.len()) == p
}

pub(crate) fn starts_with_pat(v: &Vec<char>, pat: &Vec<char>) -> (r: bool)
    ensures
        r == has_prefix(v@, pat@),
{
    if pat.len() > v.len() {
        return false;
    }
    let m = match_at(v, pat, 0);
    proof {
        assert(v@.take(pat@.len() as int) =~= v@.subrange(0, pat@.len() as int));
    }
    m
}

pub(crate) fn ends_with_pat(v: &Vec<char>, pat: &Vec<char>) -> (r: bool)
    ensures
        r == has_suffix(v@, pat@),
{
    if pat.len() > v.len() {
        return false;
    }
    let start = v.len() - pat.len();
    let m = match_at(v, pat, start);
    proof {
        assert(v@.skip(start as int) =~= v@.subrange(start as int, start + pat@.len()));
    }
    m
}

// ---------------------------------------------------------------------------
// Trimming
// ---------------------------------------------------------------------------

pub open spec fn trim_start_ws(s: Seq<char>) -> Seq<char>
    decreases s.len(),
{
    if s.len() > 0 && is_space_char(s[0]) {
        trim_start_ws(s.drop_first())
    } else {
        s
    }
}

pub open spec fn trim_end_ws(s: Seq<char>) -> Seq<char>
    decreases s.len(),
{
    if s.len() > 0 && is_space_char(s.last()) {
        trim_end_ws(s.drop_last())
    } else {
        s
    }
}

/// Whitespace removed from both ends, as `str::trim` does.
pub open spec fn trim_ws(s: Seq<char>) -> Seq<char> {
    trim_end_ws(trim_start_ws(s))
}

pub open spec fn trim_start_qs(s: Seq<char>) -> Seq<char>
    decreases s.len(),
{
    if s.len() > 0 && is_quote_or_semi(s[0]) {
        trim_start_qs(s.drop_first())
    } else {
        s
    }
}

pub open spec fn trim_end_qs(s: Seq<char>) -> Seq<char>
    decreases s.len(),
{
    if s.len() > 0 && is_quote_or_semi(s.last()) {
        trim_end_qs(s.drop_last())
    } else {
        s
    }
}

/// Quotes and semicolons removed from both ends.
pub open spec fn trim_qs(s: Seq<char>) -> Seq<char> {
    trim_end_qs(trim_start_qs(s))
}

#[verifier::loop_isolation(false)]
fn ws_prefix_end(v: &Vec<char>) -> (lo: usize)
    ensures
        lo <= v@.len(),
        trim_start_ws(v@) == v@.skip(lo as int),
{
    let n = v.len();
    let mut lo: usize = 0;
    proof {
        assert(v@.skip(0) =~= v@);
    }
    loop
        invariant
            lo <= n,
            trim_start_ws(v@) == trim_start_ws(v@.skip(lo as int)),
        decreases n - lo,
    {
        if lo == n {
            proof {
                assert(v@.skip(lo as int) =~= Seq::<char>::empty());
            }
            return lo;
        }
        if !char_is_space(v[lo]) {
            proof {
                assert(v@.skip(lo as int)[0] == v@[lo as int]);
            }
            return lo;
        }
        proof {
            assert(v@.skip(lo as int)[0] == v@[lo as int]);
            assert(v@.skip(lo as int).drop_first() =~= v@.skip(lo as int + 1));
        }
        lo = lo + 1;
    }
}

#[verifier::loop_isolation(false)]
pub(crate) fn trim_vec_ws(v: &Vec<char>) -> (r: Vec<char>)
    ensures
        r@ == trim_ws(v@),
{
    let n = v.len();
    let lo = ws_prefix_end(v);
    proof {
        assert(v@.skip(lo as int) =~= v@.subrange(lo as int, n as int));
    }
    let mut hi: usize = n;
    loop
        invariant
            lo <= hi <= n,
            trim_end_ws(v@.skip(lo as int)) == trim_end_ws(v@.subrange(lo as int, hi as int)),
        decreases hi,
    {
        if hi == lo {
            proof {
                assert(v@.subrange(lo as int, hi as int) =~= Seq::<char>::empty());
            }
            return sub_vec(v, lo, hi);
        }
        if !char_is_space(v[hi - 1]) {
            proof {
                assert(v@.subrange(lo as int, hi as int).last() == v@[hi - 1]);
            }
            return sub_vec(v, lo, hi);
        }
        proof {
            assert(v@.subrange(lo as int, hi as int).last() == v@[hi - 1]);
            assert(v@.subrange(lo as int, hi as int).drop_last() =~= v@.subrange(
                lo as int,
                hi - 1,
            ));
        }
        hi = hi - 1;
    }
}

#[verifier::loop_isolation(false)]
fn qs_prefix_end(v: &Vec<char>) -> (lo: usize)
    ensures
        lo <= v@.len(),
        trim_start_qs(v@) == v@.skip(lo as int),
{
    let n = v.len();
    let mut lo: usize = 0;
    proof {
        assert(v@.skip(0) =~= v@);
    }
    loop
        invariant
            lo <= n,
            trim_start_qs(v@) == trim_start_qs(v@.skip(lo as int)),
        decreases n - lo,
    {
        if lo == n {
            proof {
                assert(v@.skip(lo as int) =~= Seq::<char>::empty());
            }
            return lo;
        }
        if !char_is_quote_or_semi(v[lo]) {
            proof {
                assert(v@.skip(lo as int)[0] == v@[lo as int]);
            }
            return lo;
        }
        proof {
            assert(v@.skip(lo as int)[0] == v@[lo as int]);
            assert(v@.skip(lo as int).drop_first() =~= v@.skip(lo as int + 1));
        }
        lo = lo + 1;
    }
}

#[verifier::loop_isolation(false)]
pub(crate) fn trim_vec_qs(v: &Vec<char>) -> (r: Vec<char>)
    ensures
        r@ == trim_qs(v@),
{
    let n = v.len();
    let lo = qs_prefix_end(v);
    proof {
        assert(v@.skip(lo as int) =~= v@.subrange(lo as int, n as int));
    }
    let mut hi: usize = n;
    loop
        invariant
            lo <= hi <= n,
            trim_end_qs(v@.skip(lo as int)) == trim_end_qs(v@.subrange(lo as int, hi as int)),
        decreases hi,
    {
        if hi == lo {
            proof {
                assert(v@.subrange(lo as int, hi as int) =~= Seq::<char>::empty());
            }
            return sub_vec(v, lo, hi);
        }
        if !char_is_quote_or_semi(v[hi - 1]) {
            proof {
                assert(v@.subrange(lo as int, hi as int).last() == v@[hi - 1]);
            }
            return sub_vec(v, lo, hi);
        }
        proof {
            assert(v@.subrange(lo as int, hi as int).last() == v@[hi - 1]);
            assert(v@.subrange(lo as int, hi as int).drop_last() =~= v@.subrange(
                lo as int,
                hi - 1,
            ));
        }
        hi = hi - 1;
    }
}

// ---------------------------------------------------------------------------
// Identifier runs
// ---------------------------------------------------------------------------

/// The longest prefix of `s` made of word characters.
pub open spec fn word_run(s: Seq<char>) -> Seq<char>
    decreases s.len(),
{
    if s.len() > 0 && is_word_char(s[0]) {
        seq![s[0]] + word_run(s.drop_first())
    } else {
        Seq::empty()
    }
}

#[verifier::loop_isolation(false)]
pub(crate) fn word_run_from(v: &Vec<char>, start: usize) -> (r: Vec<char>)
    requires
        start <= v@.len(),
    ensures
        r@ == word_run(v@.skip(start as int)),
{
    let n = v.len();
    let mut out: Vec<char> = Vec::new();
    let mut i: usize = start;
    loop
        invariant
            start <= i <= n,
            out@ + word_run(v@.skip(i as int)) == word_run(v@.skip(start as int)),
        decreases n - i,
    {
        if i == n {
            proof {
                assert(v@.skip(i as int) =~= Seq::<char>::empty());
                assert(out@ + word_run(v@.skip(i as int)) =~= out@);
            }
            return out;
        }
        let c = v[i];
        if !char_is_word(c) {
            proof {
                assert(v@.skip(i as int)[0] == v@[i as int]);
                assert(out@ + word_run(v@.skip(i as int)) =~= out@);
            }
            return out;
        }
        proof {
            assert(v@.skip(i as int)[0] == v@[i as int]);
            assert(v@.skip(i as int).drop_first() =~= v@.skip(i as int + 1));
            assert(out@ + (seq![c] + word_run(v@.skip(i as int + 1))) =~= out@.push(c) + word_run(
                v@.skip(i as int + 1),
            ));
        }
        out.push(c);
        i = i + 1;
    }
}

// ---------------------------------------------------------------------------
// Suffix stripping
// ---------------------------------------------------------------------------

/// `suf` removed from the end of `s` as often as it occurs there, as
/// `str::trim_end_matches` does.
pub open spec fn strip_suffix_all(s: Seq<char>, suf: Seq<char>) -> Seq<char>
    decreases s.len(),
{
    if suf.len() > 0 && has_suffix(s, suf) {
        strip_suffix_all(s.take(s.len() - suf.len()), suf)
    } else {
        s
    }
}

#[verifier::loop_isolation(false)]
pub(crate) fn strip_suffix_all_vec(v: Vec<char>, suf: &Vec<char>) -> (r: Vec<char>)
    requires
        suf@.len() > 0,
    ensures
        r@ == strip_suffix_all(v@, suf@),
{
    let mut cur = v;
    loop
        invariant
            strip_suffix_all(cur@, suf@) == strip_suffix_all(v@, suf@),
        decreases cur@.len(),
    {
        if !ends_with_pat(&cur, suf) {
            return cur;
        }
        let new_len = cur.len() - suf.len();
        let shorter = sub_vec(&cur, 0, new_len);
        proof {
            assert(shorter@ =~= cur@.take(cur@.len() - suf@.len()));
        }
        cur = shorter;
    }
}

// ---------------------------------------------------------------------------
// Splitting text into lines
// ---------------------------------------------------------------------------

/// The lines of `s`, split as `str::lines` splits them: at each newline, with
/// a carriage return directly before a newline dropped, and with no empty
/// line after a final line ending.
pub open spec fn lines_of(s: Seq<char>) -> Seq<Seq<char>>
    decreases s.len(),
{
    if s.len() == 0 {
        Seq::empty()
    } else if s[0] == '\n' {
        seq![Seq::<char>::empty()] + lines_of(s.drop_first())
    } else if s[0] == '\r' && s.len() >= 2 && s[1] == '\n' {
        seq![Seq::<char>::empty()] + lines_of(s.skip(2))
    } else {
        let rest = lines_of(s.drop_first());
        if rest.len() == 0 {
            seq![seq![s[0]]]
        } else {
            seq![seq![s[0]] + rest[0]] + rest.drop_first()
        }
    }
}

/// An unfinished first line `cur` put back in front of the lines `ls` of the
/// remaining text.
pub open spec fn prepend_line(cur: Seq<char>, ls: Seq<Seq<char>>) -> Seq<Seq<char>> {
    if ls.len() == 0 {
        if cur.len() == 0 {
            Seq::empty()
        } else {
            seq![cur]
        }
    } else {
        seq![cur + ls[0]] + ls.drop_first()
    }
}

/// The views of a vector of character vectors.
pub open spec fn view_of_lines(ls: Seq<Vec<char>>) -> Seq<Seq<char>> {
    ls.map_values(|l: Vec<char>| l@)
}

/// The views of a vector of strings.
pub open spec fn view_of_strings(ss: Seq<String>) -> Seq<Seq<char>> {
    ss.map_values(|s: String| s@)
}

pub proof fn lemma_prepend_empty(ls: Seq<Seq<char>>)
    ensures
        prepend_line(Seq::<char>::empty(), ls) == ls,
{
    if ls.len() == 0 {
        assert(prepend_line(Seq::<char>::empty(), ls) =~~= ls);
    } else {
        assert(prepend_line(Seq::<char>::empty(), ls) =~~= ls);
    }
}

#[verifier::loop_isolation(false)]
pub(crate) fn split_lines(v: &Vec<char>) -> (r: Vec<Vec<char>>)
    ensures
        view_of_lines(r@) == lines_of(v@),
{
    let n = v.len();
    let mut r: Vec<Vec<char>> = Vec::new();
    let mut cur: Vec<char> = Vec::new();
    let mut i: usize = 0;
    proof {
        assert(v@.skip(0) =~= v@);
        lemma_prepend_empty(lines_of(v@));
        assert(view_of_lines(r@) =~~= Seq::<Seq<char>>::empty());
    }
    loop
        invariant
            i <= n,
            lines_of(v@) == view_of_lines(r@) + prepend_line(cur@, lines_of(v@.skip(i as int))),
        decreases n - i,
    {
        if i == n {
            proof {
                assert(v@.skip(n as int) =~= Seq::<char>::empty());
            }
            if cur.len() > 0 {
                let ghost r_v = r@;
                let ghost cur_v = cur@;
                r.push(cur);
                proof {
                    assert(view_of_lines(r_v.push(cur)) =~~= view_of_lines(r_v).push(cur_v));
                    assert(view_of_lines(r_v) + prepend_line(cur_v, lines_of(v@.skip(i as int)))
                        =~~= view_of_lines(r_v).push(cur_v));
                }
                return r;
            } else {
                proof {
                    assert(view_of_lines(r@) + prepend_line(cur@, lines_of(v@.skip(i as int)))
                        =~~= view_of_lines(r@));
                }
                return r;
            }
        }
        let c = v[i];
        if c == '\n' {
            let ghost r_v = r@;
            let ghost cur_v = cur@;
            proof {
                let s_i = v@.skip(i as int);
                assert(s_i[0] == c);
                assert(s_i.drop_first() =~= v@.skip(i as int + 1));
                let l2 = lines_of(v@.skip(i as int + 1));
                assert(lines_of(s_i) == seq![Seq::<char>::empty()] + l2);
                lemma_prepend_empty(l2);
                assert(prepend_line(cur_v, lines_of(s_i)) =~~= seq![cur_v] + l2);
                assert(view_of_lines(r_v.push(cur)) =~~= view_of_lines(r_v).push(cur_v));
                assert(view_of_lines(r_v).push(cur_v) + prepend_line(
                    Seq::<char>::empty(),
                    l2,
                ) =~~= view_of_lines(r_v) + (seq![cur_v] + l2));
            }
            r.push(cur);
            cur = Vec::new();
            i = i + 1;
        } else if c == '\r' && i + 1 < n && v[i + 1] == '\n' {
            let ghost r_v = r@;
            let ghost cur_v = cur@;
            proof {
                let s_i = v@.skip(i as int);
                assert(s_i[0] == c);
                assert(s_i.len() >= 2 && s_i[1] == v@[i as int + 1]);
                assert(s_i.skip(2) =~= v@.skip(i as int + 2));
                let l2 = lines_of(v@.skip(i as int + 2));
                assert(lines_of(s_i) == seq![Seq::<char>::empty()] + l2);
                lemma_prepend_empty(l2);
                assert(prepend_line(cur_v, lines_of(s_i)) =~~= seq![cur_v] + l2);
                assert(view_of_lines(r_v.push(cur)) =~~= view_of_lines(r_v).push(cur_v));
                assert(view_of_lines(r_v).push(cur_v) + prepend_line(
                    Seq::<char>::empty(),
                    l2,
                ) =~~= view_of_lines(r_v) + (seq![cur_v] + l2));
            }
            r.push(cur);
            cur = Vec::new();
            i = i + 2;
        } else {
            proof {
                let s_i = v@.skip(i as int);
                assert(s_i[0] == c);
                if c == '\r' && i + 1 < n {
                    assert(s_i[1] == v@[i as int + 1]);
                }
                assert(s_i.drop_first() =~= v@.skip(i as int + 1));
                let rest = lines_of(v@.skip(i as int + 1));
                if rest.len() == 0 {
                    assert(prepend_line(cur@, lines_of(s_i)) =~~= seq![cur@.push(c)]);
                    assert(prepend_line(cur@.push(c), rest) =~~= seq![cur@.push(c)]);
                } else {
                    assert(prepend_line(cur@, lines_of(s_i)) =~~= seq![cur@.push(c) + rest[0]]
                        + rest.drop_first());
                    assert(prepend_line(cur@.push(c), rest) =~~= seq![cur@.push(c) + rest[0]]
                        + rest.drop_first());
                }
            }
            cur.push(c);
            i = i + 1;
        }
    }
}

} // verus!
