//! Line-oriented heuristics over a source file's text: imported module paths,
//! store fields read through `useStore`, and the defined component's name.
//!
//! The heuristics are deliberately local: each physical line is judged on its
//! own, by substring tests, with no tokenization. Their exact behaviour —
//! including the fixed nine-character keyword offset in component-name
//! extraction, sized for `function ` and applied to `const ` matches as well —
//! is part of the observable contract and is pinned down by the spec
//! functions here.

use vstd::prelude::*;

use crate::text::chars_to_string;
use crate::text::contains_sub;
use crate::text::find_pat;
use crate::text::first_sub;
use crate::text::has_prefix;
use crate::text::has_sub_at;
use crate::text::lemma_first_sub_is;
use crate::text::lines_of;
use crate::text::split_lines;
use crate::text::starts_with_pat;
use crate::text::str_chars;
use crate::text::strip_suffix_all;
use crate::text::strip_suffix_all_vec;
use crate::text::sub_vec;
use crate::text::trim_qs;
use crate::text::trim_vec_qs;
use crate::text::trim_vec_ws;
use crate::text::trim_ws;
use crate::text::view_of_lines;
use crate::text::view_of_strings;
use crate::text::word_run;
use crate::text::word_run_from;

verus! {

// ---------------------------------------------------------------------------
// Imports
// ---------------------------------------------------------------------------

/// The import path a line contributes, if any: the line must begin (after
/// trimming) with `import` and contain `from` somewhere; what follows the
/// first `from` is trimmed of whitespace, quotes and semicolons, and an empty
/// remainder is discarded.
pub open spec fn import_of_line(line: Seq<char>) -> Option<Seq<char>> {
    if has_prefix(trim_ws(line), "import"@) && contains_sub(line, "from"@) {
        let t = trim_qs(trim_ws(line.skip(first_sub(line, "from"@) + 4)));
        if t.len() > 0 {
            Some(t)
        } else {
            None
        }
    } else {
        None
    }
}

pub open spec fn imports_of_lines(ls: Seq<Seq<char>>) -> Seq<Seq<char>>
    decreases ls.len(),
{
    if ls.len() == 0 {
        Seq::empty()
    } else {
        match import_of_line(ls[0]) {
            Some(p) => seq![p] + imports_of_lines(ls.drop_first()),
            None => imports_of_lines(ls.drop_first()),
        }
    }
}

/// Every import path in `content`, one entry per qualifying line, duplicates
/// kept, in line order.
pub open spec fn imports_of(content: Seq<char>) -> Seq<Seq<char>> {
    imports_of_lines(lines_of(content))
}

fn import_line(line: &Vec<char>, import_pat: &Vec<char>, from_pat: &Vec<char>) -> (r: Option<
    Vec<char>,
>)
    requires
        import_pat@ == "import"@,
        from_pat@ == "from"@,
    ensures
        match r {
            Some(p) => import_of_line(line@) == Some(p@),
            None => import_of_line(line@) is None,
        },
{
    let trimmed = trim_vec_ws(line);
    if !starts_with_pat(&trimmed, import_pat) {
        return None;
    }
    match find_pat(line, from_pat) {
        None => None,
        Some(p) => {
            proof {
                reveal_strlit("from");
                assert(has_sub_at(line@, "from"@, p as int));
                lemma_first_sub_is(line@, "from"@, p as int);
            }
            let n = line.len();
            let tail = sub_vec(line, p + 4, n);
            proof {
                assert(tail@ =~= line@.skip(p as int + 4));
            }
            let t = trim_vec_qs(&trim_vec_ws(&tail));
            if t.len() > 0 {
                Some(t)
            } else {
                None
            }
        },
    }
}

/// Every import path in `content`, in line order, duplicates kept.
#[verifier::loop_isolation(false)]
pub fn extract_imports(content: &str) -> (r: Vec<String>)
    ensures
        view_of_strings(r@) == imports_of(content@),
{
    let cs = str_chars(content);
    let lines = split_lines(&cs);
    let import_pat = str_chars("import");
    let from_pat = str_chars("from");
    let nl = lines.len();
    let ghost lv = view_of_lines(lines@);
    let mut r: Vec<String> = Vec::new();
    let mut i: usize = 0;
    proof {
        assert(lv.skip(0) =~= lv);
        assert(view_of_strings(r@) =~~= Seq::<Seq<char>>::empty());
        assert(view_of_strings(r@) + imports_of_lines(lv) =~~= imports_of_lines(lv));
    }
    loop
        invariant
            i <= nl,
            imports_of(content@) == view_of_strings(r@) + imports_of_lines(lv.skip(i as int)),
        decreases nl - i,
    {
        if i == nl {
            proof {
                assert(lv.skip(i as int) =~= Seq::<Seq<char>>::empty());
                assert(view_of_strings(r@) + imports_of_lines(lv.skip(i as int)) =~~= view_of_strings(
                    r@,
                ));
            }
            return r;
        }
        let line = &lines[i];
        proof {
            assert(lv.skip(i as int)[0] == lv[i as int]);
            assert(lv[i as int] == lines@[i as int]@);
            assert(lv.skip(i as int).drop_first() =~= lv.skip(i as int + 1));
        }
        match import_line(line, &import_pat, &from_pat) {
            Some(p) => {
                let s = chars_to_string(&p);
                let ghost r_v = r@;
                r.push(s);
                proof {
                    assert(view_of_strings(r_v.push(s)) =~~= view_of_strings(r_v).push(p@));
                    assert(view_of_strings(r_v) + (seq![p@] + imports_of_lines(
                        lv.skip(i as int + 1),
                    )) =~~= view_of_strings(r_v).push(p@) + imports_of_lines(lv.skip(i as int + 1)));
                }
            },
            None => {},
        }
        i = i + 1;
    }
}

// ---------------------------------------------------------------------------
// Store usage
// ---------------------------------------------------------------------------

/// The store field a line references, if any: the line must contain both
/// `useStore` and `state.`; the run of word characters directly after the
/// first `state.` is the field, and an empty run is discarded.
pub open spec fn store_field_of_line(line: Seq<char>) -> Option<Seq<char>> {
    if contains_sub(line, "useStore"@) && contains_sub(line, "state."@) {
        let f = word_run(line.skip(first_sub(line, "state."@) + 6));
        if f.len() > 0 {
            Some(f)
        } else {
            None
        }
    } else {
        None
    }
}

/// The fields contributed by `ls`, in first-seen order, skipping any field
/// already in `seen` or seen earlier in `ls`.
pub open spec fn store_fields_from(ls: Seq<Seq<char>>, seen: Seq<Seq<char>>) -> Seq<Seq<char>>
    decreases ls.len(),
{
    if ls.len() == 0 {
        Seq::empty()
    } else {
        let rest = ls.drop_first();
        match store_field_of_line(ls[0]) {
            Some(f) => if seen.contains(f) {
                store_fields_from(rest, seen)
            } else {
                seq![f] + store_fields_from(rest, seen.push(f))
            },
            None => store_fields_from(rest, seen),
        }
    }
}

/// Every store field referenced in `content`, deduplicated, in first-seen
/// line order.
pub open spec fn store_usage_of(content: Seq<char>) -> Seq<Seq<char>> {
    store_fields_from(lines_of(content), Seq::empty())
}

fn store_field_line(line: &Vec<char>, use_pat: &Vec<char>, state_pat: &Vec<char>) -> (r: Option<
    Vec<char>,
>)
    requires
        use_pat@ == "useStore"@,
        state_pat@ == "state."@,
    ensures
        match r {
            Some(f) => store_field_of_line(line@) == Some(f@),
            None => store_field_of_line(line@) is None,
        },
{
    let has_use = match find_pat(line, use_pat) {
        Some(_) => true,
        None => false,
    };
    if !has_use {
        return None;
    }
    match find_pat(line, state_pat) {
        None => None,
        Some(p) => {
            proof {
                reveal_strlit("state.");
                assert(has_sub_at(line@, "state."@, p as int));
                lemma_first_sub_is(line@, "state."@, p as int);
            }
            let n = line.len();
            proof {
                assert(p + 6 <= n);
            }
            let f = word_run_from(line, p + 6);
            if f.len() > 0 {
                Some(f)
            } else {
                None
            }
        },
    }
}

fn contains_string(v: &Vec<String>, s: &String) -> (r: bool)
    ensures
        r == view_of_strings(v@).contains(s@),
{
    let n = v.len();
    let mut i: usize = 0;
    loop
        invariant
            i <= n,
            n == v@.len(),
            forall|j: int| 0 <= j < i ==> view_of_strings(v@)[j] != s@,
        decreases n - i,
    {
        if i == n {
            proof {
                assert(!view_of_strings(v@).contains(s@));
            }
            return false;
        }
        if v[i].eq(s) {
            proof {
                assert(view_of_strings(v@)[i as int] == s@);
            }
            return true;
        }
        i = i + 1;
    }
}

/// Every store field referenced in `content`, without duplicates, in
/// first-seen order.
#[verifier::loop_isolation(false)]
pub fn extract_store_usage(content: &str) -> (r: Vec<String>)
    ensures
        view_of_strings(r@) == store_usage_of(content@),
{
    let cs = str_chars(content);
    let lines = split_lines(&cs);
    let use_pat = str_chars("useStore");
    let state_pat = str_chars("state.");
    let nl = lines.len();
    let ghost lv = view_of_lines(lines@);
    let mut r: Vec<String> = Vec::new();
    let mut i: usize = 0;
    proof {
        assert(lv.skip(0) =~= lv);
        assert(view_of_strings(r@) =~~= Seq::<Seq<char>>::empty());
        assert(view_of_strings(r@) + store_fields_from(lv, view_of_strings(r@))
            =~~= store_fields_from(lv, Seq::empty()));
    }
    loop
        invariant
            i <= nl,
            store_usage_of(content@) == view_of_strings(r@) + store_fields_from(
                lv.skip(i as int),
                view_of_strings(r@),
            ),
        decreases nl - i,
    {
        if i == nl {
            proof {
                assert(lv.skip(i as int) =~= Seq::<Seq<char>>::empty());
                assert(view_of_strings(r@) + store_fields_from(
                    lv.skip(i as int),
                    view_of_strings(r@),
                ) =~~= view_of_strings(r@));
            }
            return r;
        }
        let line = &lines[i];
        proof {
            assert(lv.skip(i as int)[0] == lv[i as int]);
            assert(lv[i as int] == lines@[i as int]@);
            assert(lv.skip(i as int).drop_first() =~= lv.skip(i as int + 1));
        }
        match store_field_line(line, &use_pat, &state_pat) {
            Some(f) => {
                let s = chars_to_string(&f);
                if !contains_string(&r, &s) {
                    let ghost r_v = r@;
                    r.push(s);
                    proof {
                        assert(view_of_strings(r_v.push(s)) =~~= view_of_strings(r_v).push(f@));
                        assert(view_of_strings(r_v) + (seq![f@] + store_fields_from(
                            lv.skip(i as int + 1),
                            view_of_strings(r_v).push(f@),
                        )) =~~= view_of_strings(r_v).push(f@) + store_fields_from(
                            lv.skip(i as int + 1),
                            view_of_strings(r_v).push(f@),
                        ));
                    }
                }
            },
            None => {},
        }
        i = i + 1;
    }
}

/// A line contributes an import only when its whitespace-trimmed text begins
/// with `import` and the line contains `from`; a line failing either test
/// contributes nothing, whatever else it holds.
pub proof fn lemma_import_line_gate(line: Seq<char>)
    ensures
        import_of_line(line) is Some ==> has_prefix(trim_ws(line), "import"@) && contains_sub(
            line,
            "from"@,
        ),
        !has_prefix(trim_ws(line), "import"@) ==> import_of_line(line) is None,
        !contains_sub(line, "from"@) ==> import_of_line(line) is None,
{
}

proof fn lemma_store_fields_distinct(ls: Seq<Seq<char>>, seen: Seq<Seq<char>>)
    ensures
        forall|k: int|
            0 <= k < store_fields_from(ls, seen).len() ==> !seen.contains(
                #[trigger] store_fields_from(ls, seen)[k],
            ),
        forall|i: int, j: int|
            0 <= i < j < store_fields_from(ls, seen).len() ==> store_fields_from(ls, seen)[i]
                != store_fields_from(ls, seen)[j],
    decreases ls.len(),
{
    if ls.len() == 0 {
    } else {
        let rest = ls.drop_first();
        match store_field_of_line(ls[0]) {
            Some(f) => {
                if seen.contains(f) {
                    lemma_store_fields_distinct(rest, seen);
                    assert(store_fields_from(ls, seen) == store_fields_from(rest, seen));
                } else {
                    lemma_store_fields_distinct(rest, seen.push(f));
                    let out = store_fields_from(ls, seen);
                    let tail = store_fields_from(rest, seen.push(f));
                    assert(out == seq![f] + tail);
                    assert(seen.push(f)[seen.len() as int] == f);
                    assert(seen.push(f).contains(f));
                    assert forall|m: int| 0 <= m < tail.len() implies !seen.contains(tail[m])
                        && tail[m] != f by {
                        if seen.contains(tail[m]) {
                            let idx = choose|idx: int|
                                0 <= idx < seen.len() && seen[idx] == tail[m];
                            assert(seen.push(f)[idx] == tail[m]);
                            assert(seen.push(f).contains(tail[m]));
                        }
                    }
                    assert forall|k: int| 0 <= k < out.len() implies !seen.contains(out[k]) by {
                        if k > 0 {
                            assert(out[k] == tail[k - 1]);
                        }
                    }
                    assert forall|i: int, j: int| 0 <= i < j < out.len() implies out[i]
                        != out[j] by {
                        if i == 0 {
                            assert(out[j] == tail[j - 1]);
                        } else {
                            assert(out[i] == tail[i - 1]);
                            assert(out[j] == tail[j - 1]);
                        }
                    }
                }
            },
            None => {
                lemma_store_fields_distinct(rest, seen);
                assert(store_fields_from(ls, seen) == store_fields_from(rest, seen));
            },
        }
    }
}

/// The store fields extracted from a file never repeat: a field referenced on
/// several lines appears once, at its first occurrence.
pub proof fn lemma_store_usage_distinct(content: Seq<char>)
    ensures
        forall|i: int, j: int|
            0 <= i < j < store_usage_of(content).len() ==> store_usage_of(content)[i]
                != store_usage_of(content)[j],
{
    lemma_store_fields_distinct(lines_of(content), Seq::empty());
}

// ---------------------------------------------------------------------------
// Component name
// ---------------------------------------------------------------------------

/// A line that may declare a component: it contains `export function` or
/// `export const`.
pub open spec fn is_component_line(line: Seq<char>) -> bool {
    contains_sub(line, "export function"@) || contains_sub(line, "export const"@)
}

/// The run of word characters nine positions past `p`; empty when that
/// position lies beyond the line. Nine is the length of `function ` and is
/// used for `const ` matches too, truncating such names by design.
pub open spec fn keyword_name_at(line: Seq<char>, p: int) -> Seq<char> {
    if p + 9 <= line.len() {
        word_run(line.skip(p + 9))
    } else {
        Seq::empty()
    }
}

/// The name a component line yields: taken after the earliest `function ` if
/// present, else after the earliest `const `, always at the fixed offset of
/// nine characters.
pub open spec fn name_after_keyword(line: Seq<char>) -> Seq<char> {
    if contains_sub(line, "function "@) {
        keyword_name_at(line, first_sub(line, "function "@))
    } else if contains_sub(line, "const "@) {
        keyword_name_at(line, first_sub(line, "const "@))
    } else {
        Seq::empty()
    }
}

pub open spec fn first_component_line(ls: Seq<Seq<char>>) -> Option<Seq<char>>
    decreases ls.len(),
{
    if ls.len() == 0 {
        None
    } else if is_component_line(ls[0]) {
        Some(ls[0])
    } else {
        first_component_line(ls.drop_first())
    }
}

/// The file's base name with the recognized suffixes stripped.
pub open spec fn fallback_name(file_name: Seq<char>) -> Seq<char> {
    strip_suffix_all(strip_suffix_all(file_name, ".tsx"@), ".ts"@)
}

/// The component name of a file: the name yielded by the first component
/// line, or, when there is no such line or its name comes out empty, the file
/// name with the recognized suffixes stripped.
pub open spec fn component_name_of(content: Seq<char>, file_name: Seq<char>) -> Seq<char> {
    match first_component_line(lines_of(content)) {
        Some(line) => {
            let n = name_after_keyword(line);
            if n.len() > 0 {
                n
            } else {
                fallback_name(file_name)
            }
        },
        None => fallback_name(file_name),
    }
}

fn line_keyword_name(line: &Vec<char>, fn_pat: &Vec<char>, const_pat: &Vec<char>) -> (r: Vec<char>)
    requires
        fn_pat@ == "function "@,
        const_pat@ == "const "@,
    ensures
        r@ == name_after_keyword(line@),
{
    let n = line.len();
    match find_pat(line, fn_pat) {
        Some(p) => {
            proof {
                reveal_strlit("function ");
                assert(has_sub_at(line@, "function "@, p as int));
                lemma_first_sub_is(line@, "function "@, p as int);
                assert(p + 9 <= n);
            }
            word_run_from(line, p + 9)
        },
        None => {
            match find_pat(line, const_pat) {
                Some(p) => {
                    proof {
                        reveal_strlit("const ");
                        assert(has_sub_at(line@, "const "@, p as int));
                        lemma_first_sub_is(line@, "const "@, p as int);
                    }
                    if n >= 9 && p <= n - 9 {
                        word_run_from(line, p + 9)
                    } else {
                        proof {
                            assert(p as int + 9 > line@.len());
                        }
                        Vec::new()
                    }
                },
                None => Vec::new(),
            }
        },
    }
}

fn fallback_exec(file_name: &str) -> (r: String)
    ensures
        r@ == fallback_name(file_name@),
{
    let fname = str_chars(file_name);
    let tsx_pat = str_chars(".tsx");
    let ts_pat = str_chars(".ts");
    proof {
        reveal_strlit(".tsx");
        reveal_strlit(".ts");
    }
    let s1 = strip_suffix_all_vec(fname, &tsx_pat);
    let s2 = strip_suffix_all_vec(s1, &ts_pat);
    chars_to_string(&s2)
}

/// The component name of a file, from its text and its base name.
#[verifier::loop_isolation(false)]
pub fn extract_component_name(content: &str, file_name: &str) -> (r: String)
    ensures
        r@ == component_name_of(content@, file_name@),
{
    let cs = str_chars(content);
    let lines = split_lines(&cs);
    let exp_fn_pat = str_chars("export function");
    let exp_const_pat = str_chars("export const");
    let fn_pat = str_chars("function ");
    let const_pat = str_chars("const ");
    let nl = lines.len();
    let ghost lv = view_of_lines(lines@);
    let mut i: usize = 0;
    proof {
        assert(lv.skip(0) =~= lv);
    }
    loop
        invariant
            i <= nl,
            first_component_line(lv) == first_component_line(lv.skip(i as int)),
        decreases nl - i,
    {
        if i == nl {
            proof {
                assert(lv.skip(i as int) =~= Seq::<Seq<char>>::empty());
            }
            return fallback_exec(file_name);
        }
        let line = &lines[i];
        proof {
            assert(lv.skip(i as int)[0] == lv[i as int]);
            assert(lv[i as int] == lines@[i as int]@);
            assert(lv.skip(i as int).drop_first() =~= lv.skip(i as int + 1));
        }
        let r1 = find_pat(line, &exp_fn_pat);
        let r2 = find_pat(line, &exp_const_pat);
        let qualifies = r1.is_some() || r2.is_some();
        proof {
            match r1 {
                Some(p) => {
                    assert(has_sub_at(line@, "export function"@, p as int));
                },
                None => {},
            }
            match r2 {
                Some(p) => {
                    assert(has_sub_at(line@, "export const"@, p as int));
                },
                None => {},
            }
            assert(qualifies == is_component_line(lv[i as int]));
        }
        if qualifies {
            let name = line_keyword_name(line, &fn_pat, &const_pat);
            if name.len() > 0 {
                return chars_to_string(&name);
            }
            return fallback_exec(file_name);
        }
        i = i + 1;
    }
}

} // verus!
