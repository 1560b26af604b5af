//! Aggregation of per-file scan results into one report.
//!
//! The caller enumerates files (and reads their text) however it likes and
//! hands them over as plain values; file names ending in one of the two
//! recognized suffixes qualify. Every qualifying file is counted, whether or
//! not its text could be read; only readable qualifying files contribute a
//! dependency record, so the count and the record list may differ by exactly
//! the number of unreadable qualifying files.

use vstd::prelude::*;
use vstd::string::StringExecFns;

use crate::scanner::component_name_of;
use crate::scanner::extract_component_name;
use crate::scanner::extract_imports;
use crate::scanner::extract_store_usage;
use crate::scanner::imports_of;
use crate::scanner::store_usage_of;
use crate::text::ends_with_pat;
use crate::text::has_suffix;
use crate::text::str_chars;
use crate::text::view_of_strings;

verus! {

/// What one successfully read file contributes to the report.
pub struct CodeDependency {
    pub file_path: String,
    pub imports: Vec<String>,
    pub store_usage: Vec<String>,
    pub component_name: String,
}

pub ghost struct CodeDependencyView {
    pub file_path: Seq<char>,
    pub imports: Seq<Seq<char>>,
    pub store_usage: Seq<Seq<char>>,
    pub component_name: Seq<char>,
}

impl View for CodeDependency {
    type V = CodeDependencyView;

    open spec fn view(&self) -> CodeDependencyView {
        CodeDependencyView {
            file_path: self.file_path@,
            imports: view_of_strings(self.imports@),
            store_usage: view_of_strings(self.store_usage@),
            component_name: self.component_name@,
        }
    }
}

/// The whole report: one record per readable qualifying file, and the count
/// of all qualifying files.
pub struct AnalysisResult {
    pub dependencies: Vec<CodeDependency>,
    pub total_files: usize,
}

pub ghost struct AnalysisResultView {
    pub dependencies: Seq<CodeDependencyView>,
    pub total_files: int,
}

impl View for AnalysisResult {
    type V = AnalysisResultView;

    open spec fn view(&self) -> AnalysisResultView {
        AnalysisResultView {
            dependencies: view_of_deps(self.dependencies@),
            total_files: self.total_files as int,
        }
    }
}

pub open spec fn view_of_deps(ds: Seq<CodeDependency>) -> Seq<CodeDependencyView> {
    ds.map_values(|d: CodeDependency| d@)
}

/// One file as the caller hands it over: its path, its base name, and its
/// text, absent when the file could not be read.
pub struct FileInput {
    pub path: String,
    pub name: String,
    pub content: Option<String>,
}

/// A file name ending in one of the two recognized suffixes.
pub open spec fn is_qualifying_name(name: Seq<char>) -> bool {
    has_suffix(name, ".tsx"@) || has_suffix(name, ".ts"@)
}

pub open spec fn file_text(f: FileInput) -> Seq<char> {
    match f.content {
        Some(c) => c@,
        None => Seq::empty(),
    }
}

/// The record a readable qualifying file contributes.
pub open spec fn dep_view_of(f: FileInput) -> CodeDependencyView {
    CodeDependencyView {
        file_path: f.path@,
        imports: imports_of(file_text(f)),
        store_usage: store_usage_of(file_text(f)),
        component_name: component_name_of(file_text(f), f.name@),
    }
}

pub open spec fn count_qualifying(fs: Seq<FileInput>) -> int
    decreases fs.len(),
{
    if fs.len() == 0 {
        0
    } else {
        (if is_qualifying_name(fs[0].name@) {
            1int
        } else {
            0int
        }) + count_qualifying(fs.drop_first())
    }
}

pub open spec fn count_unreadable_qualifying(fs: Seq<FileInput>) -> int
    decreases fs.len(),
{
    if fs.len() == 0 {
        0
    } else {
        (if is_qualifying_name(fs[0].name@) && fs[0].content is None {
            1int
        } else {
            0int
        }) + count_unreadable_qualifying(fs.drop_first())
    }
}

pub open spec fn deps_of(fs: Seq<FileInput>) -> Seq<CodeDependencyView>
    decreases fs.len(),
{
    if fs.len() == 0 {
        Seq::empty()
    } else {
        let rest = deps_of(fs.drop_first());
        if is_qualifying_name(fs[0].name@) && fs[0].content is Some {
            seq![dep_view_of(fs[0])] + rest
        } else {
            rest
        }
    }
}

/// The error reported when the component subdirectory is missing.
pub open spec fn missing_components_message(base: Seq<char>) -> Seq<char> {
    "src/components directory not found at "@ + base
}

/// However many qualifying files fail to read, the report stays consistent:
/// the record list is exactly the qualifying count minus the unreadable
/// qualifying count, and so never exceeds the qualifying count.
pub proof fn lemma_dependency_counts(fs: Seq<FileInput>)
    ensures
        0 <= count_unreadable_qualifying(fs),
        deps_of(fs).len() == count_qualifying(fs) - count_unreadable_qualifying(fs),
        deps_of(fs).len() <= count_qualifying(fs),
    decreases fs.len(),
{
    if fs.len() == 0 {
    } else {
        lemma_dependency_counts(fs.drop_first());
    }
}

/// Whether a file name ends in one of the two recognized suffixes.
pub fn is_qualifying_file(name: &str) -> (r: bool)
    ensures
        r == is_qualifying_name(name@),
{
    let chars = str_chars(name);
    let tsx_pat = str_chars(".tsx");
    let ts_pat = str_chars(".ts");
    let a = ends_with_pat(&chars, &tsx_pat);
    let b = ends_with_pat(&chars, &ts_pat);
    a || b
}

/// All three heuristics applied to one file's text.
pub fn scan_file(file_path: String, file_name: &str, content: &str) -> (d: CodeDependency)
    ensures
        d@ == (CodeDependencyView {
            file_path: file_path@,
            imports: imports_of(content@),
            store_usage: store_usage_of(content@),
            component_name: component_name_of(content@, file_name@),
        }),
{
    let imports = extract_imports(content);
    let store_usage = extract_store_usage(content);
    let component_name = extract_component_name(content, file_name);
    CodeDependency { file_path, imports, store_usage, component_name }
}

/// The whole analysis, over files the caller enumerated beneath the component
/// subdirectory. `components_found` says whether that subdirectory exists
/// under `components_path`; when it does not, the analysis fails with a
/// message naming the path and produces no report.
#[verifier::loop_isolation(false)]
pub fn analyze(components_found: bool, components_path: &str, files: Vec<FileInput>) -> (r: Result<
    AnalysisResult,
    String,
>)
    ensures
        match r {
            Ok(res) => components_found && res@.dependencies == deps_of(files@)
                && res@.total_files == count_qualifying(files@),
            Err(e) => !components_found && e@ == missing_components_message(components_path@),
        },
{
    if !components_found {
        let msg = String::from_str("src/components directory not found at ").concat(
            components_path,
        );
        return Err(msg);
    }
    let nf = files.len();
    let mut deps: Vec<CodeDependency> = Vec::new();
    let mut total: usize = 0;
    let mut i: usize = 0;
    proof {
        assert(files@.skip(0) =~= files@);
        assert(view_of_deps(deps@) =~~= Seq::<CodeDependencyView>::empty());
        assert(view_of_deps(deps@) + deps_of(files@) =~~= deps_of(files@));
    }
    loop
        invariant
            i <= nf,
            total <= i,
            count_qualifying(files@) == total + count_qualifying(files@.skip(i as int)),
            deps_of(files@) == view_of_deps(deps@) + deps_of(files@.skip(i as int)),
        decreases nf - i,
    {
        if i == nf {
            proof {
                assert(files@.skip(i as int) =~= Seq::<FileInput>::empty());
                assert(view_of_deps(deps@) + deps_of(files@.skip(i as int)) =~~= view_of_deps(
                    deps@,
                ));
            }
            return Ok(AnalysisResult { dependencies: deps, total_files: total });
        }
        let f = &files[i];
        proof {
            assert(files@.skip(i as int)[0] == files@[i as int]);
            assert(files@.skip(i as int).drop_first() =~= files@.skip(i as int + 1));
        }
        let q = is_qualifying_file(f.name.as_str());
        if q {
            total = total + 1;
            match &f.content {
                Some(c) => {
                    let d = scan_file(f.path.clone(), f.name.as_str(), c.as_str());
                    let ghost deps_v = deps@;
                    proof {
                        assert(dep_view_of(files@[i as int]) == d@);
                    }
                    deps.push(d);
                    proof {
                        assert(view_of_deps(deps_v.push(d)) =~~= view_of_deps(deps_v).push(d@));
                        assert(view_of_deps(deps_v) + (seq![dep_view_of(files@[i as int])]
                            + deps_of(files@.skip(i as int + 1))) =~~= view_of_deps(deps_v).push(
                            d@,
                        ) + deps_of(files@.skip(i as int + 1)));
                    }
                },
                None => {},
            }
        }
        i = i + 1;
    }
}

} // verus!
