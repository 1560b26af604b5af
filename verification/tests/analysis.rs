use depscan::analysis::analyze;
use depscan::analysis::is_qualifying_file;
use depscan::analysis::scan_file;
use depscan::analysis::FileInput;

fn file(path: &str, name: &str, content: Option<&str>) -> FileInput {
    FileInput {
        path: path.to_string(),
        name: name.to_string(),
        content: content.map(|c| c.to_string()),
    }
}

#[test]
fn qualifying_suffixes() {
    assert!(is_qualifying_file("App.tsx"));
    assert!(is_qualifying_file("util.ts"));
    assert!(!is_qualifying_file("style.css"));
    assert!(!is_qualifying_file("notes.jsx"));
    assert!(!is_qualifying_file("ts"));
}

#[test]
fn missing_directory_is_an_error() {
    let r = analyze(false, "/some/root/src/components", Vec::new());
    match r {
        Ok(_) => panic!("a missing directory must not produce a result"),
        Err(e) => {
            assert_eq!(
                e,
                "src/components directory not found at /some/root/src/components"
            );
        }
    }
}

#[test]
fn empty_directory_is_an_empty_result() {
    let r = analyze(true, "/root", Vec::new()).unwrap();
    assert_eq!(r.total_files, 0);
    assert_eq!(r.dependencies.len(), 0);
}

#[test]
fn unreadable_files_count_but_contribute_nothing() {
    let files = vec![
        file("src/components/A.tsx", "A.tsx", Some("export function A() {}")),
        file("src/components/B.ts", "B.ts", None),
        file("src/components/readme.md", "readme.md", Some("not code")),
        file("src/components/C.tsx", "C.tsx", Some("export function C() {}")),
    ];
    let r = analyze(true, "/root", files).unwrap();
    assert_eq!(r.total_files, 3);
    assert_eq!(r.dependencies.len(), 2);
    assert_eq!(r.dependencies[0].file_path, "src/components/A.tsx");
    assert_eq!(r.dependencies[0].component_name, "A");
    assert_eq!(r.dependencies[1].file_path, "src/components/C.tsx");
    assert_eq!(r.dependencies[1].component_name, "C");
}

#[test]
fn non_qualifying_files_are_ignored_entirely() {
    let files = vec![
        file("src/components/readme.md", "readme.md", Some("import a from 'x';")),
        file("src/components/broken.png", "broken.png", None),
    ];
    let r = analyze(true, "/root", files).unwrap();
    assert_eq!(r.total_files, 0);
    assert_eq!(r.dependencies.len(), 0);
}

#[test]
fn scan_file_runs_all_three_heuristics() {
    let text = "import React from 'react';\nimport { useStore } from '../store';\nexport function Panel() {\n  const n = useStore((state) => state.notes);\n  const m = useStore((state) => state.notes);\n}\n";
    let d = scan_file("src/components/Panel.tsx".to_string(), "Panel.tsx", text);
    assert_eq!(d.file_path, "src/components/Panel.tsx");
    assert_eq!(d.imports, vec!["react".to_string(), "../store".to_string()]);
    assert_eq!(d.store_usage, vec!["notes".to_string()]);
    assert_eq!(d.component_name, "Panel");
}
