use depscan::scanner::extract_component_name;
use depscan::scanner::extract_imports;
use depscan::scanner::extract_store_usage;

#[test]
fn imports_single_quoted_path() {
    let r = extract_imports("import { a, b } from 'pkg/path';");
    assert_eq!(r, vec!["pkg/path".to_string()]);
}

#[test]
fn imports_keep_order_and_duplicates() {
    let text = "import a from 'x';\nimport b from \"y\"\nimport c from 'x';";
    let r = extract_imports(text);
    assert_eq!(
        r,
        vec!["x".to_string(), "y".to_string(), "x".to_string()]
    );
}

#[test]
fn imports_need_an_import_prefix() {
    // Contains `from` but does not start with `import` after trimming.
    assert_eq!(extract_imports("const x = from_something();"), Vec::<String>::new());
    assert_eq!(extract_imports("  let from = 'pkg';"), Vec::<String>::new());
}

#[test]
fn imports_need_from() {
    assert_eq!(extract_imports("import './styles.css';"), Vec::<String>::new());
}

#[test]
fn imports_take_any_from_substring() {
    // `from` inside a longer word still counts: each line is judged by
    // substrings alone.
    let r = extract_imports("import x fromage");
    assert_eq!(r, vec!["age".to_string()]);
}

#[test]
fn imports_drop_empty_paths() {
    assert_eq!(extract_imports("import x from '';"), Vec::<String>::new());
}

#[test]
fn imports_split_carriage_return_lines() {
    let r = extract_imports("import a from 'x';\r\nimport b from 'y';");
    assert_eq!(r, vec!["x".to_string(), "y".to_string()]);
}

#[test]
fn imports_leading_whitespace_is_trimmed() {
    let r = extract_imports("    import { z } from \"deep/mod\";");
    assert_eq!(r, vec!["deep/mod".to_string()]);
}

#[test]
fn store_usage_single_field() {
    let r = extract_store_usage("const v = useStore((state) => state.count);");
    assert_eq!(r, vec!["count".to_string()]);
}

#[test]
fn store_usage_deduplicates_across_lines() {
    let text = "const a = useStore((state) => state.count);\nconst b = useStore((state) => state.count);";
    let r = extract_store_usage(text);
    assert_eq!(r, vec!["count".to_string()]);
}

#[test]
fn store_usage_first_seen_order() {
    let text = "useStore((state) => state.beta);\nuseStore((state) => state.alpha);\nuseStore((state) => state.beta);";
    let r = extract_store_usage(text);
    assert_eq!(r, vec!["beta".to_string(), "alpha".to_string()]);
}

#[test]
fn store_usage_needs_both_markers() {
    assert_eq!(extract_store_usage("state.count alone"), Vec::<String>::new());
    assert_eq!(extract_store_usage("useStore(selector)"), Vec::<String>::new());
}

#[test]
fn store_usage_only_first_occurrence_per_line() {
    let r = extract_store_usage("useStore((state) => state.a + state.b);");
    assert_eq!(r, vec!["a".to_string()]);
}

#[test]
fn store_usage_drops_empty_runs() {
    assert_eq!(
        extract_store_usage("useStore((state) => state.);"),
        Vec::<String>::new()
    );
}

#[test]
fn store_usage_underscores_and_digits() {
    let r = extract_store_usage("useStore((state) => state.item_2x);");
    assert_eq!(r, vec!["item_2x".to_string()]);
}

#[test]
fn component_name_from_export_function() {
    let r = extract_component_name("export function Greeting(props) {", "Greeting.tsx");
    assert_eq!(r, "Greeting");
}

#[test]
fn component_name_falls_back_to_file_name() {
    let r = extract_component_name("const x = 1;", "Widget.tsx");
    assert_eq!(r, "Widget");
}

#[test]
fn component_name_const_offset_truncates() {
    // The fixed nine-character offset is sized for `function `; on a `const `
    // match it lands three characters into what follows the keyword.
    let r = extract_component_name("export const Counter = () => {}", "Counter.tsx");
    assert_eq!(r, "nter");
}

#[test]
fn component_name_const_offset_can_miss_entirely() {
    // Nine characters past the `const ` match is already the ` ` after `Foo`,
    // so the extracted name is empty and the file name decides.
    let r = extract_component_name("export const Foo = () => {}", "Foo.tsx");
    assert_eq!(r, "Foo");
}

#[test]
fn component_name_first_qualifying_line_decides() {
    // Only the first line with an export marker is consulted; an empty
    // extraction there falls back to the file name.
    let text = "export const X = 1\nexport function RealName() {}";
    let r = extract_component_name(text, "f.tsx");
    assert_eq!(r, "f");
}

#[test]
fn component_name_function_keyword_preferred() {
    let r = extract_component_name("export const x = function helper() {}", "x.tsx");
    assert_eq!(r, "helper");
}

#[test]
fn component_name_fallback_strips_suffixes_repeatedly() {
    assert_eq!(extract_component_name("", "App.test.tsx"), "App.test");
    assert_eq!(extract_component_name("", "x.ts.ts"), "x");
    assert_eq!(extract_component_name("", "Plain.ts"), "Plain");
}
