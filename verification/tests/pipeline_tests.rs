use combine_files::combine::{combine_reads, CombineOutcome};
use combine_files::pattern::Pattern;
use combine_files::pipeline::{
    apply_selection, concat_candidates, filter_files, plan_run, RunOutcome, SelectionOutcome,
};

fn paths(names: &[&str]) -> Vec<String> {
    names.iter().map(|n| n.to_string()).collect()
}

#[test]
fn candidates_concatenate_in_root_order() {
    let lists = vec![
        paths(&["first/a.txt", "first/b.txt"]),
        paths(&[]),
        paths(&["second/c.txt"]),
    ];
    assert_eq!(
        concat_candidates(&lists),
        paths(&["first/a.txt", "first/b.txt", "second/c.txt"])
    );
}

#[test]
fn txt_pattern_keeps_txt_files_in_order() {
    let candidates = paths(&["a.txt", "b.md", "sub/c.txt"]);
    match plan_run(false, &Some(r"\.txt$".to_string()), candidates) {
        RunOutcome::Combine(files) => {
            assert_eq!(files, paths(&["a.txt", "sub/c.txt"]));
            let items: Vec<(String, Option<String>)> = files
                .into_iter()
                .map(|p| (p.clone(), Some(format!("content of {}", p))))
                .collect();
            match combine_reads(&items) {
                CombineOutcome::Done(out, n) => {
                    assert_eq!(n, 2);
                    assert_eq!(out.matches("// ===== FILE: ").count(), 2);
                    let a = out.find("// ===== FILE: a.txt =====").unwrap();
                    let c = out.find("// ===== FILE: sub/c.txt =====").unwrap();
                    assert!(a < c);
                }
                CombineOutcome::ReadFailure(..) => panic!("all reads succeeded"),
            }
        }
        _ => panic!("two files match, non-interactive: the run combines them"),
    }
}

#[test]
fn invalid_pattern_aborts_the_run() {
    let candidates = paths(&["a.txt", "b.md"]);
    match plan_run(false, &Some("[unclosed".to_string()), candidates) {
        RunOutcome::InvalidPattern(msg) => assert!(!msg.is_empty()),
        _ => panic!("an unclosed class is a configuration error"),
    }
}

#[test]
fn invalid_pattern_fails_to_compile() {
    assert!(Pattern::compile("[unclosed").is_err());
    assert!(Pattern::compile(r"\.txt$").is_ok());
}

#[test]
fn no_candidates_reports_no_files_found() {
    match plan_run(false, &Some(r"\.txt$".to_string()), Vec::new()) {
        RunOutcome::NoFilesFound => {}
        _ => panic!("an empty candidate list ends the run early"),
    }
    match plan_run(true, &None, Vec::new()) {
        RunOutcome::NoFilesFound => {}
        _ => panic!("an empty candidate list ends the run early"),
    }
}

#[test]
fn empty_selection_reports_no_files_selected() {
    let filtered = paths(&["a.txt", "b.txt", "c.txt"]);
    match plan_run(true, &None, filtered.clone()) {
        RunOutcome::AwaitSelection(shown) => assert_eq!(shown, filtered),
        _ => panic!("interactive mode asks the user"),
    }
    match apply_selection(&filtered, &Vec::new()) {
        SelectionOutcome::NoFilesSelected => {}
        _ => panic!("confirming with nothing chosen ends the run early"),
    }
}

#[test]
fn no_match_reports_no_files_matched() {
    match plan_run(false, &Some("xyz".to_string()), paths(&["a.txt", "b.md"])) {
        RunOutcome::NoFilesMatched => {}
        _ => panic!("no path holds xyz"),
    }
}

#[test]
fn neither_mode_is_a_usage_error() {
    match plan_run(false, &None, paths(&["a.txt"])) {
        RunOutcome::UsageError => {}
        _ => panic!("a run needs a pattern or interactive mode"),
    }
}

#[test]
fn selection_maps_indices_to_files_in_order() {
    let filtered = paths(&["a", "b", "c"]);
    match apply_selection(&filtered, &vec![0, 2]) {
        SelectionOutcome::Combine(chosen) => assert_eq!(chosen, paths(&["a", "c"])),
        _ => panic!("two valid indices pick two files"),
    }
}

#[test]
fn out_of_range_index_is_rejected() {
    let filtered = paths(&["a", "b"]);
    match apply_selection(&filtered, &vec![0, 5]) {
        SelectionOutcome::InvalidSelection => {}
        _ => panic!("index 5 lies outside the list"),
    }
}

#[test]
fn filtered_list_is_an_ordered_subset_of_candidates() {
    let candidates = paths(&["z.rs", "a.txt", "m.rs", "q.txt", "b.rs"]);
    let pattern = Pattern::compile(r"\.rs$").unwrap();
    let filtered = filter_files(&candidates, &pattern);
    assert_eq!(filtered, paths(&["z.rs", "m.rs", "b.rs"]));
    let mut cursor = candidates.iter();
    for kept in &filtered {
        assert!(cursor.any(|c| c == kept), "filter must preserve order");
    }
}

#[test]
fn pattern_searches_the_whole_path() {
    let candidates = paths(&["src/lib.rs", "docs/readme.md"]);
    let pattern = Pattern::compile("^src/").unwrap();
    assert_eq!(filter_files(&candidates, &pattern), paths(&["src/lib.rs"]));
}

#[test]
fn identical_runs_plan_identically() {
    let run = || plan_run(false, &Some(r"\.txt$".to_string()), paths(&["a.txt", "b.md"]));
    match (run(), run()) {
        (RunOutcome::Combine(first), RunOutcome::Combine(second)) => {
            assert_eq!(first, second)
        }
        _ => panic!("both runs combine the same file"),
    }
}
