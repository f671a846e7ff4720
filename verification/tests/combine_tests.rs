use combine_files::combine::{combine_reads, render_block, CombineOutcome};

fn entry(path: &str, content: &str) -> (String, Option<String>) {
    (path.to_string(), Some(content.to_string()))
}

#[test]
fn block_has_marker_then_content_then_newline() {
    let block = render_block("a.txt", "hello");
    assert_eq!(block, "\n// ===== FILE: a.txt =====\n\nhello\n");
}

#[test]
fn block_of_empty_content() {
    let block = render_block("empty.txt", "");
    assert_eq!(block, "\n// ===== FILE: empty.txt =====\n\n\n");
}

#[test]
fn three_files_give_three_blocks_in_order() {
    let items = vec![entry("a", "1"), entry("b", "2"), entry("c", "3")];
    match combine_reads(&items) {
        CombineOutcome::Done(out, n) => {
            assert_eq!(n, 3);
            assert_eq!(out.matches("// ===== FILE: ").count(), 3);
            assert_eq!(
                out,
                "\n// ===== FILE: a =====\n\n1\n\
                 \n// ===== FILE: b =====\n\n2\n\
                 \n// ===== FILE: c =====\n\n3\n"
            );
        }
        CombineOutcome::ReadFailure(..) => panic!("all reads succeeded"),
    }
}

#[test]
fn content_round_trips_verbatim() {
    let content = "line one\n  line two\t\nsymbols: =====, // FILE:";
    let block = render_block("notes.md", content);
    let header = "\n// ===== FILE: notes.md =====\n\n";
    assert!(block.starts_with(header));
    assert_eq!(&block[header.len()..block.len() - 1], content);
    assert!(block.ends_with('\n'));
}

#[test]
fn combining_twice_is_byte_identical() {
    let items = vec![entry("x.txt", "alpha"), entry("y.txt", "beta")];
    let first = match combine_reads(&items) {
        CombineOutcome::Done(out, _) => out,
        CombineOutcome::ReadFailure(..) => panic!("all reads succeeded"),
    };
    let second = match combine_reads(&items) {
        CombineOutcome::Done(out, _) => out,
        CombineOutcome::ReadFailure(..) => panic!("all reads succeeded"),
    };
    assert_eq!(first, second);
}

#[test]
fn first_failed_read_aborts_and_keeps_earlier_blocks() {
    let items = vec![
        entry("a.txt", "aaa"),
        ("gone.txt".to_string(), None),
        entry("c.txt", "ccc"),
    ];
    match combine_reads(&items) {
        CombineOutcome::Done(..) => panic!("the second read failed"),
        CombineOutcome::ReadFailure(path, partial) => {
            assert_eq!(path, "gone.txt");
            assert_eq!(partial, "\n// ===== FILE: a.txt =====\n\naaa\n");
        }
    }
}

#[test]
fn no_files_combine_to_an_empty_artifact() {
    match combine_reads(&Vec::new()) {
        CombineOutcome::Done(out, n) => {
            assert_eq!(n, 0);
            assert_eq!(out, "");
        }
        CombineOutcome::ReadFailure(..) => panic!("nothing to read"),
    }
}
