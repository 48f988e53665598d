use statusline::cache::{load_cache, DiffCache};
use statusline::ledger::parse_transcript;
use statusline::net::calculate_net_diff;

fn entry(fields: &[(&str, &str)]) -> String {
    let mut inner = serde_json::Map::new();
    for (k, v) in fields {
        inner.insert(k.to_string(), serde_json::Value::String(v.to_string()));
    }
    let mut outer = serde_json::Map::new();
    outer.insert("toolUseResult".to_string(), serde_json::Value::Object(inner));
    serde_json::to_string(&serde_json::Value::Object(outer)).unwrap()
}

fn write_entry(file_path: &str, original: &str, content: &str) -> String {
    entry(&[("filePath", file_path), ("originalFile", original), ("content", content)])
}

fn edit_entry(file_path: &str, old_str: &str, new_str: &str) -> String {
    entry(&[("filePath", file_path), ("oldString", old_str), ("newString", new_str)])
}

/// Totals of a log, with `existing` naming the files that exist now.
fn run(lines: &[String], existing: &[&str]) -> (usize, usize) {
    let lines: Vec<String> = lines.to_vec();
    let ledger = parse_transcript(&lines);
    let present: Vec<bool> =
        ledger.paths().iter().map(|p| existing.contains(&p.as_str())).collect();
    let r = calculate_net_diff(&ledger, &present, 0);
    (r.added, r.removed)
}

#[test]
fn test_write_new_file() {
    let f = "/w/test_write_new.txt";
    let content = "line1\nline2\nline3\nline4\nline5\n";
    let (added, removed) = run(&[write_entry(f, "", content)], &[f]);
    assert_eq!(added, 5, "Should add 5 lines");
    assert_eq!(removed, 0, "Should remove 0 lines");
}

#[test]
fn test_edit_adds_lines() {
    let f = "/w/test_edit_add.txt";
    let (added, removed) =
        run(&[edit_entry(f, "line2\n", "line2\nline3\nline4\nline5\n")], &[f]);
    assert_eq!(added, 3, "Should add 3 lines");
    assert_eq!(removed, 0, "Should remove 0 lines");
}

#[test]
fn test_edit_removes_lines() {
    let f = "/w/test_edit_remove.txt";
    let (added, removed) = run(&[edit_entry(f, "line1\nline2\nline3\n", "line1\n")], &[f]);
    assert_eq!(added, 0, "Should add 0 lines");
    assert_eq!(removed, 2, "Should remove 2 lines");
}

#[test]
fn test_write_then_delete_is_zero() {
    let f = "/w/test_write_delete.txt";
    let (added, removed) = run(&[write_entry(f, "", "line1\nline2\nline3\n")], &[]);
    assert_eq!(added, 0, "Should add 0 lines (file deleted)");
    assert_eq!(removed, 0, "Should remove 0 lines (file deleted)");
}

#[test]
fn test_multiple_writes_same_file() {
    let f = "/w/test_multi_write.txt";
    let final_content = "a\nb\nc\nd\ne\n";
    let (added, removed) = run(
        &[
            write_entry(f, "", "a\nb\n"),
            write_entry(f, "a\nb\n", "a\nb\nc\n"),
            write_entry(f, "a\nb\nc\n", final_content),
        ],
        &[f],
    );
    assert_eq!(added, 5, "Should add 5 lines total");
    assert_eq!(removed, 0, "Should remove 0 lines");
}

#[test]
fn test_write_and_edit_combined() {
    let f = "/w/test_write_edit.txt";
    let (added, removed) =
        run(&[write_entry(f, "", "a\nb\nc\n"), edit_entry(f, "c\n", "c\nd\ne\n")], &[f]);
    assert_eq!(added, 5, "Should add 5 lines total");
    assert_eq!(removed, 0, "Should remove 0 lines");
}

#[test]
fn test_multi_session_interference() {
    let f = "/w/test_multi_session.txt";
    let (added, removed) = run(
        &[
            write_entry(f, "", "line1\nline2\nline3\nline4\nline5\n"),
            edit_entry(f, "other5\n", "other5\nedit1\nedit2\nedit3\nedit4\nedit5\n"),
        ],
        &[f],
    );
    assert_eq!(added, 10, "Should add 10 lines (only our changes)");
    assert_eq!(removed, 0, "Should remove 0 lines");
}

#[test]
fn test_other_session_deletes_we_write_again() {
    let f = "/w/test_delete_rewrite.txt";
    let final_content = "new1\nnew2\nnew3\n";
    let (added, removed) = run(
        &[write_entry(f, "", "old1\nold2\nold3\nold4\nold5\n"), write_entry(f, "", final_content)],
        &[f],
    );
    assert_eq!(added, 3, "Should add 3 lines (last write content)");
    assert_eq!(removed, 0, "Should remove 0 lines");
}

#[test]
fn test_edit_replaces_lines_same_count() {
    let f = "/w/test_edit_replace.txt";
    let (added, removed) =
        run(&[edit_entry(f, "old1\nold2\nold3\n", "new1\nnew2\nnew3\n")], &[f]);
    assert_eq!(added, 3, "Should add 3 lines");
    assert_eq!(removed, 3, "Should remove 3 lines");
}

#[test]
fn test_edit_existing_file_not_created_by_us() {
    let f = "/w/test_edit_existing.txt";
    let (added, removed) = run(
        &[edit_entry(
            f,
            "pre-existing content\n",
            "pre-existing content\nadded line1\nadded line2\n",
        )],
        &[f],
    );
    assert_eq!(added, 2, "Should add 2 lines");
    assert_eq!(removed, 0, "Should remove 0 lines");
}

#[test]
fn edit_on_written_content_moves_by_fragment_delta() {
    let f = "/w/replace_in_written.txt";
    let (added, removed) = run(
        &[
            write_entry(f, "", "a\nold1\nold2\nold3\nz\n"),
            edit_entry(f, "old1\nold2\nold3\n", "new1\nnew2\nnew3\n"),
        ],
        &[f],
    );
    assert_eq!((added, removed), (5, 0));
    let g = "/w/replace_in_existing.txt";
    let (added, removed) = run(
        &[
            write_entry(g, "a\nold1\nold2\nold3\nz\n", "a\nold1\nold2\nold3\nz\n"),
            edit_entry(g, "old1\nold2\nold3\n", "new1\nnew2\nnew3\n"),
        ],
        &[g],
    );
    assert_eq!((added, removed), (3, 3));
}

#[test]
fn deleted_file_counts_nothing_among_others() {
    let gone = "/w/gone.txt";
    let kept = "/w/kept.txt";
    let (added, removed) = run(
        &[write_entry(gone, "", "1\n2\n3\n4\n"), write_entry(kept, "x\n", "y\n")],
        &[kept],
    );
    assert_eq!((added, removed), (1, 1));
}

#[test]
fn chain_edits_extend_their_entry() {
    let f = "/w/chained.txt";
    let (added, removed) = run(
        &[edit_entry(f, "a\n", "a\nb\n"), edit_entry(f, "b\n", "b\nc\n")],
        &[f],
    );
    assert_eq!((added, removed), (2, 0));
}

#[test]
fn unrelated_and_malformed_lines_are_skipped() {
    let f = "/w/skip.txt";
    let lines = vec![
        "not json".to_string(),
        "{\"type\":\"user\"}".to_string(),
        "{\"toolUseResult\":{\"filePath\":\"/w/skip.txt\",\"content\":7}}".to_string(),
        "{\"toolUseResult\":{\"filePath\":\"/w/skip.txt\",\"oldString\":\"a\"}}".to_string(),
        write_entry(f, "", "one\ntwo\n"),
    ];
    assert_eq!(run(&lines, &[f]), (2, 0));
}

#[test]
fn write_without_original_reads_as_empty() {
    let f = "/w/no_original.txt";
    let lines = vec![entry(&[("filePath", f), ("content", "p\nq\nr")])];
    assert_eq!(run(&lines, &[f]), (3, 0));
}

#[test]
fn cache_hit_matches_full_computation() {
    let f = "/w/cached.txt";
    let lines = vec![write_entry(f, "", "1\n2\n3\n")];
    let ledger = parse_transcript(&lines);
    let present = vec![true];
    let first = calculate_net_diff(&ledger, &present, 42);
    assert_eq!(first.files, vec![f.to_string()]);
    assert_eq!(first.byte_offset, 42);
    let exist = vec![true];
    let hit = load_cache(first.clone(), &exist, Some("{\"type\":\"assistant\"}\n".to_string()));
    let hit = hit.expect("cache should hold");
    let again = calculate_net_diff(&ledger, &present, 42);
    assert_eq!((hit.added, hit.removed), (again.added, again.removed));
    assert_eq!((hit.added, hit.removed), (3, 0));
}

#[test]
fn cache_misses() {
    let cache = DiffCache { byte_offset: 10, added: 4, removed: 1, files: vec!["/w/a".to_string()] };
    assert!(load_cache(cache.clone(), &vec![false], Some(String::new())).is_none());
    assert!(load_cache(cache.clone(), &vec![true], None).is_none());
    let appended = write_entry("/w/a", "", "x\n");
    assert!(load_cache(cache.clone(), &vec![true], Some(appended)).is_none());
    let ok = load_cache(cache, &vec![true], Some(String::new())).unwrap();
    assert_eq!((ok.added, ok.removed, ok.byte_offset), (4, 1, 10));
}
