use statusline::inventory::{mcp_server_name, Inventory, MAX_SCAN_BYTES};

fn skill_listing(count: u64, initial: bool) -> String {
    format!(
        r#"{{"type":"attachment","attachment":{{"type":"skill_listing","isInitial":{initial},"skillCount":{count},"names":[]}}}}"#
    )
}

fn list(v: &[&str]) -> String {
    serde_json::to_string(v).unwrap()
}

fn tools_delta(added: &[&str], removed: &[&str], pending: &[&str]) -> String {
    format!(
        r#"{{"type":"attachment","attachment":{{"type":"deferred_tools_delta","addedNames":{},"readdedNames":[],"removedNames":{},"pendingMcpServers":{}}}}}"#,
        list(added),
        list(removed),
        list(pending)
    )
}

fn instr_delta(added: &[&str], removed: &[&str]) -> String {
    format!(
        r#"{{"type":"attachment","attachment":{{"type":"mcp_instructions_delta","addedNames":{},"removedNames":{}}}}}"#,
        list(added),
        list(removed)
    )
}

fn usage_line(id: &str, inp: u64, cw: u64, cr: u64, out: u64) -> String {
    format!(
        r#"{{"type":"assistant","message":{{"id":"{id}","role":"assistant","usage":{{"input_tokens":{inp},"cache_creation_input_tokens":{cw},"cache_read_input_tokens":{cr},"output_tokens":{out}}}}}}}"#
    )
}

/// One scan pass over an in-memory transcript, as the caller runs it over
/// the file: read at most `max` bytes from the stored offset.
fn scan(file: &[u8], s: &mut Inventory, max: usize) {
    let len = file.len() as u64;
    if s.begin_pass(len) {
        let start = s.offset as usize;
        let end = (start + max).min(file.len());
        s.apply_pass(len, &file[start..end], max);
    }
}

#[test]
fn latest_full_skill_listing_wins() {
    let mut s = Inventory::default();
    s.apply_line(&skill_listing(65, true));
    s.apply_line(&skill_listing(15, false));
    assert_eq!(s.skill_count, Some(65));
    s.apply_line(&skill_listing(56, true));
    assert_eq!(s.skill_count, Some(56));
}

#[test]
fn mcp_servers_from_tools_instructions_and_pending_dedup() {
    let mut s = Inventory::default();
    s.apply_line(&tools_delta(
        &[
            "mcp__chrome__navigate",
            "mcp__chrome__find",
            "mcp__codex__run",
            "WebSearch",
        ],
        &[],
        &["exa"],
    ));
    s.apply_line(&instr_delta(&["chrome"], &[]));
    assert_eq!(s.mcp_count(), 3, "chrome, codex, exa: {s:?}");
}

#[test]
fn removed_tools_remove_their_server() {
    let mut s = Inventory::default();
    s.apply_line(&tools_delta(
        &["mcp__linear__create", "mcp__linear__list"],
        &[],
        &[],
    ));
    assert_eq!(s.mcp_count(), 1);
    s.apply_line(&tools_delta(&[], &["mcp__linear__create"], &[]));
    assert_eq!(s.mcp_count(), 1, "one tool left, server still loaded");
    s.apply_line(&tools_delta(&[], &["mcp__linear__list"], &[]));
    assert_eq!(s.mcp_count(), 0, "all tools gone, server unloaded");
}

#[test]
fn instruction_removal_unloads_server() {
    let mut s = Inventory::default();
    s.apply_line(&instr_delta(&["metavr"], &[]));
    assert_eq!(s.mcp_count(), 1);
    s.apply_line(&instr_delta(&[], &["metavr"]));
    assert_eq!(s.mcp_count(), 0);
}

#[test]
fn malformed_and_irrelevant_lines_are_skipped() {
    let mut s = Inventory::default();
    s.apply_line("skill_listing but not json");
    s.apply_line(r#"{"type":"user","message":"mentions skill_listing"}"#);
    s.apply_line(r#"{"type":"attachment","attachment":{"type":"hook_success"}}"#);
    assert!(s.is_empty());
}

#[test]
fn usage_accumulates_across_messages() {
    let mut s = Inventory::default();
    s.apply_line(&usage_line("m1", 2, 100, 900, 40));
    s.apply_line(&usage_line("m2", 3, 50, 1000, 60));
    assert_eq!(s.total_tokens, 1042 + 1113);
    assert!(!s.is_empty());
}

#[test]
fn repeated_message_id_counts_once() {
    let mut s = Inventory::default();
    for _ in 0..3 {
        s.apply_line(&usage_line("m1", 2, 100, 900, 40));
    }
    assert_eq!(s.total_tokens, 1042);
    s.apply_line(&usage_line("m2", 0, 0, 0, 8));
    assert_eq!(s.total_tokens, 1050);
}

#[test]
fn first_record_for_an_id_wins() {
    let mut s = Inventory::default();
    s.apply_line(&usage_line("m1", 2, 100, 900, 10));
    s.apply_line(
        r#"{"type":"assistant","message":{"id":"m1","role":"assistant","usage":{"output_tokens":40}}}"#,
    );
    assert_eq!(s.total_tokens, 1012);
}

#[test]
fn record_without_id_is_not_counted() {
    let mut s = Inventory::default();
    s.apply_line(
        r#"{"type":"assistant","message":{"role":"assistant","usage":{"output_tokens":40}}}"#,
    );
    assert_eq!(s.total_tokens, 0, "no id, no dedup, no count");
}

#[test]
fn usage_outside_assistant_records_is_ignored() {
    let mut s = Inventory::default();
    s.apply_line(r#"{"type":"user","message":{"content":"tool output quoting \"usage\""}}"#);
    s.apply_line(r#"{"type":"summary","usage":{"output_tokens":5}}"#);
    s.apply_line(r#"{"role":"assistant","type":"user","message":{"usage":{"output_tokens":9}}}"#);
    assert!(s.is_empty());
}

#[test]
fn oversized_line_is_skipped_and_scan_recovers() {
    let good1 = usage_line("m1", 0, 0, 0, 100);
    let giant = format!("{{\"type\":\"noise\",\"pad\":\"{}\"}}", "x".repeat(4096));
    let good2 = usage_line("m2", 0, 0, 0, 11);
    let file = format!("{good1}\n{giant}\n{good2}\n");
    let cap = 1024;
    let mut s = Inventory::default();
    for _ in 0..12 {
        scan(file.as_bytes(), &mut s, cap);
    }
    assert_eq!(s.total_tokens, 111, "usage on both sides of the giant");
    assert!(s.caught_up, "scan must not wedge on an oversized line");
}

#[test]
fn oversized_relevant_line_marks_the_total_lossy() {
    let good = usage_line("m1", 0, 0, 0, 100);
    let giant = format!(
        "{{\"type\":\"assistant\",\"message\":{{\"id\":\"mx\",\"role\":\"assistant\",\"content\":\"{}\",\"usage\":{{\"output_tokens\":9}}}}}}",
        "x".repeat(4096)
    );
    let file = format!("{good}\n{giant}\n");
    let cap = 1024;
    let mut s = Inventory::default();
    for _ in 0..12 {
        scan(file.as_bytes(), &mut s, cap);
    }
    assert!(s.caught_up);
    assert!(s.lossy, "a dropped relevant record is a lost contribution");
    assert_eq!(s.total_tokens, 100, "the giant's usage is not recoverable");
}

#[test]
fn backlog_is_not_caught_up_until_scanned_to_the_end() {
    let line = usage_line("m1", 0, 0, 0, 7);
    let mut file = String::new();
    for _ in 0..10 {
        file.push_str(&line);
        file.push('\n');
    }
    let mut s = Inventory::default();
    scan(file.as_bytes(), &mut s, line.len() * 2);
    assert!(!s.caught_up, "one pass over a backlog is not the total");
    while !s.caught_up {
        scan(file.as_bytes(), &mut s, line.len() * 2);
    }
    assert_eq!(s.total_tokens, 7, "same id throughout: one contribution");
}

#[test]
fn non_mcp_deferred_tools_are_ignored() {
    let mut s = Inventory::default();
    s.apply_line(&tools_delta(&["WebSearch", "TaskCreate", "Monitor"], &[], &[]));
    assert_eq!(s.mcp_count(), 0);
    assert!(s.is_empty());
}

#[test]
fn incremental_scan_reads_only_the_delta() {
    let mut file = format!("{}\n", skill_listing(10, true));
    let mut s = Inventory::default();
    scan(file.as_bytes(), &mut s, MAX_SCAN_BYTES);
    assert_eq!(s.skill_count, Some(10));
    let first = s.offset;

    file.push_str(&format!("{}\n", skill_listing(12, true)));
    scan(file.as_bytes(), &mut s, MAX_SCAN_BYTES);
    assert_eq!(s.skill_count, Some(12));
    assert!(s.offset > first);

    let stable = s.offset;
    scan(file.as_bytes(), &mut s, MAX_SCAN_BYTES);
    assert_eq!(s.offset, stable, "no growth, no work");
}

#[test]
fn partial_trailing_line_is_not_consumed() {
    let full = skill_listing(7, true);
    let (head, tail) = full.split_at(full.len() / 2);
    let mut file = head.to_string();
    let mut s = Inventory::default();
    scan(file.as_bytes(), &mut s, MAX_SCAN_BYTES);
    assert_eq!(s.skill_count, None);
    assert_eq!(s.offset, 0, "offset must not advance past a partial line");

    file.push_str(&format!("{tail}\n"));
    scan(file.as_bytes(), &mut s, MAX_SCAN_BYTES);
    assert_eq!(s.skill_count, Some(7));
}

#[test]
fn truncated_file_resets_state() {
    let file = format!("{}\n", skill_listing(9, true));
    let mut s = Inventory::default();
    scan(file.as_bytes(), &mut s, MAX_SCAN_BYTES);
    assert_eq!(s.skill_count, Some(9));

    scan(b"{}\n", &mut s, MAX_SCAN_BYTES);
    assert_eq!(s.skill_count, None, "state from the old file must reset");
}

#[test]
fn chunk_cap_makes_progress_across_passes() {
    let line = skill_listing(3, true);
    let mut file = String::new();
    for _ in 0..10 {
        file.push_str(&line);
        file.push('\n');
    }
    let len = file.len() as u64;
    let cap = line.len() * 3;
    let mut s = Inventory::default();
    for _ in 0..10 {
        scan(file.as_bytes(), &mut s, cap);
    }
    assert_eq!(s.offset, len, "must catch up across capped passes");
    assert_eq!(s.skill_count, Some(3));
}

#[test]
fn server_name_extraction() {
    assert_eq!(
        mcp_server_name("mcp__helper-in-chrome__navigate").as_deref(),
        Some("helper-in-chrome")
    );
    assert_eq!(
        mcp_server_name("mcp__helper_ai_Exa__web_search_exa").as_deref(),
        Some("helper_ai_Exa")
    );
    assert_eq!(mcp_server_name("mcp____x"), None);
    assert_eq!(mcp_server_name("Bash"), None);
}

// ---- further cases ------------------------------------------------------

#[test]
fn applying_a_line_twice_changes_nothing() {
    for line in [
        usage_line("m1", 1, 2, 3, 4),
        skill_listing(5, true),
        tools_delta(&["mcp__a__x"], &["mcp__b__y"], &["c"]),
        instr_delta(&["d"], &["c"]),
    ] {
        let mut once = Inventory::default();
        once.apply_line(&tools_delta(&["mcp__b__y"], &[], &[]));
        once.apply_line(&line);
        let mut twice = once.clone();
        twice.apply_line(&line);
        assert_eq!(once, twice, "line: {line}");
    }
}

#[test]
fn invalid_utf8_bytes_do_not_drop_a_line() {
    let mut bytes = format!("{}\n", usage_line("m1", 0, 0, 0, 5)).into_bytes();
    let mut l2 = usage_line("mZ2", 0, 0, 0, 7).into_bytes();
    let z = l2.iter().position(|&b| b == b'Z').unwrap();
    l2[z] = 0xff;
    bytes.extend_from_slice(&l2);
    bytes.push(b'\n');
    let mut s = Inventory::default();
    scan(&bytes, &mut s, MAX_SCAN_BYTES);
    assert_eq!(s.total_tokens, 12);
    assert!(s.caught_up);
    assert_eq!(s.offset, bytes.len() as u64);
    assert!(s.counted_ids.iter().any(|i| i == "m\u{fffd}2"));
}

#[test]
fn caught_up_only_at_the_end_of_the_file() {
    let file = format!("{}\n{}\n", skill_listing(1, true), skill_listing(2, true));
    let mut s = Inventory::default();
    scan(file.as_bytes(), &mut s, file.len() / 2 + 1);
    assert!(!s.caught_up);
    assert!(s.offset < file.len() as u64);
    scan(file.as_bytes(), &mut s, file.len());
    assert!(s.caught_up);
    assert_eq!(s.skill_count, Some(2));
}

#[test]
fn token_total_never_decreases() {
    let mut s = Inventory::default();
    let mut last = 0;
    for line in [
        usage_line("a", 1, 1, 1, 1),
        usage_line("a", 0, 0, 0, 0),
        usage_line("b", 10, 0, 0, 0),
        skill_listing(3, true),
    ] {
        s.apply_line(&line);
        assert!(s.total_tokens >= last);
        last = s.total_tokens;
    }
    assert_eq!(last, 14);
}

#[test]
fn every_counted_id_counts_once() {
    let mut s = Inventory::default();
    s.apply_line(&usage_line("m1", 0, 0, 0, 5));
    s.apply_line(&usage_line("m2", 0, 0, 0, 7));
    s.apply_line(&usage_line("m1", 0, 0, 0, 5));
    assert_eq!(s.total_tokens, 12, "a total over distinct message ids");
}
