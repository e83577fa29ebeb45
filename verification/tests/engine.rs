use prompt_library::records::EngineError;
use prompt_library::records::LogUsageInput;
use prompt_library::records::SavePromptInput;
use prompt_library::store::PromptStore;
use prompt_library::tags::normalize_tags;
use prompt_library::text::str_contains;
use prompt_library::text::trim_str;

fn save(
    id: Option<i64>,
    title: &str,
    content: &str,
    tags: &[&str],
    fav: bool,
    note: Option<&str>,
) -> SavePromptInput {
    SavePromptInput {
        id,
        title: title.to_string(),
        content: content.to_string(),
        tags: tags.iter().map(|t| t.to_string()).collect(),
        is_favorite: fav,
        change_note: note.map(|n| n.to_string()),
    }
}

fn usage(prompt_id: i64, rating: Option<i64>) -> LogUsageInput {
    LogUsageInput {
        prompt_id,
        input_vars: "{\"x\":1}".to_string(),
        output_text: "out".to_string(),
        rating,
    }
}

#[test]
fn normalize_dedupes_case_insensitively() {
    let r = normalize_tags(vec!["A".to_string(), " a ".to_string(), "b".to_string()]);
    assert_eq!(r, vec!["A".to_string(), "b".to_string()]);
}

#[test]
fn normalize_is_idempotent() {
    let once = normalize_tags(vec![
        "  Rust ".to_string(),
        "rust".to_string(),
        "".to_string(),
        "  ".to_string(),
        "AI".to_string(),
        "ai ".to_string(),
    ]);
    let twice = normalize_tags(once.clone());
    assert_eq!(once, twice);
    assert_eq!(once, vec!["Rust".to_string(), "AI".to_string()]);
}

#[test]
fn trim_and_contains_helpers() {
    assert_eq!(trim_str("  hi \t"), "hi");
    assert_eq!(trim_str("   "), "");
    assert!(str_contains("hello world", "lo wo"));
    assert!(!str_contains("hello", "world"));
    assert!(str_contains("anything", ""));
}

#[test]
fn create_with_blank_title_fails_and_writes_nothing() {
    let mut s = PromptStore::new();
    let r = s.upsert_at(save(None, "   ", "content", &[], false, None), "t1");
    assert!(matches!(r, Err(EngineError::Validation)));
    let r2 = s.upsert_at(save(None, "title", " \t ", &[], false, None), "t1");
    assert!(matches!(r2, Err(EngineError::Validation)));
    assert!(s.prompts.is_empty());
    assert!(s.versions.is_empty());
}

#[test]
fn create_appends_initial_version() {
    let mut s = PromptStore::new();
    let p = s
        .upsert_at(save(None, " Title ", "Body", &["x"], true, None), "t1")
        .unwrap();
    assert_eq!(p.title, "Title");
    assert_eq!(p.content, "Body");
    assert_eq!(p.score_count, 0);
    assert_eq!(p.score_sum, 0);
    let vs = s.list_prompt_versions(p.id);
    assert_eq!(vs.len(), 1);
    assert_eq!(vs[0].change_note, "initial version");
    assert_eq!(vs[0].content, "Body");
}

#[test]
fn create_with_note_uses_it() {
    let mut s = PromptStore::new();
    let p = s
        .upsert_at(save(None, "T", "B", &[], false, Some(" first ")), "t1")
        .unwrap();
    let vs = s.list_prompt_versions(p.id);
    assert_eq!(vs[0].change_note, "first");
}

#[test]
fn update_versioning_policy() {
    let mut s = PromptStore::new();
    let p = s
        .upsert_at(save(None, "T", "one", &[], false, None), "t1")
        .unwrap();
    // changed content, no note: exactly one new version with the default note
    let p2 = s
        .upsert_at(save(Some(p.id), "T", "two", &[], false, None), "t2")
        .unwrap();
    let vs = s.list_prompt_versions(p2.id);
    assert_eq!(vs.len(), 2);
    assert_eq!(vs[0].change_note, "content updated");
    assert_eq!(vs[0].content, "two");
    // identical content, no note: no new version
    let _ = s
        .upsert_at(save(Some(p.id), "T2", "two", &[], true, None), "t3")
        .unwrap();
    assert_eq!(s.list_prompt_versions(p.id).len(), 2);
    // identical content, non-blank note: one new version with that note
    let _ = s
        .upsert_at(save(Some(p.id), "T2", "two", &[], true, Some("checkpoint")), "t4")
        .unwrap();
    let vs3 = s.list_prompt_versions(p.id);
    assert_eq!(vs3.len(), 3);
    assert_eq!(vs3[0].change_note, "checkpoint");
}

#[test]
fn update_missing_prompt_is_not_found() {
    let mut s = PromptStore::new();
    let r = s.upsert_at(save(Some(7), "T", "B", &[], false, None), "t1");
    assert!(matches!(r, Err(EngineError::NotFound)));
}

#[test]
fn scoring_four_then_two_averages_three() {
    let mut s = PromptStore::new();
    let p = s
        .upsert_at(save(None, "T", "B", &[], false, None), "t1")
        .unwrap();
    s.log_usage_at(usage(p.id, Some(4)), "t2").unwrap();
    s.log_usage_at(usage(p.id, Some(2)), "t3").unwrap();
    let q = s.get_prompt(p.id).unwrap();
    assert_eq!(q.score_count, 2);
    assert_eq!(q.score_sum, 6);
    let avg = q.score_sum as f64 / q.score_count as f64;
    assert_eq!(avg, 3.0);
}

#[test]
fn rating_out_of_range_fails() {
    let mut s = PromptStore::new();
    let p = s
        .upsert_at(save(None, "T", "B", &[], false, None), "t1")
        .unwrap();
    assert!(matches!(
        s.log_usage_at(usage(p.id, Some(0)), "t2"),
        Err(EngineError::Validation)
    ));
    assert!(matches!(
        s.log_usage_at(usage(p.id, Some(6)), "t2"),
        Err(EngineError::Validation)
    ));
    assert!(s.logs.is_empty());
}

#[test]
fn rating_omitted_never_touches_score() {
    let mut s = PromptStore::new();
    let p = s
        .upsert_at(save(None, "T", "B", &[], false, None), "t1")
        .unwrap();
    s.log_usage_at(usage(p.id, None), "t2").unwrap();
    s.log_usage_at(usage(p.id, None), "t3").unwrap();
    let q = s.get_prompt(p.id).unwrap();
    assert_eq!(q.score_count, 0);
    assert_eq!(q.score_sum, 0);
    assert_eq!(s.logs.len(), 2);
}

#[test]
fn rating_missing_prompt_is_not_found() {
    let mut s = PromptStore::new();
    let r = s.log_usage_at(usage(42, Some(3)), "t1");
    assert!(matches!(r, Err(EngineError::NotFound)));
    assert!(s.logs.is_empty());
}

#[test]
fn delete_cascades_and_is_idempotent() {
    let mut s = PromptStore::new();
    let a = s
        .upsert_at(save(None, "A", "a", &[], false, None), "t1")
        .unwrap();
    let b = s
        .upsert_at(save(None, "B", "b", &[], false, None), "t2")
        .unwrap();
    s.log_usage_at(usage(a.id, Some(5)), "t3").unwrap();
    s.log_usage_at(usage(b.id, None), "t4").unwrap();
    s.delete_prompt(a.id);
    assert!(s.get_prompt(a.id).is_none());
    assert!(s.list_prompt_versions(a.id).is_empty());
    assert!(s.logs.iter().all(|l| l.prompt_id != a.id));
    assert!(s.get_prompt(b.id).is_some());
    assert_eq!(s.list_prompt_versions(b.id).len(), 1);
    // deleting an absent id is a quiet no-op
    s.delete_prompt(a.id);
    s.delete_prompt(9999);
    assert!(s.get_prompt(b.id).is_some());
}

#[test]
fn version_listing_is_newest_first_with_id_tiebreak() {
    let mut s = PromptStore::new();
    let p = s
        .upsert_at(save(None, "T", "v1", &[], false, None), "2024-01-01")
        .unwrap();
    let _ = s
        .upsert_at(save(Some(p.id), "T", "v2", &[], false, None), "2024-01-03")
        .unwrap();
    let _ = s
        .upsert_at(save(Some(p.id), "T", "v3", &[], false, None), "2024-01-02")
        .unwrap();
    // same timestamp as the second: id breaks the tie, higher id first
    let _ = s
        .upsert_at(save(Some(p.id), "T", "v4", &[], false, None), "2024-01-03")
        .unwrap();
    let vs = s.list_prompt_versions(p.id);
    let contents: Vec<&str> = vs.iter().map(|v| v.content.as_str()).collect();
    assert_eq!(contents, vec!["v4", "v2", "v3", "v1"]);
}

#[test]
fn clocked_operations_run() {
    let mut s = PromptStore::new();
    let p = s
        .upsert_prompt(save(None, "T", "B", &["x"], false, None))
        .unwrap();
    assert!(!p.created_at.is_empty());
    s.log_prompt_usage(usage(p.id, Some(4))).unwrap();
    let q = s.get_prompt(p.id).unwrap();
    assert_eq!(q.score_sum, 4);
    let snap = s.export_prompts();
    assert_eq!(snap.prompts.len(), 1);
}
