use prompt_library::records::SavePromptInput;
use prompt_library::store::PromptStore;
use prompt_library::tags::encode_tags;

fn save(title: &str, content: &str, tags: &[&str]) -> SavePromptInput {
    SavePromptInput {
        id: None,
        title: title.to_string(),
        content: content.to_string(),
        tags: tags.iter().map(|t| t.to_string()).collect(),
        is_favorite: false,
        change_note: None,
    }
}

fn titles(ps: &[prompt_library::records::Prompt]) -> Vec<&str> {
    ps.iter().map(|p| p.title.as_str()).collect()
}

#[test]
fn tag_filter_is_exact_not_substring() {
    let mut s = PromptStore::new();
    s.upsert_at(save("ml-one", "c", &["ai-ml"]), "t1").unwrap();
    s.upsert_at(save("ai-one", "c", &["ai"]), "t2").unwrap();
    let r = s.list_prompts(None, Some("ai".to_string()), None);
    assert_eq!(titles(&r), vec!["ai-one"]);
    let r2 = s.list_prompts(None, Some(" AI ".to_string()), None);
    assert_eq!(titles(&r2), vec!["ai-one"]);
}

#[test]
fn search_matches_title_content_and_tag_blob() {
    let mut s = PromptStore::new();
    s.upsert_at(save("alpha", "one", &[]), "t1").unwrap();
    s.upsert_at(save("beta", "two alpha three", &[]), "t2").unwrap();
    s.upsert_at(save("gamma", "three", &["alphabet"]), "t3").unwrap();
    let mut r = s.list_prompts(Some("alpha".to_string()), None, None);
    r.sort_by(|a, b| a.title.cmp(&b.title));
    assert_eq!(titles(&r), vec!["alpha", "beta", "gamma"]);
    // blank search is not applied
    let all = s.list_prompts(Some("   ".to_string()), None, None);
    assert_eq!(all.len(), 3);
    // search is a plain case-sensitive substring test
    let none = s.list_prompts(Some("Alpha".to_string()), None, None);
    assert!(none.is_empty());
}

#[test]
fn default_sort_is_updated_desc() {
    let mut s = PromptStore::new();
    s.upsert_at(save("old", "c", &[]), "2024-01-01").unwrap();
    s.upsert_at(save("new", "c", &[]), "2024-03-01").unwrap();
    s.upsert_at(save("mid", "c", &[]), "2024-02-01").unwrap();
    let r = s.list_prompts(None, None, None);
    assert_eq!(titles(&r), vec!["new", "mid", "old"]);
    let r2 = s.list_prompts(None, None, Some("bogus".to_string()));
    assert_eq!(titles(&r2), vec!["new", "mid", "old"]);
}

#[test]
fn created_sort_is_created_desc() {
    let mut s = PromptStore::new();
    let a = s.upsert_at(save("first", "c", &[]), "2024-01-01").unwrap();
    s.upsert_at(save("second", "c", &[]), "2024-02-01").unwrap();
    // updating "first" later does not move it under the created ordering
    s.upsert_at(
        SavePromptInput {
            id: Some(a.id),
            title: "first".to_string(),
            content: "c2".to_string(),
            tags: vec![],
            is_favorite: false,
            change_note: None,
        },
        "2024-03-01",
    )
    .unwrap();
    let r = s.list_prompts(None, None, Some("created".to_string()));
    assert_eq!(titles(&r), vec!["second", "first"]);
}

#[test]
fn score_sort_is_average_desc_then_updated() {
    let mut s = PromptStore::new();
    let a = s.upsert_at(save("low", "c", &[]), "2024-01-01").unwrap();
    let b = s.upsert_at(save("high", "c", &[]), "2024-01-02").unwrap();
    let c = s.upsert_at(save("unrated", "c", &[]), "2024-01-03").unwrap();
    let rate = |s: &mut PromptStore, id: i64, r: i64, t: &str| {
        s.log_usage_at(
            prompt_library::records::LogUsageInput {
                prompt_id: id,
                input_vars: "{}".to_string(),
                output_text: String::new(),
                rating: Some(r),
            },
            t,
        )
        .unwrap();
    };
    rate(&mut s, a.id, 2, "2024-01-04");
    rate(&mut s, b.id, 4, "2024-01-05");
    rate(&mut s, b.id, 5, "2024-01-06");
    let r = s.list_prompts(None, None, Some("score".to_string()));
    // high: 4.5, low: 2, unrated: 0
    assert_eq!(titles(&r), vec!["high", "low", "unrated"]);
    let _ = c;
}

#[test]
fn list_tags_counts_and_orders() {
    let mut s = PromptStore::new();
    s.upsert_at(save("a", "c", &["rust", "ai"]), "t1").unwrap();
    s.upsert_at(save("b", "c", &["ai", "cli"]), "t2").unwrap();
    s.upsert_at(save("c", "c", &["rust"]), "t3").unwrap();
    let tags = s.list_tags();
    let pairs: Vec<(&str, i64)> = tags.iter().map(|t| (t.name.as_str(), t.count)).collect();
    // counts descending, names ascending among equals
    assert_eq!(pairs, vec![("ai", 2), ("rust", 2), ("cli", 1)]);
}

#[test]
fn list_tags_empty_store() {
    let s = PromptStore::new();
    assert!(s.list_tags().is_empty());
}

#[test]
fn encode_tags_renders_blob() {
    let tags = vec!["ai".to_string(), "a\"b".to_string()];
    assert_eq!(encode_tags(&tags), "[\"ai\",\"a\\\"b\"]");
    let empty: Vec<String> = vec![];
    assert_eq!(encode_tags(&empty), "[]");
}
