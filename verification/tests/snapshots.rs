use prompt_library::db::initialize_database;
use prompt_library::records::EngineError;
use prompt_library::records::ImportPromptItem;
use prompt_library::records::ImportVersionItem;
use prompt_library::records::SavePromptInput;
use prompt_library::store::PromptStore;

fn save(title: &str, content: &str, tags: &[&str], fav: bool) -> SavePromptInput {
    SavePromptInput {
        id: None,
        title: title.to_string(),
        content: content.to_string(),
        tags: tags.iter().map(|t| t.to_string()).collect(),
        is_favorite: fav,
        change_note: None,
    }
}

fn item(title: &str, content: &str) -> ImportPromptItem {
    ImportPromptItem {
        title: title.to_string(),
        content: content.to_string(),
        tags: None,
        is_favorite: None,
        score_sum: None,
        score_count: None,
        versions: None,
    }
}

#[test]
fn export_then_import_round_trip() {
    let mut s = PromptStore::new();
    let a = s.upsert_at(save("A", "body a", &["x", "y"], true), "2024-01-01").unwrap();
    s.upsert_at(
        SavePromptInput { id: Some(a.id), content: "body a2".to_string(), ..save("A", "", &["x", "y"], true) },
        "2024-01-02",
    )
    .unwrap();
    s.upsert_at(save("B", "body b", &[], false), "2024-01-03").unwrap();
    let snap = s.export_at("2024-02-01");
    assert_eq!(snap.exported_at, "2024-02-01");

    // wipe: a fresh store, then import the snapshot items
    let mut t = PromptStore::new();
    let items: Vec<ImportPromptItem> = snap
        .prompts
        .iter()
        .map(|p| ImportPromptItem {
            title: p.title.clone(),
            content: p.content.clone(),
            tags: Some(p.tags.clone()),
            is_favorite: Some(p.is_favorite),
            score_sum: Some(p.score_sum),
            score_count: Some(p.score_count),
            versions: Some(
                p.versions
                    .iter()
                    .map(|v| ImportVersionItem {
                        content: v.content.clone(),
                        change_note: Some(v.change_note.clone()),
                        created_at: Some(v.created_at.clone()),
                    })
                    .collect(),
            ),
        })
        .collect();
    let imported = t.import_at(items, "2024-03-01").unwrap();
    assert_eq!(imported, 2);

    let mut before: Vec<_> = snap
        .prompts
        .iter()
        .map(|p| (p.title.clone(), p.content.clone(), p.tags.clone(), p.is_favorite))
        .collect();
    before.sort();
    let mut after: Vec<_> = t
        .prompts
        .iter()
        .map(|p| (p.title.clone(), p.content.clone(), p.tags.clone(), p.is_favorite))
        .collect();
    after.sort();
    assert_eq!(before, after);

    // version content sequences survive, per prompt
    for p in &t.prompts {
        let vs = t.list_prompt_versions(p.id);
        let contents: Vec<&str> = vs.iter().map(|v| v.content.as_str()).collect();
        if p.title == "A" {
            assert_eq!(contents, vec!["body a2", "body a"]);
        } else {
            assert_eq!(contents, vec!["body b"]);
        }
    }
}

#[test]
fn export_orders_by_update_recency() {
    let mut s = PromptStore::new();
    s.upsert_at(save("old", "c", &[], false), "2024-01-01").unwrap();
    s.upsert_at(save("new", "c", &[], false), "2024-02-01").unwrap();
    let snap = s.export_at("2024-03-01");
    let titles: Vec<&str> = snap.prompts.iter().map(|p| p.title.as_str()).collect();
    assert_eq!(titles, vec!["new", "old"]);
}

#[test]
fn import_skips_invalid_items_silently() {
    let mut s = PromptStore::new();
    let items = vec![item("bad", "   "), item("good", "content"), item(" ", "content")];
    let imported = s.import_at(items, "t1").unwrap();
    assert_eq!(imported, 1);
    assert_eq!(s.prompts.len(), 1);
    assert_eq!(s.prompts[0].title, "good");
    // the skipped items left no trace
    assert_eq!(s.versions.len(), 1);
}

#[test]
fn import_defaults_and_clamps() {
    let mut s = PromptStore::new();
    let it = ImportPromptItem {
        title: " T ".to_string(),
        content: "body".to_string(),
        tags: Some(vec!["A".to_string(), " a ".to_string()]),
        is_favorite: None,
        score_sum: Some(50),
        score_count: Some(-3),
        versions: Some(vec![
            ImportVersionItem { content: "  ".to_string(), change_note: None, created_at: None },
            ImportVersionItem { content: "v1".to_string(), change_note: None, created_at: None },
        ]),
    };
    let imported = s.import_at(vec![it], "t1").unwrap();
    assert_eq!(imported, 1);
    let p = &s.prompts[0];
    assert_eq!(p.title, "T");
    assert_eq!(p.tags, vec!["A".to_string()]);
    assert!(!p.is_favorite);
    // count clamped to zero forces the sum to zero
    assert_eq!(p.score_count, 0);
    assert_eq!(p.score_sum, 0);
    let vs = s.list_prompt_versions(p.id);
    assert_eq!(vs.len(), 1);
    assert_eq!(vs[0].content, "v1");
    assert_eq!(vs[0].change_note, "imported version");
}

#[test]
fn import_synthesizes_version_when_none_survive() {
    let mut s = PromptStore::new();
    let imported = s.import_at(vec![item("T", "body")], "t1").unwrap();
    assert_eq!(imported, 1);
    let vs = s.list_prompt_versions(s.prompts[0].id);
    assert_eq!(vs.len(), 1);
    assert_eq!(vs[0].content, "body");
    assert_eq!(vs[0].change_note, "imported");
    assert_eq!(vs[0].created_at, "t1");
}

#[test]
fn import_is_atomic_when_ids_run_out() {
    let mut s = PromptStore::new();
    s.next_prompt_id = i64::MAX;
    let items = vec![item("one", "c1"), item("two", "c2")];
    let r = s.import_at(items, "t1");
    assert!(matches!(r, Err(EngineError::Storage)));
    assert!(s.prompts.is_empty());
    assert!(s.versions.is_empty());
    assert_eq!(s.next_prompt_id, i64::MAX);

    // exhaustion on the version counter rolls earlier items back too
    let mut t = PromptStore::new();
    t.next_version_id = i64::MAX;
    let r2 = t.import_at(vec![item("one", "c1")], "t1");
    assert!(matches!(r2, Err(EngineError::Storage)));
    assert!(t.prompts.is_empty());
    assert!(t.versions.is_empty());
}

#[test]
fn schema_bootstrap_is_idempotent() {
    initialize_database(":memory:").unwrap();
    initialize_database(":memory:").unwrap();
}
