//! Export and import of the whole store: a snapshot carries every prompt with
//! its full version history; importing validates each item independently and
//! commits all or nothing.
use vstd::prelude::*;

use crate::records::EngineError;
use crate::records::ExportPayload;
use crate::records::ExportPromptItem;
use crate::records::ExportPromptModel;
use crate::records::ExportVersionItem;
use crate::records::ExportVersionModel;
use crate::records::ImportPromptItem;
use crate::records::ImportPromptModel;
use crate::records::ImportVersionModel;
use crate::records::Prompt;
use crate::records::PromptModel;
use crate::records::PromptVersionRecord;
use crate::records::VersionModel;
use crate::records::clone_string;
use crate::records::clone_tags;
use crate::store::PromptStore;
use crate::store::StoreModel;
use crate::store::has_prompt;
use crate::store::prompt_models;
use crate::store::sorted_versions;
use crate::store::version_models;
use crate::store::wf_prompt;
use crate::store::wf_version;
use crate::query::SortMode;
use crate::query::sorted_prompts;
use crate::tags::normalize_tags;
use crate::tags::spec_normalize;
use crate::text::chars_to_string;
use crate::text::str_chars;
use crate::text::trim_chars;
use crate::text::trim_seq;
use vstd::string::StringExecFns;

verus! {

/// An incoming item is skipped when its title or content trims to nothing.
pub open spec fn item_invalid(it: ImportPromptModel) -> bool {
    trim_seq(it.title).len() == 0 || trim_seq(it.content).len() == 0
}

/// The normalized tag list of an incoming item; absent tags count as none.
pub open spec fn item_tags(it: ImportPromptModel) -> Seq<Seq<char>> {
    spec_normalize(
        match it.tags {
            Some(t) => t,
            None => Seq::empty(),
        },
    )
}

/// The score count of an incoming item, clamped to be non-negative.
pub open spec fn item_count(it: ImportPromptModel) -> i64 {
    let c = match it.score_count {
        Some(c) => c,
        None => 0,
    };
    if c < 0 {
        0
    } else {
        c
    }
}

/// The score sum of an incoming item: forced to zero while the count is zero,
/// otherwise the given sum clamped to be non-negative.
pub open spec fn item_sum(it: ImportPromptModel) -> i64 {
    if item_count(it) == 0 {
        0
    } else {
        let s = match it.score_sum {
            Some(s) => s,
            None => 0,
        };
        if s < 0 {
            0
        } else {
            s
        }
    }
}

/// The favorite flag of an incoming item; absent means not favorite.
pub open spec fn item_fav(it: ImportPromptModel) -> bool {
    match it.is_favorite {
        Some(b) => b,
        None => false,
    }
}

/// The supplied versions whose content is not blank, in order.
pub open spec fn kept_versions(vs: Seq<ImportVersionModel>) -> Seq<ImportVersionModel>
    decreases vs.len(),
{
    if vs.len() == 0 {
        Seq::empty()
    } else {
        let rest = kept_versions(vs.drop_last());
        if trim_seq(vs.last().content).len() > 0 {
            rest.push(vs.last())
        } else {
            rest
        }
    }
}

/// Every kept version has non-blank content.
pub proof fn lemma_kept_props(vs: Seq<ImportVersionModel>)
    ensures
        forall|k: int|
            0 <= k < kept_versions(vs).len() ==> trim_seq(
                (#[trigger] kept_versions(vs)[k]).content,
            ).len() > 0,
        kept_versions(vs).len() <= vs.len(),
    decreases vs.len(),
{
    if vs.len() > 0 {
        lemma_kept_props(vs.drop_last());
    }
}

/// The fresh version rows one item contributes, numbered from `base`.
pub open spec fn mapped_versions(
    ks: Seq<ImportVersionModel>,
    base: i64,
    pid: i64,
    now: Seq<char>,
) -> Seq<VersionModel> {
    Seq::new(
        ks.len(),
        |w: int|
            VersionModel {
                id: (base + w) as i64,
                prompt_id: pid,
                content: ks[w].content,
                change_note: import_note(ks[w]),
                created_at: import_time(ks[w], now),
            },
    )
}

/// The versions an item brings: the non-blank supplied ones, or, when none
/// survive, one synthesized from the item's own content.
pub open spec fn item_versions(it: ImportPromptModel, now: Seq<char>) -> Seq<ImportVersionModel> {
    let vs = match it.versions {
        Some(vs) => kept_versions(vs),
        None => Seq::empty(),
    };
    if vs.len() == 0 {
        seq![
            ImportVersionModel {
                content: it.content,
                change_note: Some("imported"@),
                created_at: Some(now),
            },
        ]
    } else {
        vs
    }
}

/// A missing change note defaults to the imported-version marker.
pub open spec fn import_note(v: ImportVersionModel) -> Seq<char> {
    match v.change_note {
        Some(n) => n,
        None => "imported version"@,
    }
}

/// A missing version timestamp defaults to the import time.
pub open spec fn import_time(v: ImportVersionModel, now: Seq<char>) -> Seq<char> {
    match v.created_at {
        Some(t) => t,
        None => now,
    }
}

/// The store after one valid item lands: a fresh prompt plus its versions.
pub open spec fn import_item(m: StoreModel, it: ImportPromptModel, now: Seq<char>) -> StoreModel {
    let p = PromptModel {
        id: m.next_prompt_id,
        title: trim_seq(it.title),
        content: it.content,
        tags: item_tags(it),
        is_favorite: item_fav(it),
        score_sum: item_sum(it),
        score_count: item_count(it),
        created_at: now,
        updated_at: now,
    };
    let vs = item_versions(it, now);
    StoreModel {
        prompts: m.prompts.push(p),
        versions: m.versions + mapped_versions(vs, m.next_version_id, m.next_prompt_id, now),
        logs: m.logs,
        next_prompt_id: (m.next_prompt_id + 1) as i64,
        next_version_id: (m.next_version_id + vs.len()) as i64,
        next_log_id: m.next_log_id,
    }
}

/// The id counters leave room for one item's prompt and versions.
pub open spec fn fits_item(m: StoreModel, it: ImportPromptModel, now: Seq<char>) -> bool {
    m.next_prompt_id < i64::MAX && m.next_version_id + item_versions(it, now).len() <= i64::MAX
}

/// The store and the count of imported prompts after a whole batch.
pub open spec fn spec_import(
    m: StoreModel,
    items: Seq<ImportPromptModel>,
    now: Seq<char>,
) -> (StoreModel, int)
    decreases items.len(),
{
    if items.len() == 0 {
        (m, 0)
    } else {
        let it = items[0];
        if item_invalid(it) {
            spec_import(m, items.drop_first(), now)
        } else {
            let rec = spec_import(import_item(m, it, now), items.drop_first(), now);
            (rec.0, rec.1 + 1)
        }
    }
}

/// The id counters leave room for the whole batch.
pub open spec fn import_fits(m: StoreModel, items: Seq<ImportPromptModel>, now: Seq<char>) -> bool
    decreases items.len(),
{
    if items.len() == 0 {
        true
    } else {
        let it = items[0];
        if item_invalid(it) {
            import_fits(m, items.drop_first(), now)
        } else {
            fits_item(m, it, now) && import_fits(import_item(m, it, now), items.drop_first(), now)
        }
    }
}

/// Folding one more item into a batch steps the import by that item.
pub proof fn lemma_import_push(
    m: StoreModel,
    items: Seq<ImportPromptModel>,
    x: ImportPromptModel,
    now: Seq<char>,
)
    ensures
        spec_import(m, items.push(x), now) == if item_invalid(x) {
            spec_import(m, items, now)
        } else {
            (
                import_item(spec_import(m, items, now).0, x, now),
                spec_import(m, items, now).1 + 1,
            )
        },
        import_fits(m, items.push(x), now) == (import_fits(m, items, now) && (item_invalid(x)
            || (import_fits(m, items, now) && fits_item(spec_import(m, items, now).0, x, now)))),
    decreases items.len(),
{
    let s = items.push(x);
    if items.len() == 0 {
        assert(s[0] == x);
        assert(s.drop_first() =~= items);
        assert(spec_import(m, items, now) == (m, 0int));
        assert(import_fits(m, items, now));
        if item_invalid(x) {
            assert(spec_import(m, s, now) == spec_import(m, s.drop_first(), now));
            assert(import_fits(m, s, now) == import_fits(m, s.drop_first(), now));
        } else {
            assert(spec_import(import_item(m, x, now), s.drop_first(), now) == (
                import_item(m, x, now),
                0int,
            ));
            assert(import_fits(import_item(m, x, now), s.drop_first(), now));
        }
    } else {
        assert(s[0] == items[0]);
        assert(s.drop_first() =~= items.drop_first().push(x));
        if item_invalid(items[0]) {
            lemma_import_push(m, items.drop_first(), x, now);
            assert(spec_import(m, s, now) == spec_import(m, items.drop_first().push(x), now));
            assert(spec_import(m, items, now) == spec_import(m, items.drop_first(), now));
            assert(import_fits(m, s, now) == import_fits(m, items.drop_first().push(x), now));
            assert(import_fits(m, items, now) == import_fits(m, items.drop_first(), now));
        } else {
            let m1 = import_item(m, items[0], now);
            lemma_import_push(m1, items.drop_first(), x, now);
            assert(spec_import(m, s, now) == (
                spec_import(m1, items.drop_first().push(x), now).0,
                spec_import(m1, items.drop_first().push(x), now).1 + 1,
            ));
            assert(spec_import(m, items, now) == (
                spec_import(m1, items.drop_first(), now).0,
                spec_import(m1, items.drop_first(), now).1 + 1,
            ));
            assert(import_fits(m, s, now) == (fits_item(m, items[0], now) && import_fits(
                m1,
                items.drop_first().push(x),
                now,
            )));
            assert(import_fits(m, items, now) == (fits_item(m, items[0], now) && import_fits(
                m1,
                items.drop_first(),
                now,
            )));
        }
    }
}

/// An import only appends: the old rows sit unchanged at the front, the log
/// and its counter do not move, and the id counters never shrink.
pub proof fn lemma_import_extends(m: StoreModel, items: Seq<ImportPromptModel>, now: Seq<char>)
    ensures
        ({
            let m2 = spec_import(m, items, now).0;
            &&& m2.prompts.len() >= m.prompts.len()
            &&& m2.prompts.take(m.prompts.len() as int) == m.prompts
            &&& m2.versions.len() >= m.versions.len()
            &&& m2.versions.take(m.versions.len() as int) == m.versions
            &&& m2.logs == m.logs
            &&& m2.next_log_id == m.next_log_id
            &&& 0 <= spec_import(m, items, now).1 <= items.len()
        }),
    decreases items.len(),
{
    if items.len() == 0 {
        assert(m.prompts.take(m.prompts.len() as int) =~= m.prompts);
        assert(m.versions.take(m.versions.len() as int) =~= m.versions);
    } else {
        let it = items[0];
        if item_invalid(it) {
            lemma_import_extends(m, items.drop_first(), now);
            assert(spec_import(m, items, now) == spec_import(m, items.drop_first(), now));
        } else {
            let m1 = import_item(m, it, now);
            lemma_import_extends(m1, items.drop_first(), now);
            let m2 = spec_import(m, items, now).0;
            assert(m2 == spec_import(m1, items.drop_first(), now).0);
            assert(m1.prompts.take(m.prompts.len() as int) =~= m.prompts);
            assert(m1.versions.take(m.versions.len() as int) =~= m.versions);
            assert(m2.prompts.take(m1.prompts.len() as int) == m1.prompts);
            assert(m2.prompts.take(m.prompts.len() as int) =~= m2.prompts.take(
                m1.prompts.len() as int,
            ).take(m.prompts.len() as int));
            assert(m2.prompts.take(m.prompts.len() as int) == m1.prompts.take(
                m.prompts.len() as int,
            ));
            assert(m2.versions.take(m1.versions.len() as int) == m1.versions);
            assert(m2.versions.take(m.versions.len() as int) =~= m2.versions.take(
                m1.versions.len() as int,
            ).take(m.versions.len() as int));
            assert(m2.versions.take(m.versions.len() as int) == m1.versions.take(
                m.versions.len() as int,
            ));
        }
    }
}

} // verus!

// The executable import: single pass, rolled back wholly if the id counters
// cannot seat the batch.
verus! {

/// Every version brought by one fitting item is well-formed and correctly
/// numbered, so the whole item keeps the store invariant.
proof fn lemma_import_item_wf(m: StoreModel, it: ImportPromptModel, now: Seq<char>)
    requires
        m.wf(),
        !item_invalid(it),
        fits_item(m, it, now),
    ensures
        import_item(m, it, now).wf(),
{
    let m2 = import_item(m, it, now);
    crate::tags::lemma_trim_idempotent(it.title);
    crate::tags::lemma_normalize_idempotent(
        match it.tags {
            Some(t) => t,
            None => Seq::empty(),
        },
    );
    let vs = item_versions(it, now);
    assert forall|k: int| 0 <= k < vs.len() implies trim_seq((#[trigger] vs[k]).content).len()
        > 0 by {
        match it.versions {
            Some(supplied) => {
                lemma_kept_props(supplied);
                if kept_versions(supplied).len() > 0 {
                    assert(vs[k] == kept_versions(supplied)[k]);
                } else {
                    assert(vs[k].content == it.content);
                }
            },
            None => {
                assert(vs[k].content == it.content);
            },
        }
    }
    assert forall|k: int| 0 <= k < m2.versions.len() implies wf_version(#[trigger] m2.versions[k])
        && 1 <= m2.versions[k].id < m2.next_version_id && has_prompt(
        m2,
        m2.versions[k].prompt_id,
    ) by {
        if k < m.versions.len() {
            assert(m2.versions[k] == m.versions[k]);
            assert(has_prompt(m, m.versions[k].prompt_id));
            let w = choose|w: int|
                0 <= w < m.prompts.len() && m.prompts[w].id == m.versions[k].prompt_id;
            assert(m2.prompts[w].id == m.versions[k].prompt_id);
        } else {
            assert(m2.versions[k].prompt_id == m.next_prompt_id);
            assert(m2.prompts[m.prompts.len() as int].id == m.next_prompt_id);
        }
    }
    assert forall|a: int, b: int| 0 <= a < b < m2.versions.len() implies (
    #[trigger] m2.versions[a]).id != (#[trigger] m2.versions[b]).id by {
        if b < m.versions.len() {
            assert(m2.versions[a] == m.versions[a]);
            assert(m2.versions[b] == m.versions[b]);
        } else if a < m.versions.len() {
            assert(m2.versions[a] == m.versions[a]);
            assert(m.versions[a].id < m.next_version_id);
            assert(m2.versions[b].id >= m.next_version_id);
        }
    }
    assert forall|k: int| 0 <= k < m2.logs.len() implies has_prompt(
        m2,
        (#[trigger] m2.logs[k]).prompt_id,
    ) by {
        assert(has_prompt(m, m.logs[k].prompt_id));
        let w = choose|w: int| 0 <= w < m.prompts.len() && m.prompts[w].id == m.logs[k].prompt_id;
        assert(m2.prompts[w].id == m.logs[k].prompt_id);
    }
}

/// A batch that does not fit as a prefix does not fit as a whole.
proof fn lemma_fits_mono(m: StoreModel, s: Seq<ImportPromptModel>, now: Seq<char>, k: int)
    requires
        0 <= k <= s.len(),
        !import_fits(m, s.take(k), now),
    ensures
        !import_fits(m, s, now),
    decreases s.len() - k,
{
    if k < s.len() {
        assert(s.take(k + 1) =~= s.take(k).push(s[k]));
        lemma_import_push(m, s.take(k), s[k], now);
        lemma_fits_mono(m, s, now, k + 1);
    } else {
        assert(s.take(s.len() as int) =~= s);
    }
}

impl PromptStore {
    /// Imports a batch of snapshot items. Blank items are skipped silently;
    /// the rest land as fresh prompts with their version history, all in one
    /// piece: if the id counters cannot seat the whole batch, nothing at all
    /// changes and the call fails.
    #[verifier::rlimit(100)]
    pub fn import_at(&mut self, items: Vec<ImportPromptItem>, now: &str) -> (r: Result<
        i64,
        EngineError,
    >)
        requires
            old(self)@.wf(),
        ensures
            final(self)@.wf(),
            import_fits(old(self)@, items.deep_view(), now@) ==> r == Ok::<i64, EngineError>(
                spec_import(old(self)@, items.deep_view(), now@).1 as i64,
            ) && final(self)@ == spec_import(old(self)@, items.deep_view(), now@).0,
            !import_fits(old(self)@, items.deep_view(), now@) ==> r == Err::<i64, EngineError>(
                EngineError::Storage,
            ) && final(self)@ == old(self)@,
    {
        let ghost m0 = old(self)@;
        let ghost dv = items.deep_view();
        let p_len = self.prompts.len();
        let v_len = self.versions.len();
        let np = self.next_prompt_id;
        let nv = self.next_version_id;
        let mut imported: i64 = 0;
        let mut idx: usize = 0;
        proof {
            assert(dv.take(0) =~= Seq::<ImportPromptModel>::empty());
            assert(self@ =~~= spec_import(m0, dv.take(0), now@).0);
        }
        while idx < items.len()
            invariant
                0 <= idx <= items@.len(),
                m0 == old(self)@,
                m0.wf(),
                dv == items.deep_view(),
                dv.len() == items@.len(),
                self@.wf(),
                import_fits(m0, dv.take(idx as int), now@),
                self@ == spec_import(m0, dv.take(idx as int), now@).0,
                imported == spec_import(m0, dv.take(idx as int), now@).1,
                imported == self@.next_prompt_id - np,
                p_len == m0.prompts.len(),
                v_len == m0.versions.len(),
                np == m0.next_prompt_id,
                nv == m0.next_version_id,
                self.prompts@.len() == self@.prompts.len(),
                self.versions@.len() == self@.versions.len(),
            decreases items@.len() - idx,
        {
            let ghost it = dv[idx as int];
            let ghost m_prev = self@;
            proof {
                assert(dv.take(idx + 1) =~= dv.take(idx as int).push(it));
                lemma_import_push(m0, dv.take(idx as int), it, now@);
                assert(it == items@[idx as int].deep_view());
            }
            let tcs = str_chars(items[idx].title.as_str());
            let tt = trim_chars(&tcs);
            let ccs = str_chars(items[idx].content.as_str());
            let ct = trim_chars(&ccs);
            proof {
                assert(tt@ == trim_seq(it.title));
                assert(ct@ == trim_seq(it.content));
            }
            if tt.len() == 0 || ct.len() == 0 {
                idx = idx + 1;
                continue;
            }
            let ghost vsm = match it.versions {
                Some(vs) => vs,
                None => Seq::<ImportVersionModel>::empty(),
            };
            let mut cnt: usize = 0;
            match &items[idx].versions {
                Some(vs) => {
                    let mut j: usize = 0;
                    proof {
                        assert(vsm.take(0) =~= Seq::<ImportVersionModel>::empty());
                    }
                    while j < vs.len()
                        invariant
                            0 <= j <= vs@.len(),
                            vsm == vs.deep_view(),
                            vsm.len() == vs@.len(),
                            cnt == kept_versions(vsm.take(j as int)).len(),
                            cnt <= j,
                        decreases vs@.len() - j,
                    {
                        proof {
                            assert(vsm.take(j + 1).drop_last() =~= vsm.take(j as int));
                            assert(vsm.take(j + 1).last() == vsm[j as int]);
                            assert(vsm[j as int] == vs@[j as int].deep_view());
                        }
                        let vcs = str_chars(vs[j].content.as_str());
                        let vt = trim_chars(&vcs);
                        if vt.len() > 0 {
                            cnt = cnt + 1;
                        }
                        j = j + 1;
                    }
                    proof {
                        assert(vsm.take(vsm.len() as int) =~= vsm);
                    }
                },
                None => {
                    proof {
                        assert(kept_versions(vsm).len() == 0);
                    }
                },
            }
            let n: usize = if cnt == 0 {
                1
            } else {
                cnt
            };
            proof {
                assert(n == item_versions(it, now@).len());
            }
            let room: i64 = i64::MAX - self.next_version_id;
            if !(self.next_prompt_id < i64::MAX && (n as u128) <= (room as u128)) {
                proof {
                    assert(!fits_item(self@, it, now@));
                    assert(!import_fits(m0, dv.take(idx + 1), now@));
                    lemma_fits_mono(m0, dv, now@, idx + 1);
                    lemma_import_extends(m0, dv.take(idx as int), now@);
                }
                self.prompts.truncate(p_len);
                self.versions.truncate(v_len);
                self.next_prompt_id = np;
                self.next_version_id = nv;
                proof {
                    assert(prompt_models(self.prompts@) =~~= m_prev.prompts.take(p_len as int));
                    assert(version_models(self.versions@) =~~= m_prev.versions.take(v_len as int));
                    assert(self@ =~~= m0);
                    assert(self@ == m0);
                    assert(!import_fits(m0, dv, now@));
                }
                return Err(EngineError::Storage);
            }
            let pid = self.next_prompt_id;
            let title_s = chars_to_string(&tt);
            let content_s = clone_string(&items[idx].content);
            let tags_vec: Vec<String> = match &items[idx].tags {
                Some(t) => clone_tags(t),
                None => Vec::new(),
            };
            proof {
                assert(tags_vec.deep_view() =~~= (match it.tags {
                    Some(t) => t,
                    None => Seq::<Seq<char>>::empty(),
                }));
            }
            let ntags = normalize_tags(tags_vec);
            let fav = match items[idx].is_favorite {
                Some(b) => b,
                None => false,
            };
            let c0 = match items[idx].score_count {
                Some(c) => c,
                None => 0,
            };
            let count = if c0 < 0 {
                0
            } else {
                c0
            };
            let sum = if count == 0 {
                0
            } else {
                let s0 = match items[idx].score_sum {
                    Some(s) => s,
                    None => 0,
                };
                if s0 < 0 {
                    0
                } else {
                    s0
                }
            };
            let new_p = Prompt {
                id: pid,
                title: title_s,
                content: content_s,
                tags: ntags,
                is_favorite: fav,
                score_sum: sum,
                score_count: count,
                created_at: String::from_str(now),
                updated_at: String::from_str(now),
            };
            proof {
                let pm = import_item(m_prev, it, now@).prompts.last();
                assert(new_p@.id == pm.id);
                assert(new_p@.title == pm.title);
                assert(new_p@.content == pm.content);
                assert(new_p@.tags == pm.tags);
                assert(new_p@.is_favorite == pm.is_favorite);
                assert(new_p@.score_sum == pm.score_sum);
                assert(new_p@.score_count == pm.score_count);
                assert(new_p@.created_at == pm.created_at);
                assert(new_p@.updated_at == pm.updated_at);
                assert(new_p@ =~~= pm);
            }
            self.prompts.push(new_p);
            self.next_prompt_id = pid + 1;
            let ghost base_nv = self@.next_version_id;
            let ghost old_versions = m_prev.versions;
            let ghost prompts_snap = self.prompts@;
            let ghost logs_snap = self.logs@;
            let ghost npid_snap = self.next_prompt_id;
            let ghost nlog_snap = self.next_log_id;
            let mut inserted: bool = false;
            match &items[idx].versions {
                Some(vs) => {
                    let mut j: usize = 0;
                    proof {
                        assert(vsm.take(0) =~= Seq::<ImportVersionModel>::empty());
                        assert(version_models(self.versions@) =~~= old_versions + mapped_versions(
                            kept_versions(vsm.take(0)),
                            base_nv,
                            pid,
                            now@,
                        ));
                    }
                    while j < vs.len()
                        invariant
                            0 <= j <= vs@.len(),
                            vsm == vs.deep_view(),
                            vsm.len() == vs@.len(),
                            cnt == kept_versions(vsm).len(),
                            base_nv >= 1,
                            base_nv + cnt <= i64::MAX,
                            self.prompts@ == prompts_snap,
                            self.logs@ == logs_snap,
                            self.next_prompt_id == npid_snap,
                            self.next_log_id == nlog_snap,
                            inserted == (kept_versions(vsm.take(j as int)).len() > 0),
                            self.next_version_id == base_nv + kept_versions(
                                vsm.take(j as int),
                            ).len(),
                            kept_versions(vsm.take(j as int)).len() <= kept_versions(vsm).len(),
                            version_models(self.versions@) == old_versions + mapped_versions(
                                kept_versions(vsm.take(j as int)),
                                base_nv,
                                pid,
                                now@,
                            ),
                        decreases vs@.len() - j,
                    {
                        proof {
                            assert(vsm.take(j + 1).drop_last() =~= vsm.take(j as int));
                            assert(vsm.take(j + 1).last() == vsm[j as int]);
                            assert(vsm[j as int] == vs@[j as int].deep_view());
                            lemma_kept_prefix(vsm, j + 1);
                        }
                        let vcs = str_chars(vs[j].content.as_str());
                        let vt = trim_chars(&vcs);
                        if vt.len() > 0 {
                            let note_s = match &vs[j].change_note {
                                Some(nn) => clone_string(nn),
                                None => String::from_str("imported version"),
                            };
                            let time_s = match &vs[j].created_at {
                                Some(t) => clone_string(t),
                                None => String::from_str(now),
                            };
                            let rec = PromptVersionRecord {
                                id: self.next_version_id,
                                prompt_id: pid,
                                content: clone_string(&vs[j].content),
                                change_note: note_s,
                                created_at: time_s,
                            };
                            let ghost recm = rec@;
                            let ghost old_vm = version_models(self.versions@);
                            self.versions.push(rec);
                            self.next_version_id = self.next_version_id + 1;
                            inserted = true;
                            proof {
                                let ghost klen = kept_versions(vsm.take(j as int)).len() as int;
                                assert(kept_versions(vsm.take(j + 1)) =~= kept_versions(
                                    vsm.take(j as int),
                                ).push(vsm[j as int]));
                                assert(klen + 1 <= cnt);
                                assert(version_models(self.versions@) =~= old_vm.push(recm));
                                assert(recm.id == (base_nv + klen) as i64);
                                assert(recm.prompt_id == pid);
                                assert(recm.content == vsm[j as int].content);
                                assert(recm.change_note == import_note(vsm[j as int]));
                                assert(recm.created_at == import_time(vsm[j as int], now@));
                                assert(recm =~~= mapped_versions(
                                    kept_versions(vsm.take(j + 1)),
                                    base_nv,
                                    pid,
                                    now@,
                                )[klen]);
                                assert(version_models(self.versions@) =~~= old_versions
                                    + mapped_versions(
                                    kept_versions(vsm.take(j + 1)),
                                    base_nv,
                                    pid,
                                    now@,
                                ));
                            }
                        }
                        j = j + 1;
                    }
                    proof {
                        assert(vsm.take(vsm.len() as int) =~= vsm);
                    }
                },
                None => {},
            }
            if !inserted {
                let rec = PromptVersionRecord {
                    id: self.next_version_id,
                    prompt_id: pid,
                    content: clone_string(&items[idx].content),
                    change_note: String::from_str("imported"),
                    created_at: String::from_str(now),
                };
                self.versions.push(rec);
                self.next_version_id = self.next_version_id + 1;
            }
            imported = imported + 1;
            proof {
                assert(version_models(self.versions@) =~~= m_prev.versions + mapped_versions(
                    item_versions(it, now@),
                    m_prev.next_version_id,
                    m_prev.next_prompt_id,
                    now@,
                ));
                assert(prompt_models(self.prompts@) =~~= m_prev.prompts.push(
                    import_item(m_prev, it, now@).prompts.last(),
                ));
                assert(self@ =~~= import_item(m_prev, it, now@));
                lemma_import_item_wf(m_prev, it, now@);
            }
            idx = idx + 1;
        }
        proof {
            assert(dv.take(dv.len() as int) =~= dv);
            assert(spec_import(m0, dv, now@).1 == imported as int);
        }
        Ok(imported)
    }
}

/// A prefix of the supplied versions keeps at most as many as the whole.
proof fn lemma_kept_prefix(vs: Seq<ImportVersionModel>, j: int)
    requires
        0 <= j <= vs.len(),
    ensures
        kept_versions(vs.take(j)).len() <= kept_versions(vs).len(),
    decreases vs.len() - j,
{
    if j < vs.len() {
        assert(vs.take(j + 1).drop_last() =~= vs.take(j));
        assert(vs.take(j + 1).last() == vs[j]);
        lemma_kept_prefix(vs, j + 1);
    } else {
        assert(vs.take(vs.len() as int) =~= vs);
    }
}

} // verus!

// The executable export.
verus! {

/// The exported form of one stored version.
pub open spec fn export_version(v: VersionModel) -> ExportVersionModel {
    ExportVersionModel { content: v.content, change_note: v.change_note, created_at: v.created_at }
}

/// The versions of one exported item: the prompt's full history in display
/// order, with ids stripped.
pub open spec fn export_versions_ok(
    m: StoreModel,
    pid: i64,
    vs: Seq<ExportVersionModel>,
) -> bool {
    exists|vseq: Seq<VersionModel>|
        {
            &&& vseq.map_values(|v: VersionModel| export_version(v)) == vs
            &&& sorted_versions(vseq)
            &&& #[trigger] vseq.to_multiset() == m.versions.filter(
                |v: VersionModel| v.prompt_id == pid,
            ).to_multiset()
        }
}

/// One exported item carries one prompt's fields and history.
pub open spec fn item_matches(m: StoreModel, it: ExportPromptModel, p: PromptModel) -> bool {
    &&& it.title == p.title
    &&& it.content == p.content
    &&& it.tags == p.tags
    &&& it.is_favorite == p.is_favorite
    &&& it.score_sum == p.score_sum
    &&& it.score_count == p.score_count
    &&& export_versions_ok(m, p.id, it.versions)
}

/// The exported items are the whole store, ordered by update recency, each
/// with its history.
pub open spec fn export_payload_ok(m: StoreModel, items: Seq<ExportPromptModel>) -> bool {
    exists|sorted: Seq<PromptModel>|
        {
            &&& #[trigger] sorted.to_multiset() == m.prompts.to_multiset()
            &&& sorted_prompts(SortMode::Updated, sorted)
            &&& items.len() == sorted.len()
            &&& forall|k: int| 0 <= k < items.len() ==> item_matches(m, #[trigger] items[k], sorted[k])
        }
}

impl PromptStore {
    /// The full store as a snapshot: every prompt, newest update first, with
    /// its complete version history; ids are left out, since an import
    /// assigns fresh ones.
    pub fn export_at(&self, now: &str) -> (r: ExportPayload)
        requires
            self@.wf(),
        ensures
            r.exported_at@ == now@,
            export_payload_ok(self@, r.prompts.deep_view()),
    {
        let ghost m = self@;
        let sorted = self.list_prompts(None, None, None);
        proof {
            crate::seqs::lemma_filter_all(
                m.prompts,
                |p: PromptModel|
                    crate::query::list_pred(
                        p,
                        crate::query::opt_model(None),
                        crate::query::opt_model(None),
                    ),
            );
        }
        let mut items: Vec<ExportPromptItem> = Vec::new();
        let mut i: usize = 0;
        while i < sorted.len()
            invariant
                0 <= i <= sorted@.len(),
                m == self@,
                m.wf(),
                prompt_models(sorted@).to_multiset() == m.prompts.to_multiset(),
                sorted_prompts(SortMode::Updated, prompt_models(sorted@)),
                items.deep_view().len() == i,
                forall|k: int|
                    0 <= k < i ==> item_matches(
                        m,
                        #[trigger] items.deep_view()[k],
                        prompt_models(sorted@)[k],
                    ),
            decreases sorted@.len() - i,
        {
            let p = &sorted[i];
            let vs = self.list_prompt_versions(p.id);
            let mut evs: Vec<ExportVersionItem> = Vec::new();
            let mut k: usize = 0;
            proof {
                assert(evs.deep_view() =~= version_models(vs@).take(0).map_values(
                    |v: VersionModel| export_version(v),
                ));
            }
            while k < vs.len()
                invariant
                    0 <= k <= vs@.len(),
                    evs.deep_view() == version_models(vs@).take(k as int).map_values(
                        |v: VersionModel| export_version(v),
                    ),
                decreases vs@.len() - k,
            {
                let v = &vs[k];
                let ghost old_evs = evs.deep_view();
                evs.push(
                    ExportVersionItem {
                        content: clone_string(&v.content),
                        change_note: clone_string(&v.change_note),
                        created_at: clone_string(&v.created_at),
                    },
                );
                proof {
                    let lhs = evs.deep_view();
                    let rhs = version_models(vs@).take(k + 1).map_values(
                        |v: VersionModel| export_version(v),
                    );
                    assert(old_evs.len() == k as int);
                    assert(lhs.len() == old_evs.len() + 1);
                    assert(version_models(vs@).take(k + 1).len() == k + 1);
                    assert(rhs.len() == k + 1);
                    assert(lhs.len() == rhs.len());
                    assert forall|w: int| 0 <= w < lhs.len() implies lhs[w] == rhs[w] by {
                        if w < k {
                            assert(lhs[w] == old_evs[w]);
                            assert(rhs[w] == export_version(version_models(vs@).take(k as int)[w]));
                        } else {
                            assert(lhs[w] =~~= export_version(version_models(vs@)[w]));
                        }
                    }
                    assert(lhs =~= rhs);
                }
                k = k + 1;
            }
            let item = ExportPromptItem {
                title: clone_string(&p.title),
                content: clone_string(&p.content),
                tags: clone_tags(&p.tags),
                is_favorite: p.is_favorite,
                score_sum: p.score_sum,
                score_count: p.score_count,
                versions: evs,
            };
            let ghost old_items = items.deep_view();
            items.push(item);
            proof {
                assert(version_models(vs@).take(version_models(vs@).len() as int) =~= version_models(
                    vs@,
                ));
                let it_m = items.deep_view()[i as int];
                assert(items.deep_view() =~~= old_items.push(it_m));
                assert(it_m.versions == version_models(vs@).map_values(
                    |v: VersionModel| export_version(v),
                ));
                assert(export_versions_ok(m, p.id, it_m.versions));
                assert(item_matches(m, it_m, prompt_models(sorted@)[i as int]));
                assert forall|k2: int| 0 <= k2 < i + 1 implies item_matches(
                    m,
                    #[trigger] items.deep_view()[k2],
                    prompt_models(sorted@)[k2],
                ) by {
                    if k2 < i {
                        assert(items.deep_view()[k2] == old_items[k2]);
                    }
                }
            }
            i = i + 1;
        }
        let r = ExportPayload { exported_at: String::from_str(now), prompts: items };
        proof {
            assert(export_payload_ok(m, r.prompts.deep_view()));
        }
        r
    }
}

} // verus!

// The round-trip law: importing what export produced reproduces the prompt.
verus! {

/// The exported form of one prompt with its version history.
pub open spec fn export_item_of(p: PromptModel, vs: Seq<VersionModel>) -> ExportPromptModel {
    ExportPromptModel {
        title: p.title,
        content: p.content,
        tags: p.tags,
        is_favorite: p.is_favorite,
        score_sum: p.score_sum,
        score_count: p.score_count,
        versions: vs.map_values(|v: VersionModel| export_version(v)),
    }
}

/// An exported item read back as an incoming one, every field present.
pub open spec fn import_of_export(e: ExportPromptModel) -> ImportPromptModel {
    ImportPromptModel {
        title: e.title,
        content: e.content,
        tags: Some(e.tags),
        is_favorite: Some(e.is_favorite),
        score_sum: Some(e.score_sum),
        score_count: Some(e.score_count),
        versions: Some(
            e.versions.map_values(
                |v: ExportVersionModel|
                    ImportVersionModel {
                        content: v.content,
                        change_note: Some(v.change_note),
                        created_at: Some(v.created_at),
                    },
            ),
        ),
    }
}

proof fn lemma_kept_all(ws: Seq<ImportVersionModel>)
    requires
        forall|k: int| 0 <= k < ws.len() ==> trim_seq((#[trigger] ws[k]).content).len() > 0,
    ensures
        kept_versions(ws) == ws,
    decreases ws.len(),
{
    if ws.len() > 0 {
        let dl = ws.drop_last();
        assert(forall|k: int| 0 <= k < dl.len() ==> dl[k] == ws[k]);
        lemma_kept_all(dl);
        assert(kept_versions(ws) =~= ws);
    } else {
        assert(kept_versions(ws) =~= ws);
    }
}

/// Export-then-import reproduces a prompt: a well-formed prompt, exported
/// with its history and imported back, lands with the same title, content,
/// tags, favorite flag and score pair, and with the same version contents,
/// notes and timestamps in the same order — only the ids and the prompt's
/// own timestamps are fresh.
pub proof fn lemma_export_import_round_trip(
    m: StoreModel,
    p: PromptModel,
    vs: Seq<VersionModel>,
    now: Seq<char>,
)
    requires
        wf_prompt(p),
        forall|k: int| 0 <= k < vs.len() ==> wf_version(#[trigger] vs[k]),
    ensures
        ({
            let it = import_of_export(export_item_of(p, vs));
            let m2 = import_item(m, it, now);
            let q = m2.prompts.last();
            let ks = m2.versions.skip(m.versions.len() as int);
            &&& !item_invalid(it)
            &&& m2.prompts == m.prompts.push(q)
            &&& q.title == p.title
            &&& q.content == p.content
            &&& q.tags == p.tags
            &&& q.is_favorite == p.is_favorite
            &&& q.score_sum == p.score_sum
            &&& q.score_count == p.score_count
            &&& q.created_at == now
            &&& (vs.len() > 0 ==> ks.len() == vs.len() && forall|k: int|
                0 <= k < vs.len() ==> (#[trigger] ks[k]).content == vs[k].content
                    && ks[k].change_note == vs[k].change_note && ks[k].created_at
                    == vs[k].created_at && ks[k].prompt_id == q.id)
            &&& (vs.len() == 0 ==> ks.len() == 1 && ks[0].content == p.content && ks[0].prompt_id
                == q.id)
        }),
{
    let e = export_item_of(p, vs);
    let it = import_of_export(e);
    let m2 = import_item(m, it, now);
    crate::tags::lemma_trim_idempotent(p.title);
    crate::tags::lemma_normalize_idempotent(p.tags);
    assert(item_tags(it) == p.tags);
    assert(item_count(it) == p.score_count);
    assert(item_sum(it) == p.score_sum);
    let ws = e.versions.map_values(
        |v: ExportVersionModel|
            ImportVersionModel {
                content: v.content,
                change_note: Some(v.change_note),
                created_at: Some(v.created_at),
            },
    );
    assert(ws.len() == vs.len());
    assert forall|k: int| 0 <= k < ws.len() implies (#[trigger] ws[k]).content == vs[k].content
        && ws[k].change_note == Some(vs[k].change_note) && ws[k].created_at == Some(
        vs[k].created_at,
    ) by {
        assert(e.versions[k] == export_version(vs[k]));
    }
    lemma_kept_all(ws);
    let ivs = item_versions(it, now);
    if vs.len() > 0 {
        assert(ivs == ws);
        let ks = m2.versions.skip(m.versions.len() as int);
        assert(ks =~= mapped_versions(ivs, m.next_version_id, m.next_prompt_id, now));
        assert forall|k: int| 0 <= k < vs.len() implies (#[trigger] ks[k]).content
            == vs[k].content && ks[k].change_note == vs[k].change_note && ks[k].created_at
            == vs[k].created_at && ks[k].prompt_id == m2.prompts.last().id by {
            assert(ks[k] == mapped_versions(ivs, m.next_version_id, m.next_prompt_id, now)[k]);
            assert(import_note(ws[k]) == vs[k].change_note);
            assert(import_time(ws[k], now) == vs[k].created_at);
        }
    } else {
        let ks = m2.versions.skip(m.versions.len() as int);
        assert(ks =~= mapped_versions(ivs, m.next_version_id, m.next_prompt_id, now));
        assert(ivs.len() == 1 && ivs[0].content == it.content);
    }
    assert(m2.prompts =~= m.prompts.push(m2.prompts.last()));
}

} // verus!
