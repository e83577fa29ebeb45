//! The prompt store: the engine's state, its invariant, and the mutating
//! operations (create/update, delete with cascade, usage logging with score
//! aggregation) together with version listing.
use vstd::prelude::*;

use crate::records::EngineError;
use crate::records::LogModel;
use crate::records::LogUsageInput;
use crate::records::LogUsageModel;
use crate::records::Prompt;
use crate::records::PromptModel;
use crate::records::PromptVersionRecord;
use crate::records::SaveModel;
use crate::records::SavePromptInput;
use crate::records::UsageLogRecord;
use crate::records::VersionModel;
use crate::records::clone_prompt;
use crate::records::clone_string;
use crate::records::clone_version;
use crate::seqs::lemma_filter_distinct_key;
use crate::seqs::lemma_filter_in_source;
use crate::seqs::lemma_filter_push;
use crate::seqs::lemma_to_multiset_insert;
use crate::tags::normalize_tags;
use crate::tags::spec_normalize;
use crate::text::chars_to_string;
use crate::text::lex_le;
use crate::text::lemma_lex_le_antisym;
use crate::text::lemma_lex_le_total;
use crate::text::lemma_lex_le_trans;
use crate::text::str_chars;
use crate::text::str_eq;
use crate::text::str_lex_le;
use crate::text::trim_chars;
use crate::text::trim_seq;
use vstd::string::StringExecFns;

verus! {

/// The mathematical state of the whole store.
#[verifier::ext_equal]
pub ghost struct StoreModel {
    pub prompts: Seq<PromptModel>,
    pub versions: Seq<VersionModel>,
    pub logs: Seq<LogModel>,
    pub next_prompt_id: i64,
    pub next_version_id: i64,
    pub next_log_id: i64,
}

pub open spec fn prompt_models(s: Seq<Prompt>) -> Seq<PromptModel> {
    s.map_values(|p: Prompt| p@)
}

pub open spec fn version_models(s: Seq<PromptVersionRecord>) -> Seq<VersionModel> {
    s.map_values(|v: PromptVersionRecord| v@)
}

pub open spec fn log_models(s: Seq<UsageLogRecord>) -> Seq<LogModel> {
    s.map_values(|l: UsageLogRecord| l@)
}

/// A well-formed prompt: trimmed non-blank title, non-blank content,
/// normalized tags, and a consistent score pair.
pub open spec fn wf_prompt(p: PromptModel) -> bool {
    &&& trim_seq(p.title) == p.title
    &&& p.title.len() > 0
    &&& trim_seq(p.content).len() > 0
    &&& p.tags == spec_normalize(p.tags)
    &&& p.score_count >= 0
    &&& p.score_sum >= 0
    &&& (p.score_count == 0 ==> p.score_sum == 0)
}

/// A well-formed version: its content snapshot is never blank.
pub open spec fn wf_version(v: VersionModel) -> bool {
    trim_seq(v.content).len() > 0
}

/// A well-formed usage event: a present rating lies in 1 to 5.
pub open spec fn wf_log(l: LogModel) -> bool {
    match l.rating {
        Some(r) => 1 <= r && r <= 5,
        None => true,
    }
}

/// Some stored prompt carries this id.
pub open spec fn has_prompt(m: StoreModel, id: i64) -> bool {
    exists|i: int| 0 <= i < m.prompts.len() && m.prompts[i].id == id
}

/// The position of the prompt carrying this id (unique under `wf`).
pub open spec fn prompt_idx(m: StoreModel, id: i64) -> int {
    choose|i: int| 0 <= i < m.prompts.len() && m.prompts[i].id == id
}

impl StoreModel {
    /// The store invariant: well-formed rows, unique ids below their counters,
    /// and referential integrity of versions and logs.
    pub open spec fn wf(self) -> bool {
        &&& 1 <= self.next_prompt_id
        &&& 1 <= self.next_version_id
        &&& 1 <= self.next_log_id
        &&& self.prompts.len() < self.next_prompt_id
        &&& self.versions.len() < self.next_version_id
        &&& self.logs.len() < self.next_log_id
        &&& forall|i: int| 0 <= i < self.prompts.len() ==> wf_prompt(#[trigger] self.prompts[i])
        &&& forall|i: int|
            0 <= i < self.prompts.len() ==> 1 <= (#[trigger] self.prompts[i]).id
                < self.next_prompt_id
        &&& forall|i: int, j: int|
            0 <= i < j < self.prompts.len() ==> (#[trigger] self.prompts[i]).id != (
            #[trigger] self.prompts[j]).id
        &&& forall|i: int| 0 <= i < self.versions.len() ==> wf_version(#[trigger] self.versions[i])
        &&& forall|i: int|
            0 <= i < self.versions.len() ==> 1 <= (#[trigger] self.versions[i]).id
                < self.next_version_id
        &&& forall|i: int, j: int|
            0 <= i < j < self.versions.len() ==> (#[trigger] self.versions[i]).id != (
            #[trigger] self.versions[j]).id
        &&& forall|i: int|
            0 <= i < self.versions.len() ==> has_prompt(self, (#[trigger] self.versions[i]).prompt_id)
        &&& forall|i: int| 0 <= i < self.logs.len() ==> wf_log(#[trigger] self.logs[i])
        &&& forall|i: int|
            0 <= i < self.logs.len() ==> 1 <= (#[trigger] self.logs[i]).id < self.next_log_id
        &&& forall|i: int, j: int|
            0 <= i < j < self.logs.len() ==> (#[trigger] self.logs[i]).id != (
            #[trigger] self.logs[j]).id
        &&& forall|i: int|
            0 <= i < self.logs.len() ==> has_prompt(self, (#[trigger] self.logs[i]).prompt_id)
    }
}

/// The prompt store. All operations keep `wf` of the model.
pub struct PromptStore {
    pub prompts: Vec<Prompt>,
    pub versions: Vec<PromptVersionRecord>,
    pub logs: Vec<UsageLogRecord>,
    pub next_prompt_id: i64,
    pub next_version_id: i64,
    pub next_log_id: i64,
}

impl View for PromptStore {
    type V = StoreModel;

    open spec fn view(&self) -> StoreModel {
        StoreModel {
            prompts: prompt_models(self.prompts@),
            versions: version_models(self.versions@),
            logs: log_models(self.logs@),
            next_prompt_id: self.next_prompt_id,
            next_version_id: self.next_version_id,
            next_log_id: self.next_log_id,
        }
    }
}

/// The trimmed change note of a save input; absent notes count as blank.
pub open spec fn note_trimmed(inp: SaveModel) -> Seq<char> {
    trim_seq(
        match inp.change_note {
            Some(n) => n,
            None => Seq::empty(),
        },
    )
}

/// A save input is invalid when title or content trims to nothing.
pub open spec fn save_invalid(inp: SaveModel) -> bool {
    trim_seq(inp.title).len() == 0 || trim_seq(inp.content).len() == 0
}

/// The prompt row a creation writes.
pub open spec fn created_prompt(m: StoreModel, inp: SaveModel, now: Seq<char>) -> PromptModel {
    PromptModel {
        id: m.next_prompt_id,
        title: trim_seq(inp.title),
        content: inp.content,
        tags: spec_normalize(inp.tags),
        is_favorite: inp.is_favorite,
        score_sum: 0,
        score_count: 0,
        created_at: now,
        updated_at: now,
    }
}

/// The store after a creation: the new prompt plus its initial version.
pub open spec fn spec_create(m: StoreModel, inp: SaveModel, now: Seq<char>) -> StoreModel {
    let note = if note_trimmed(inp).len() == 0 {
        "initial version"@
    } else {
        note_trimmed(inp)
    };
    StoreModel {
        prompts: m.prompts.push(created_prompt(m, inp, now)),
        versions: m.versions.push(
            VersionModel {
                id: m.next_version_id,
                prompt_id: m.next_prompt_id,
                content: inp.content,
                change_note: note,
                created_at: now,
            },
        ),
        logs: m.logs,
        next_prompt_id: (m.next_prompt_id + 1) as i64,
        next_version_id: (m.next_version_id + 1) as i64,
        next_log_id: m.next_log_id,
    }
}

/// The updated prompt row: title, content, tags, favorite flag and
/// `updated_at` replaced; identity, timestamps of creation and score kept.
pub open spec fn updated_prompt(p: PromptModel, inp: SaveModel, now: Seq<char>) -> PromptModel {
    PromptModel {
        id: p.id,
        title: trim_seq(inp.title),
        content: inp.content,
        tags: spec_normalize(inp.tags),
        is_favorite: inp.is_favorite,
        score_sum: p.score_sum,
        score_count: p.score_count,
        created_at: p.created_at,
        updated_at: now,
    }
}

/// An update appends a version exactly when the content changed or a
/// non-blank note was supplied.
pub open spec fn update_appends(p: PromptModel, inp: SaveModel) -> bool {
    p.content != inp.content || note_trimmed(inp).len() > 0
}

/// The store after an update of the prompt at position `i`.
pub open spec fn spec_update(m: StoreModel, i: int, inp: SaveModel, now: Seq<char>) -> StoreModel {
    let p = m.prompts[i];
    let np = updated_prompt(p, inp, now);
    if update_appends(p, inp) {
        let note = if note_trimmed(inp).len() == 0 {
            "content updated"@
        } else {
            note_trimmed(inp)
        };
        StoreModel {
            prompts: m.prompts.update(i, np),
            versions: m.versions.push(
                VersionModel {
                    id: m.next_version_id,
                    prompt_id: p.id,
                    content: inp.content,
                    change_note: note,
                    created_at: now,
                },
            ),
            logs: m.logs,
            next_prompt_id: m.next_prompt_id,
            next_version_id: (m.next_version_id + 1) as i64,
            next_log_id: m.next_log_id,
        }
    } else {
        StoreModel {
            prompts: m.prompts.update(i, np),
            versions: m.versions,
            logs: m.logs,
            next_prompt_id: m.next_prompt_id,
            next_version_id: m.next_version_id,
            next_log_id: m.next_log_id,
        }
    }
}

/// What `upsert_at` guarantees, stated over models.
pub open spec fn upsert_post(
    m: StoreModel,
    inp: SaveModel,
    now: Seq<char>,
    m2: StoreModel,
    r: Result<PromptModel, EngineError>,
) -> bool {
    if save_invalid(inp) {
        m2 == m && r == Err::<PromptModel, EngineError>(EngineError::Validation)
    } else {
        match inp.id {
            Some(pid) => {
                if !has_prompt(m, pid) {
                    m2 == m && r == Err::<PromptModel, EngineError>(EngineError::NotFound)
                } else {
                    let i = prompt_idx(m, pid);
                    if update_appends(m.prompts[i], inp) && m.next_version_id == i64::MAX {
                        m2 == m && r == Err::<PromptModel, EngineError>(EngineError::Storage)
                    } else {
                        m2 == spec_update(m, i, inp, now) && r == Ok::<PromptModel, EngineError>(
                            m2.prompts[i],
                        ) && m2.prompts[i] == updated_prompt(m.prompts[i], inp, now)
                    }
                }
            },
            None => {
                if m.next_prompt_id == i64::MAX || m.next_version_id == i64::MAX {
                    m2 == m && r == Err::<PromptModel, EngineError>(EngineError::Storage)
                } else {
                    m2 == spec_create(m, inp, now) && r == Ok::<PromptModel, EngineError>(
                        created_prompt(m, inp, now),
                    )
                }
            },
        }
    }
}

impl PromptStore {
    /// A fresh, empty store.
    pub fn new() -> (r: PromptStore)
        ensures
            r@.wf(),
            r@.prompts =~= Seq::<PromptModel>::empty(),
            r@.versions =~= Seq::<VersionModel>::empty(),
            r@.logs =~= Seq::<LogModel>::empty(),
            r@.next_prompt_id == 1,
            r@.next_version_id == 1,
            r@.next_log_id == 1,
    {
        PromptStore {
            prompts: Vec::new(),
            versions: Vec::new(),
            logs: Vec::new(),
            next_prompt_id: 1,
            next_version_id: 1,
            next_log_id: 1,
        }
    }

    fn find_prompt_index(&self, id: i64) -> (r: Option<usize>)
        ensures
            match r {
                Some(i) => 0 <= i < self@.prompts.len() && self@.prompts[i as int].id == id,
                None => !has_prompt(self@, id),
            },
    {
        let mut i: usize = 0;
        while i < self.prompts.len()
            invariant
                0 <= i <= self.prompts@.len(),
                self@.prompts.len() == self.prompts@.len(),
                forall|k: int| 0 <= k < i ==> (#[trigger] self@.prompts[k]).id != id,
            decreases self.prompts@.len() - i,
        {
            if self.prompts[i].id == id {
                return Some(i);
            }
            i = i + 1;
        }
        None
    }

    /// Looks a prompt up by id; absence is a normal result, not an error.
    pub fn get_prompt(&self, id: i64) -> (r: Option<Prompt>)
        requires
            self@.wf(),
        ensures
            match r {
                Some(p) => has_prompt(self@, id) && p@ == self@.prompts[prompt_idx(self@, id)],
                None => !has_prompt(self@, id),
            },
    {
        match self.find_prompt_index(id) {
            Some(i) => {
                let p = clone_prompt(&self.prompts[i]);
                proof {
                    let w = prompt_idx(self@, id);
                    assert(0 <= w < self@.prompts.len() && self@.prompts[w].id == id);
                    assert(w == i as int);
                }
                Some(p)
            },
            None => None,
        }
    }

    /// Removes a prompt and, by cascade, all its versions and usage logs.
    /// Deleting an absent id is a no-op.
    pub fn delete_prompt(&mut self, id: i64)
        requires
            old(self)@.wf(),
        ensures
            final(self)@.wf(),
            final(self)@.prompts == old(self)@.prompts.filter(|p: PromptModel| p.id != id),
            final(self)@.versions == old(self)@.versions.filter(
                |v: VersionModel| v.prompt_id != id,
            ),
            final(self)@.logs == old(self)@.logs.filter(|l: LogModel| l.prompt_id != id),
            !has_prompt(final(self)@, id),
            final(self)@.next_prompt_id == old(self)@.next_prompt_id,
            final(self)@.next_version_id == old(self)@.next_version_id,
            final(self)@.next_log_id == old(self)@.next_log_id,
    {
        let ghost m = self@;
        let mut kept_prompts: Vec<Prompt> = Vec::new();
        let mut i: usize = 0;
        proof {
            assert(m.prompts.take(0) =~= Seq::<PromptModel>::empty());
            reveal(Seq::filter);
        }
        while i < self.prompts.len()
            invariant
                0 <= i <= self.prompts@.len(),
                m == self@,
                m.prompts.len() == self.prompts@.len(),
                prompt_models(kept_prompts@) == m.prompts.take(i as int).filter(
                    |p: PromptModel| p.id != id,
                ),
            decreases self.prompts@.len() - i,
        {
            proof {
                assert(m.prompts.take(i + 1) =~= m.prompts.take(i as int).push(
                    m.prompts[i as int],
                ));
                lemma_filter_push(
                    m.prompts.take(i as int),
                    m.prompts[i as int],
                    |p: PromptModel| p.id != id,
                );
            }
            if self.prompts[i].id != id {
                kept_prompts.push(clone_prompt(&self.prompts[i]));
                proof {
                    assert(prompt_models(kept_prompts@) =~= m.prompts.take(i + 1).filter(
                        |p: PromptModel| p.id != id,
                    ));
                }
            }
            i = i + 1;
        }
        let mut kept_versions: Vec<PromptVersionRecord> = Vec::new();
        let mut j: usize = 0;
        while j < self.versions.len()
            invariant
                0 <= j <= self.versions@.len(),
                m == self@,
                m.versions.len() == self.versions@.len(),
                version_models(kept_versions@) == m.versions.take(j as int).filter(
                    |v: VersionModel| v.prompt_id != id,
                ),
            decreases self.versions@.len() - j,
        {
            proof {
                assert(m.versions.take(j + 1) =~= m.versions.take(j as int).push(
                    m.versions[j as int],
                ));
                lemma_filter_push(
                    m.versions.take(j as int),
                    m.versions[j as int],
                    |v: VersionModel| v.prompt_id != id,
                );
            }
            if self.versions[j].prompt_id != id {
                kept_versions.push(clone_version(&self.versions[j]));
                proof {
                    assert(version_models(kept_versions@) =~= m.versions.take(j + 1).filter(
                        |v: VersionModel| v.prompt_id != id,
                    ));
                }
            }
            j = j + 1;
        }
        let mut kept_logs: Vec<UsageLogRecord> = Vec::new();
        let mut k: usize = 0;
        while k < self.logs.len()
            invariant
                0 <= k <= self.logs@.len(),
                m == self@,
                m.logs.len() == self.logs@.len(),
                log_models(kept_logs@) == m.logs.take(k as int).filter(
                    |l: LogModel| l.prompt_id != id,
                ),
            decreases self.logs@.len() - k,
        {
            proof {
                assert(m.logs.take(k + 1) =~= m.logs.take(k as int).push(m.logs[k as int]));
                lemma_filter_push(m.logs.take(k as int), m.logs[k as int], |l: LogModel| l.prompt_id != id);
            }
            if self.logs[k].prompt_id != id {
                let l = &self.logs[k];
                kept_logs.push(
                    UsageLogRecord {
                        id: l.id,
                        prompt_id: l.prompt_id,
                        input_vars: clone_string(&l.input_vars),
                        output_text: clone_string(&l.output_text),
                        rating: l.rating,
                        used_at: clone_string(&l.used_at),
                    },
                );
                proof {
                    assert(log_models(kept_logs@) =~= m.logs.take(k + 1).filter(
                        |l: LogModel| l.prompt_id != id,
                    ));
                }
            }
            k = k + 1;
        }
        self.prompts = kept_prompts;
        self.versions = kept_versions;
        self.logs = kept_logs;
        proof {
            assert(m.prompts.take(m.prompts.len() as int) =~= m.prompts);
            assert(m.versions.take(m.versions.len() as int) =~= m.versions);
            assert(m.logs.take(m.logs.len() as int) =~= m.logs);
            lemma_delete_wf(m, self@, id);
        }
    }
}

proof fn lemma_delete_wf(m: StoreModel, m2: StoreModel, id: i64)
    requires
        m.wf(),
        m2.prompts == m.prompts.filter(|p: PromptModel| p.id != id),
        m2.versions == m.versions.filter(|v: VersionModel| v.prompt_id != id),
        m2.logs == m.logs.filter(|l: LogModel| l.prompt_id != id),
        m2.next_prompt_id == m.next_prompt_id,
        m2.next_version_id == m.next_version_id,
        m2.next_log_id == m.next_log_id,
    ensures
        m2.wf(),
        !has_prompt(m2, id),
{
    broadcast use vstd::seq_lib::group_filter_ensures;

    let pp = |p: PromptModel| p.id != id;
    let vp = |v: VersionModel| v.prompt_id != id;
    let lp = |l: LogModel| l.prompt_id != id;
    lemma_filter_in_source(m.prompts, pp);
    lemma_filter_in_source(m.versions, vp);
    lemma_filter_in_source(m.logs, lp);
    lemma_filter_distinct_key(m.prompts, pp, |p: PromptModel| p.id);
    lemma_filter_distinct_key(m.versions, vp, |v: VersionModel| v.id);
    lemma_filter_distinct_key(m.logs, lp, |l: LogModel| l.id);
    assert forall|i: int| 0 <= i < m2.prompts.len() implies wf_prompt(#[trigger] m2.prompts[i])
        && 1 <= m2.prompts[i].id < m2.next_prompt_id by {
        assert(m.prompts.contains(m2.prompts[i]));
        let w = choose|w: int| 0 <= w < m.prompts.len() && m.prompts[w] == m2.prompts[i];
        assert(wf_prompt(m.prompts[w]));
    }
    assert forall|i: int| 0 <= i < m2.versions.len() implies wf_version(#[trigger] m2.versions[i])
        && 1 <= m2.versions[i].id < m2.next_version_id && has_prompt(
        m2,
        m2.versions[i].prompt_id,
    ) by {
        assert(m.versions.contains(m2.versions[i]));
        let w = choose|w: int| 0 <= w < m.versions.len() && m.versions[w] == m2.versions[i];
        assert(wf_version(m.versions[w]));
        let v = m.versions[w];
        assert(has_prompt(m, v.prompt_id));
        let pw = prompt_idx(m, v.prompt_id);
        assert(0 <= pw < m.prompts.len() && m.prompts[pw].id == v.prompt_id);
        if v.prompt_id != id {
            assert(pp(m.prompts[pw]));
            assert(m2.prompts.contains(m.prompts[pw]));
        }
    }
    assert forall|i: int| 0 <= i < m2.logs.len() implies wf_log(#[trigger] m2.logs[i]) && 1
        <= m2.logs[i].id < m2.next_log_id && has_prompt(m2, m2.logs[i].prompt_id) by {
        assert(m.logs.contains(m2.logs[i]));
        let w = choose|w: int| 0 <= w < m.logs.len() && m.logs[w] == m2.logs[i];
        assert(wf_log(m.logs[w]));
        let l = m.logs[w];
        assert(has_prompt(m, l.prompt_id));
        let pw = prompt_idx(m, l.prompt_id);
        assert(0 <= pw < m.prompts.len() && m.prompts[pw].id == l.prompt_id);
        if l.prompt_id != id {
            assert(pp(m.prompts[pw]));
            assert(m2.prompts.contains(m.prompts[pw]));
        }
    }
    assert(m2.prompts.len() <= m.prompts.len());
    assert(m2.versions.len() <= m.versions.len());
    assert(m2.logs.len() <= m.logs.len());
    assert forall|i: int| 0 <= i < m2.prompts.len() implies (#[trigger] m2.prompts[i]).id != id by {
        assert(m2.prompts[i] == m.prompts.filter(pp)[i]);
    }
}

} // verus!

// The sorted listing order of versions and the remaining operations.
use vstd::prelude::*;

verus! {

/// The new usage event a logging call appends.
pub open spec fn new_log(m: StoreModel, inp: LogUsageModel, now: Seq<char>) -> LogModel {
    LogModel {
        id: m.next_log_id,
        prompt_id: inp.prompt_id,
        input_vars: inp.input_vars,
        output_text: inp.output_text,
        rating: inp.rating,
        used_at: now,
    }
}

/// The prompt after one rating: the exact incremental mean, kept as the pair
/// of sum and count.
pub open spec fn rated_prompt(p: PromptModel, r: i64, now: Seq<char>) -> PromptModel {
    PromptModel {
        score_sum: (p.score_sum + r) as i64,
        score_count: (p.score_count + 1) as i64,
        updated_at: now,
        ..p
    }
}

/// A present rating outside 1 to 5 is invalid.
pub open spec fn rating_invalid(inp: LogUsageModel) -> bool {
    match inp.rating {
        Some(s) => s < 1 || s > 5,
        None => false,
    }
}

/// What `log_usage_at` guarantees, stated over models.
pub open spec fn log_usage_post(
    m: StoreModel,
    inp: LogUsageModel,
    now: Seq<char>,
    m2: StoreModel,
    r: Result<(), EngineError>,
) -> bool {
    if rating_invalid(inp) {
        m2 == m && r == Err::<(), EngineError>(EngineError::Validation)
    } else if !has_prompt(m, inp.prompt_id) {
        m2 == m && r == Err::<(), EngineError>(EngineError::NotFound)
    } else if m.next_log_id == i64::MAX {
        m2 == m && r == Err::<(), EngineError>(EngineError::Storage)
    } else {
        match inp.rating {
            None => m2 == (StoreModel {
                logs: m.logs.push(new_log(m, inp, now)),
                next_log_id: (m.next_log_id + 1) as i64,
                ..m
            }) && r == Ok::<(), EngineError>(()),
            Some(s) => {
                let i = prompt_idx(m, inp.prompt_id);
                let p = m.prompts[i];
                if p.score_count == i64::MAX || p.score_sum > i64::MAX - s {
                    m2 == m && r == Err::<(), EngineError>(EngineError::Storage)
                } else {
                    m2 == (StoreModel {
                        prompts: m.prompts.update(i, rated_prompt(p, s, now)),
                        logs: m.logs.push(new_log(m, inp, now)),
                        next_log_id: (m.next_log_id + 1) as i64,
                        ..m
                    }) && r == Ok::<(), EngineError>(())
                }
            },
        }
    }
}

/// The model of an upsert's returned record.
pub open spec fn result_model(r: Result<Prompt, EngineError>) -> Result<PromptModel, EngineError> {
    match r {
        Ok(p) => Ok(p@),
        Err(e) => Err(e),
    }
}

impl PromptStore {
    /// Creates (no id) or updates (with id) a prompt, per the versioning
    /// policy: an update appends a version exactly when the content changed
    /// or a non-blank note was supplied; a creation always appends one.
    pub fn upsert_at(&mut self, input: SavePromptInput, now: &str) -> (r: Result<
        Prompt,
        EngineError,
    >)
        requires
            old(self)@.wf(),
        ensures
            final(self)@.wf(),
            upsert_post(old(self)@, input@, now@, final(self)@, result_model(r)),
    {
        let ghost m = old(self)@;
        let ghost inp = input@;
        let SavePromptInput { id, title, content, tags, is_favorite, change_note } = input;
        let tcs = str_chars(title.as_str());
        let tt = trim_chars(&tcs);
        let ccs = str_chars(content.as_str());
        let ct = trim_chars(&ccs);
        proof {
            assert(tt@ == trim_seq(inp.title));
            assert(ct@ == trim_seq(inp.content));
        }
        if tt.len() == 0 || ct.len() == 0 {
            return Err(EngineError::Validation);
        }
        let title_s = chars_to_string(&tt);
        let ntags = normalize_tags(tags);
        let note_trim: Vec<char> = match &change_note {
            Some(n) => {
                let ncs = str_chars(n.as_str());
                trim_chars(&ncs)
            },
            None => Vec::new(),
        };
        proof {
            assert(trim_seq(Seq::<char>::empty()) =~= Seq::<char>::empty());
            assert(note_trim@ == note_trimmed(inp));
        }
        match id {
            Some(pid) => {
                let i = match self.find_prompt_index(pid) {
                    None => {
                        return Err(EngineError::NotFound);
                    },
                    Some(i) => i,
                };
                proof {
                    let w = prompt_idx(m, pid);
                    assert(0 <= w < m.prompts.len() && m.prompts[w].id == pid);
                    assert(w == i as int);
                }
                let differs = !str_eq(self.prompts[i].content.as_str(), content.as_str());
                let appends = differs || note_trim.len() > 0;
                proof {
                    assert(appends == update_appends(m.prompts[i as int], inp));
                }
                if appends && self.next_version_id == i64::MAX {
                    return Err(EngineError::Storage);
                }
                let old_p = self.prompts.remove(i);
                let new_p = Prompt {
                    id: old_p.id,
                    title: title_s,
                    content: clone_string(&content),
                    tags: ntags,
                    is_favorite,
                    score_sum: old_p.score_sum,
                    score_count: old_p.score_count,
                    created_at: old_p.created_at,
                    updated_at: String::from_str(now),
                };
                let result = clone_prompt(&new_p);
                self.prompts.insert(i, new_p);
                proof {
                    assert(prompt_models(self.prompts@) =~= m.prompts.update(
                        i as int,
                        updated_prompt(m.prompts[i as int], inp, now@),
                    ));
                }
                if appends {
                    let note_s = if note_trim.len() == 0 {
                        String::from_str("content updated")
                    } else {
                        chars_to_string(&note_trim)
                    };
                    let v = PromptVersionRecord {
                        id: self.next_version_id,
                        prompt_id: pid,
                        content,
                        change_note: note_s,
                        created_at: String::from_str(now),
                    };
                    self.versions.push(v);
                    self.next_version_id = self.next_version_id + 1;
                    proof {
                        assert(version_models(self.versions@) =~= spec_update(
                            m,
                            i as int,
                            inp,
                            now@,
                        ).versions);
                    }
                }
                proof {
                    assert(self@ =~= spec_update(m, i as int, inp, now@));
                    lemma_update_wf(m, i as int, inp, now@);
                    assert(result@ =~= updated_prompt(m.prompts[i as int], inp, now@));
                    assert(spec_update(m, i as int, inp, now@).prompts[i as int]
                        == updated_prompt(m.prompts[i as int], inp, now@));
                }
                Ok(result)
            },
            None => {
                if self.next_prompt_id == i64::MAX || self.next_version_id == i64::MAX {
                    return Err(EngineError::Storage);
                }
                let pid = self.next_prompt_id;
                let now_s = String::from_str(now);
                let new_p = Prompt {
                    id: pid,
                    title: title_s,
                    content: clone_string(&content),
                    tags: ntags,
                    is_favorite,
                    score_sum: 0,
                    score_count: 0,
                    created_at: clone_string(&now_s),
                    updated_at: now_s,
                };
                let result = clone_prompt(&new_p);
                self.prompts.push(new_p);
                let note_s = if note_trim.len() == 0 {
                    String::from_str("initial version")
                } else {
                    chars_to_string(&note_trim)
                };
                let v = PromptVersionRecord {
                    id: self.next_version_id,
                    prompt_id: pid,
                    content,
                    change_note: note_s,
                    created_at: String::from_str(now),
                };
                self.versions.push(v);
                self.next_prompt_id = pid + 1;
                self.next_version_id = self.next_version_id + 1;
                proof {
                    assert(self@ =~= spec_create(m, inp, now@));
                    lemma_create_wf(m, inp, now@);
                    assert(result@ =~= created_prompt(m, inp, now@));
                }
                Ok(result)
            },
        }
    }

    /// Appends one usage event; a valid rating also folds into the prompt's
    /// running score, and both changes land together or not at all.
    pub fn log_usage_at(&mut self, input: LogUsageInput, now: &str) -> (r: Result<
        (),
        EngineError,
    >)
        requires
            old(self)@.wf(),
        ensures
            final(self)@.wf(),
            log_usage_post(old(self)@, input@, now@, final(self)@, r),
    {
        let ghost m = old(self)@;
        let ghost inp = input@;
        let LogUsageInput { prompt_id, input_vars, output_text, rating } = input;
        if let Some(s) = rating {
            if s < 1 || s > 5 {
                return Err(EngineError::Validation);
            }
        }
        let i = match self.find_prompt_index(prompt_id) {
            None => {
                return Err(EngineError::NotFound);
            },
            Some(i) => i,
        };
        proof {
            let w = prompt_idx(m, prompt_id);
            assert(0 <= w < m.prompts.len() && m.prompts[w].id == prompt_id);
            assert(w == i as int);
        }
        if self.next_log_id == i64::MAX {
            return Err(EngineError::Storage);
        }
        match rating {
            None => {
                let l = UsageLogRecord {
                    id: self.next_log_id,
                    prompt_id,
                    input_vars,
                    output_text,
                    rating: None,
                    used_at: String::from_str(now),
                };
                self.logs.push(l);
                self.next_log_id = self.next_log_id + 1;
                proof {
                    assert(log_models(self.logs@) =~= m.logs.push(new_log(m, inp, now@)));
                    assert(self@ =~= (StoreModel {
                        logs: m.logs.push(new_log(m, inp, now@)),
                        next_log_id: (m.next_log_id + 1) as i64,
                        ..m
                    }));
                    lemma_log_wf(m, self@, inp, now@);
                }
                Ok(())
            },
            Some(s) => {
                let psum = self.prompts[i].score_sum;
                let pcnt = self.prompts[i].score_count;
                if pcnt == i64::MAX || psum > i64::MAX - s {
                    return Err(EngineError::Storage);
                }
                let old_p = self.prompts.remove(i);
                let new_p = Prompt {
                    score_sum: old_p.score_sum + s,
                    score_count: old_p.score_count + 1,
                    updated_at: String::from_str(now),
                    ..old_p
                };
                self.prompts.insert(i, new_p);
                let l = UsageLogRecord {
                    id: self.next_log_id,
                    prompt_id,
                    input_vars,
                    output_text,
                    rating: Some(s),
                    used_at: String::from_str(now),
                };
                self.logs.push(l);
                self.next_log_id = self.next_log_id + 1;
                proof {
                    assert(prompt_models(self.prompts@) =~= m.prompts.update(
                        i as int,
                        rated_prompt(m.prompts[i as int], s, now@),
                    ));
                    assert(log_models(self.logs@) =~= m.logs.push(new_log(m, inp, now@)));
                    assert(self@ =~= (StoreModel {
                        prompts: m.prompts.update(i as int, rated_prompt(m.prompts[i as int], s, now@)),
                        logs: m.logs.push(new_log(m, inp, now@)),
                        next_log_id: (m.next_log_id + 1) as i64,
                        ..m
                    }));
                    lemma_log_wf(m, self@, inp, now@);
                }
                Ok(())
            },
        }
    }
}

proof fn lemma_same_ids_has_prompt(m: StoreModel, m2: StoreModel)
    requires
        m2.prompts.len() == m.prompts.len(),
        forall|i: int|
            0 <= i < m.prompts.len() ==> (#[trigger] m2.prompts[i]).id == (
            #[trigger] m.prompts[i]).id,
    ensures
        forall|id: i64| has_prompt(m, id) ==> has_prompt(m2, id),
{
    assert forall|id: i64| has_prompt(m, id) implies has_prompt(m2, id) by {
        let w = choose|w: int| 0 <= w < m.prompts.len() && m.prompts[w].id == id;
        assert(m2.prompts[w].id == id);
    }
}

proof fn lemma_create_wf(m: StoreModel, inp: SaveModel, now: Seq<char>)
    requires
        m.wf(),
        !save_invalid(inp),
        m.next_prompt_id < i64::MAX,
        m.next_version_id < i64::MAX,
    ensures
        spec_create(m, inp, now).wf(),
{
    let m2 = spec_create(m, inp, now);
    crate::tags::lemma_trim_idempotent(inp.title);
    crate::tags::lemma_normalize_idempotent(inp.tags);
    assert(wf_prompt(created_prompt(m, inp, now)));
    lemma_same_ids_has_prompt(
        m,
        StoreModel { prompts: m.prompts, ..m2 },
    );
    assert forall|i: int| 0 <= i < m2.versions.len() implies has_prompt(
        m2,
        (#[trigger] m2.versions[i]).prompt_id,
    ) by {
        if i < m.versions.len() {
            assert(has_prompt(m, m.versions[i].prompt_id));
            let w = choose|w: int|
                0 <= w < m.prompts.len() && m.prompts[w].id == m.versions[i].prompt_id;
            assert(m2.prompts[w].id == m.versions[i].prompt_id);
        } else {
            assert(m2.prompts[m.prompts.len() as int].id == m.next_prompt_id);
        }
    }
    assert forall|i: int| 0 <= i < m2.logs.len() implies has_prompt(
        m2,
        (#[trigger] m2.logs[i]).prompt_id,
    ) by {
        assert(has_prompt(m, m.logs[i].prompt_id));
        let w = choose|w: int| 0 <= w < m.prompts.len() && m.prompts[w].id == m.logs[i].prompt_id;
        assert(m2.prompts[w].id == m.logs[i].prompt_id);
    }
}

proof fn lemma_update_wf(m: StoreModel, i: int, inp: SaveModel, now: Seq<char>)
    requires
        m.wf(),
        !save_invalid(inp),
        0 <= i < m.prompts.len(),
        update_appends(m.prompts[i], inp) ==> m.next_version_id < i64::MAX,
    ensures
        spec_update(m, i, inp, now).wf(),
{
    let m2 = spec_update(m, i, inp, now);
    crate::tags::lemma_trim_idempotent(inp.title);
    crate::tags::lemma_normalize_idempotent(inp.tags);
    assert(wf_prompt(updated_prompt(m.prompts[i], inp, now)));
    assert(m2.prompts.len() == m.prompts.len());
    assert(forall|k: int|
        0 <= k < m.prompts.len() ==> (#[trigger] m2.prompts[k]).id == (
        #[trigger] m.prompts[k]).id);
    lemma_same_ids_has_prompt(m, m2);
    assert forall|k: int| 0 <= k < m2.versions.len() implies has_prompt(
        m2,
        (#[trigger] m2.versions[k]).prompt_id,
    ) by {
        if k < m.versions.len() {
            assert(has_prompt(m, m.versions[k].prompt_id));
        } else {
            assert(m2.versions[k].prompt_id == m.prompts[i].id);
            assert(m2.prompts[i].id == m.prompts[i].id);
        }
    }
    assert forall|k: int| 0 <= k < m2.logs.len() implies has_prompt(
        m2,
        (#[trigger] m2.logs[k]).prompt_id,
    ) by {
        assert(has_prompt(m, m.logs[k].prompt_id));
    }
}

proof fn lemma_log_wf(m: StoreModel, m2: StoreModel, inp: LogUsageModel, now: Seq<char>)
    requires
        m.wf(),
        !rating_invalid(inp),
        has_prompt(m, inp.prompt_id),
        m.next_log_id < i64::MAX,
        m2.versions == m.versions,
        m2.logs == m.logs.push(new_log(m, inp, now)),
        m2.next_prompt_id == m.next_prompt_id,
        m2.next_version_id == m.next_version_id,
        m2.next_log_id == m.next_log_id + 1,
        m2.prompts.len() == m.prompts.len(),
        forall|k: int|
            0 <= k < m.prompts.len() ==> (#[trigger] m2.prompts[k]).id == (
            #[trigger] m.prompts[k]).id,
        forall|k: int| 0 <= k < m2.prompts.len() ==> wf_prompt(#[trigger] m2.prompts[k]),
    ensures
        m2.wf(),
{
    lemma_same_ids_has_prompt(m, m2);
    assert forall|k: int| 0 <= k < m2.versions.len() implies has_prompt(
        m2,
        (#[trigger] m2.versions[k]).prompt_id,
    ) by {
        assert(has_prompt(m, m.versions[k].prompt_id));
    }
    assert forall|k: int| 0 <= k < m2.logs.len() implies has_prompt(
        m2,
        (#[trigger] m2.logs[k]).prompt_id,
    ) by {
        if k < m.logs.len() {
            assert(has_prompt(m, m.logs[k].prompt_id));
        } else {
            assert(m2.logs[k].prompt_id == inp.prompt_id);
        }
    }
    assert forall|k: int| 0 <= k < m2.logs.len() implies wf_log(#[trigger] m2.logs[k]) && 1
        <= m2.logs[k].id < m2.next_log_id by {
        if k < m.logs.len() {
            assert(m2.logs[k] == m.logs[k]);
            assert(wf_log(m.logs[k]));
        } else {
            assert(m2.logs[k] == new_log(m, inp, now));
        }
    }
    assert forall|a: int, b: int| 0 <= a < b < m2.logs.len() implies (#[trigger] m2.logs[a]).id
        != (#[trigger] m2.logs[b]).id by {
        if b < m.logs.len() {
            assert(m2.logs[a] == m.logs[a]);
            assert(m2.logs[b] == m.logs[b]);
        } else {
            assert(m2.logs[b].id == m.next_log_id);
            assert(m2.logs[a] == m.logs[a]);
            assert(m.logs[a].id < m.next_log_id);
        }
    }
    assert forall|a: int, b: int| 0 <= a < b < m2.prompts.len() implies (
    #[trigger] m2.prompts[a]).id != (#[trigger] m2.prompts[b]).id by {
        assert(m2.prompts[a].id == m.prompts[a].id);
        assert(m2.prompts[b].id == m.prompts[b].id);
        assert(m.prompts[a].id != m.prompts[b].id);
    }
    assert forall|k: int| 0 <= k < m2.prompts.len() implies 1 <= (#[trigger] m2.prompts[k]).id
        < m2.next_prompt_id by {
        assert(m2.prompts[k].id == m.prompts[k].id);
    }
}

} // verus!

// Version listing: newest first, by creation time then id.
verus! {

/// Display order of versions: `a` comes no later than `b` — newer creation
/// time first, higher id first among equal times.
pub open spec fn version_le(a: VersionModel, b: VersionModel) -> bool {
    if a.created_at == b.created_at {
        a.id >= b.id
    } else {
        lex_le(b.created_at, a.created_at)
    }
}

/// The listing order is total.
pub proof fn lemma_version_le_total(a: VersionModel, b: VersionModel)
    ensures
        version_le(a, b) || version_le(b, a),
{
    if a.created_at != b.created_at {
        lemma_lex_le_total(a.created_at, b.created_at);
    }
}

/// The listing order is transitive.
pub proof fn lemma_version_le_trans(a: VersionModel, b: VersionModel, c: VersionModel)
    requires
        version_le(a, b),
        version_le(b, c),
    ensures
        version_le(a, c),
{
    if a.created_at != b.created_at && b.created_at != c.created_at {
        lemma_lex_le_trans(c.created_at, b.created_at, a.created_at);
        if a.created_at == c.created_at {
            lemma_lex_le_antisym(b.created_at, a.created_at);
        }
    }
}

/// A version sequence in display order.
pub open spec fn sorted_versions(s: Seq<VersionModel>) -> bool {
    forall|i: int, j: int| 0 <= i < j < s.len() ==> version_le(#[trigger] s[i], #[trigger] s[j])
}

fn version_le_exec(a: &PromptVersionRecord, b: &PromptVersionRecord) -> (r: bool)
    ensures
        r == version_le(a@, b@),
{
    if str_eq(a.created_at.as_str(), b.created_at.as_str()) {
        a.id >= b.id
    } else {
        str_lex_le(b.created_at.as_str(), a.created_at.as_str())
    }
}

fn insert_version_sorted(out: &mut Vec<PromptVersionRecord>, x: PromptVersionRecord)
    requires
        sorted_versions(version_models(old(out)@)),
    ensures
        sorted_versions(version_models(final(out)@)),
        version_models(final(out)@).to_multiset() == version_models(old(out)@).to_multiset().insert(
            x@,
        ),
{
    let ghost before = version_models(out@);
    let mut j: usize = 0;
    while j < out.len() && !version_le_exec(&x, &out[j])
        invariant
            0 <= j <= out@.len(),
            out@ == old(out)@,
            before == version_models(out@),
            forall|k: int| 0 <= k < j ==> !version_le(x@, before[k]),
        decreases out@.len() - j,
    {
        j = j + 1;
    }
    proof {
        assert forall|k: int| 0 <= k < j implies version_le(#[trigger] before[k], x@) by {
            lemma_version_le_total(x@, before[k]);
        }
    }
    out.insert(j, x);
    proof {
        let after = version_models(out@);
        assert(after =~= before.insert(j as int, x@));
        lemma_to_multiset_insert(before, j as int, x@);
        assert forall|a: int, b: int| 0 <= a < b < after.len() implies version_le(
            #[trigger] after[a],
            #[trigger] after[b],
        ) by {
            if b < j {
                assert(after[a] == before[a] && after[b] == before[b]);
            } else if a > j {
                assert(after[a] == before[a - 1] && after[b] == before[b - 1]);
            } else if a < j && b == j {
                assert(after[a] == before[a] && after[b] == x@);
            } else if a == j && b > j {
                assert(after[a] == x@ && after[b] == before[b - 1]);
                assert(j < before.len());
                assert(version_le(x@, before[j as int]));
                if b - 1 > j {
                    assert(version_le(before[j as int], before[b - 1]));
                    lemma_version_le_trans(x@, before[j as int], before[b - 1]);
                }
            } else {
                assert(a < j && b > j);
                assert(after[a] == before[a] && after[b] == before[b - 1]);
            }
        }
    }
}

impl PromptStore {
    /// The versions of one prompt, newest first; ties on the timestamp are
    /// broken by higher id first. The result is exactly the prompt's version
    /// set in that order.
    pub fn list_prompt_versions(&self, prompt_id: i64) -> (r: Vec<PromptVersionRecord>)
        requires
            self@.wf(),
        ensures
            version_models(r@).to_multiset() == self@.versions.filter(
                |v: VersionModel| v.prompt_id == prompt_id,
            ).to_multiset(),
            sorted_versions(version_models(r@)),
    {
        let ghost m = self@;
        let ghost pred = |v: VersionModel| v.prompt_id == prompt_id;
        let mut out: Vec<PromptVersionRecord> = Vec::new();
        let mut i: usize = 0;
        proof {
            broadcast use vstd::seq_lib::group_to_multiset_ensures;

            assert(m.versions.take(0) =~= Seq::<VersionModel>::empty());
            reveal(Seq::filter);
            assert(version_models(out@).to_multiset() =~= m.versions.take(0).filter(
                pred,
            ).to_multiset());
        }
        while i < self.versions.len()
            invariant
                0 <= i <= self.versions@.len(),
                m == self@,
                pred == |v: VersionModel| v.prompt_id == prompt_id,
                m.versions.len() == self.versions@.len(),
                sorted_versions(version_models(out@)),
                version_models(out@).to_multiset() == m.versions.take(i as int).filter(
                    pred,
                ).to_multiset(),
            decreases self.versions@.len() - i,
        {
            proof {
                broadcast use vstd::seq_lib::group_to_multiset_ensures;

                assert(m.versions.take(i + 1) =~= m.versions.take(i as int).push(
                    m.versions[i as int],
                ));
                lemma_filter_push(m.versions.take(i as int), m.versions[i as int], pred);
            }
            if self.versions[i].prompt_id == prompt_id {
                let x = clone_version(&self.versions[i]);
                insert_version_sorted(&mut out, x);
            }
            i = i + 1;
        }
        proof {
            assert(m.versions.take(m.versions.len() as int) =~= m.versions);
        }
        out
    }
}

} // verus!
