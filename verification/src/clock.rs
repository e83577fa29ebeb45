//! The engine's clock, and the operation surface that stamps store changes
//! with the current time. Each function hands the clock's reading to the
//! corresponding timestamp-taking operation, which is verified for every
//! possible reading.
use vstd::prelude::*;

use crate::records::EngineError;
use crate::records::ExportPayload;
use crate::records::ImportPromptItem;
use crate::records::LogUsageInput;
use crate::records::Prompt;
use crate::records::SavePromptInput;
use crate::snapshot::export_payload_ok;
use crate::snapshot::import_fits;
use crate::snapshot::spec_import;
use crate::store::PromptStore;
use crate::store::log_usage_post;
use crate::store::result_model;
use crate::store::upsert_post;

verus! {

/// Relies on chrono's `Utc::now` and `DateTime::to_rfc3339`: the current
/// moment as an ISO-8601 timestamp with offset. Nothing is promised of the
/// clock's reading.
#[verifier::external_body]
fn now_iso() -> (r: String) {
    chrono::Utc::now().to_rfc3339()
}

impl PromptStore {
    /// Creates or updates a prompt, stamped with the current time. The
    /// returned record's `updated_at` field carries the timestamp used.
    pub fn upsert_prompt(&mut self, input: SavePromptInput) -> (r: Result<Prompt, EngineError>)
        requires
            old(self)@.wf(),
        ensures
            final(self)@.wf(),
            match r {
                Ok(ref p) => upsert_post(
                    old(self)@,
                    input@,
                    p.updated_at@,
                    final(self)@,
                    result_model(r),
                ),
                Err(e) => upsert_post(
                    old(self)@,
                    input@,
                    Seq::<char>::empty(),
                    final(self)@,
                    Err(e),
                ),
            },
    {
        let now = now_iso();
        let r = self.upsert_at(input, now.as_str());
        proof {
            if r is Ok {
                assert(upsert_post(old(self)@, input@, now@, self@, result_model(r)));
            }
        }
        r
    }

    /// Records one usage event, stamped with the current time.
    pub fn log_prompt_usage(&mut self, input: LogUsageInput) -> (r: Result<(), EngineError>)
        requires
            old(self)@.wf(),
        ensures
            final(self)@.wf(),
            exists|now: Seq<char>| log_usage_post(old(self)@, input@, now, final(self)@, r),
    {
        let now = now_iso();
        let r = self.log_usage_at(input, now.as_str());
        proof {
            assert(log_usage_post(old(self)@, input@, now@, self@, r));
        }
        r
    }

    /// Exports the full store as a snapshot stamped with the current time.
    pub fn export_prompts(&self) -> (r: ExportPayload)
        requires
            self@.wf(),
        ensures
            export_payload_ok(self@, r.prompts.deep_view()),
    {
        let now = now_iso();
        self.export_at(now.as_str())
    }

    /// Imports a batch of snapshot items, stamped with the current time;
    /// the whole batch lands or nothing does.
    pub fn import_prompts(&mut self, items: Vec<ImportPromptItem>) -> (r: Result<
        i64,
        EngineError,
    >)
        requires
            old(self)@.wf(),
        ensures
            final(self)@.wf(),
            exists|now: Seq<char>|
                {
                    &&& #[trigger] import_fits(old(self)@, items.deep_view(), now)
                        ==> r == Ok::<i64, EngineError>(
                        spec_import(old(self)@, items.deep_view(), now).1 as i64,
                    ) && final(self)@ == spec_import(old(self)@, items.deep_view(), now).0
                    &&& !import_fits(old(self)@, items.deep_view(), now) ==> r == Err::<
                        i64,
                        EngineError,
                    >(EngineError::Storage) && final(self)@ == old(self)@
                },
    {
        let now = now_iso();
        let ghost nv = now@;
        let ghost m0 = old(self)@;
        let ghost dv = items.deep_view();
        let r = self.import_at(items, now.as_str());
        proof {
            assert((import_fits(m0, dv, nv) ==> r == Ok::<i64, EngineError>(
                spec_import(m0, dv, nv).1 as i64,
            ) && self@ == spec_import(m0, dv, nv).0) && (!import_fits(m0, dv, nv) ==> r == Err::<
                i64,
                EngineError,
            >(EngineError::Storage) && self@ == m0));
        }
        r
    }
}

} // verus!
