//! The engine's record types, their mathematical models, and the error kinds.
//!
//! Every executable record has a ghost model whose string fields are
//! character sequences; contracts speak only about models.
use vstd::prelude::*;

verus! {

/// The failure kinds of the engine.
#[derive(Debug, Clone, Copy, PartialEq, Eq, Structural)]
pub enum EngineError {
    /// An input broke a validation rule (blank title or content, rating out of range).
    Validation,
    /// The operation targeted a prompt id that does not exist.
    NotFound,
    /// The engine itself cannot honour the request (an id counter is exhausted).
    Storage,
    /// A snapshot text could not be parsed.
    Parse,
}

/// A stored prompt. The running quality score is kept as the exact pair of
/// rating sum and rating count; the mean is their quotient.
pub struct Prompt {
    pub id: i64,
    pub title: String,
    pub content: String,
    pub tags: Vec<String>,
    pub is_favorite: bool,
    pub score_sum: i64,
    pub score_count: i64,
    pub created_at: String,
    pub updated_at: String,
}

#[verifier::ext_equal]
pub ghost struct PromptModel {
    pub id: i64,
    pub title: Seq<char>,
    pub content: Seq<char>,
    pub tags: Seq<Seq<char>>,
    pub is_favorite: bool,
    pub score_sum: i64,
    pub score_count: i64,
    pub created_at: Seq<char>,
    pub updated_at: Seq<char>,
}

impl View for Prompt {
    type V = PromptModel;

    open spec fn view(&self) -> PromptModel {
        PromptModel {
            id: self.id,
            title: self.title@,
            content: self.content@,
            tags: self.tags.deep_view(),
            is_favorite: self.is_favorite,
            score_sum: self.score_sum,
            score_count: self.score_count,
            created_at: self.created_at@,
            updated_at: self.updated_at@,
        }
    }
}

/// One immutable snapshot of a prompt's content.
pub struct PromptVersionRecord {
    pub id: i64,
    pub prompt_id: i64,
    pub content: String,
    pub change_note: String,
    pub created_at: String,
}

#[verifier::ext_equal]
pub ghost struct VersionModel {
    pub id: i64,
    pub prompt_id: i64,
    pub content: Seq<char>,
    pub change_note: Seq<char>,
    pub created_at: Seq<char>,
}

impl View for PromptVersionRecord {
    type V = VersionModel;

    open spec fn view(&self) -> VersionModel {
        VersionModel {
            id: self.id,
            prompt_id: self.prompt_id,
            content: self.content@,
            change_note: self.change_note@,
            created_at: self.created_at@,
        }
    }
}

/// One immutable usage event. The structured input payload is carried as its
/// serialized text, stored verbatim.
pub struct UsageLogRecord {
    pub id: i64,
    pub prompt_id: i64,
    pub input_vars: String,
    pub output_text: String,
    pub rating: Option<i64>,
    pub used_at: String,
}

#[verifier::ext_equal]
pub ghost struct LogModel {
    pub id: i64,
    pub prompt_id: i64,
    pub input_vars: Seq<char>,
    pub output_text: Seq<char>,
    pub rating: Option<i64>,
    pub used_at: Seq<char>,
}

impl View for UsageLogRecord {
    type V = LogModel;

    open spec fn view(&self) -> LogModel {
        LogModel {
            id: self.id,
            prompt_id: self.prompt_id,
            input_vars: self.input_vars@,
            output_text: self.output_text@,
            rating: self.rating,
            used_at: self.used_at@,
        }
    }
}

/// One tag name with the number of prompts carrying it.
pub struct TagInfo {
    pub name: String,
    pub count: i64,
}

#[verifier::ext_equal]
pub ghost struct TagCountModel {
    pub name: Seq<char>,
    pub count: i64,
}

impl View for TagInfo {
    type V = TagCountModel;

    open spec fn view(&self) -> TagCountModel {
        TagCountModel { name: self.name@, count: self.count }
    }
}

/// The caller's input for creating or updating a prompt.
pub struct SavePromptInput {
    pub id: Option<i64>,
    pub title: String,
    pub content: String,
    pub tags: Vec<String>,
    pub is_favorite: bool,
    pub change_note: Option<String>,
}

#[verifier::ext_equal]
pub ghost struct SaveModel {
    pub id: Option<i64>,
    pub title: Seq<char>,
    pub content: Seq<char>,
    pub tags: Seq<Seq<char>>,
    pub is_favorite: bool,
    pub change_note: Option<Seq<char>>,
}

impl View for SavePromptInput {
    type V = SaveModel;

    open spec fn view(&self) -> SaveModel {
        SaveModel {
            id: self.id,
            title: self.title@,
            content: self.content@,
            tags: self.tags.deep_view(),
            is_favorite: self.is_favorite,
            change_note: match self.change_note {
                Some(n) => Some(n@),
                None => None,
            },
        }
    }
}

/// The caller's input for recording one usage event.
pub struct LogUsageInput {
    pub prompt_id: i64,
    pub input_vars: String,
    pub output_text: String,
    pub rating: Option<i64>,
}

#[verifier::ext_equal]
pub ghost struct LogUsageModel {
    pub prompt_id: i64,
    pub input_vars: Seq<char>,
    pub output_text: Seq<char>,
    pub rating: Option<i64>,
}

impl View for LogUsageInput {
    type V = LogUsageModel;

    open spec fn view(&self) -> LogUsageModel {
        LogUsageModel {
            prompt_id: self.prompt_id,
            input_vars: self.input_vars@,
            output_text: self.output_text@,
            rating: self.rating,
        }
    }
}

/// One version inside an exported snapshot.
pub struct ExportVersionItem {
    pub content: String,
    pub change_note: String,
    pub created_at: String,
}

#[verifier::ext_equal]
pub ghost struct ExportVersionModel {
    pub content: Seq<char>,
    pub change_note: Seq<char>,
    pub created_at: Seq<char>,
}

impl DeepView for ExportVersionItem {
    type V = ExportVersionModel;

    open spec fn deep_view(&self) -> ExportVersionModel {
        ExportVersionModel {
            content: self.content@,
            change_note: self.change_note@,
            created_at: self.created_at@,
        }
    }
}

/// One prompt inside an exported snapshot, with its full version history.
pub struct ExportPromptItem {
    pub title: String,
    pub content: String,
    pub tags: Vec<String>,
    pub is_favorite: bool,
    pub score_sum: i64,
    pub score_count: i64,
    pub versions: Vec<ExportVersionItem>,
}

#[verifier::ext_equal]
pub ghost struct ExportPromptModel {
    pub title: Seq<char>,
    pub content: Seq<char>,
    pub tags: Seq<Seq<char>>,
    pub is_favorite: bool,
    pub score_sum: i64,
    pub score_count: i64,
    pub versions: Seq<ExportVersionModel>,
}

impl DeepView for ExportPromptItem {
    type V = ExportPromptModel;

    open spec fn deep_view(&self) -> ExportPromptModel {
        ExportPromptModel {
            title: self.title@,
            content: self.content@,
            tags: self.tags.deep_view(),
            is_favorite: self.is_favorite,
            score_sum: self.score_sum,
            score_count: self.score_count,
            versions: self.versions.deep_view(),
        }
    }
}

/// A full exported snapshot: the export time and every prompt.
pub struct ExportPayload {
    pub exported_at: String,
    pub prompts: Vec<ExportPromptItem>,
}

/// One version of an incoming snapshot item; note and timestamp may be absent.
pub struct ImportVersionItem {
    pub content: String,
    pub change_note: Option<String>,
    pub created_at: Option<String>,
}

#[verifier::ext_equal]
pub ghost struct ImportVersionModel {
    pub content: Seq<char>,
    pub change_note: Option<Seq<char>>,
    pub created_at: Option<Seq<char>>,
}

impl DeepView for ImportVersionItem {
    type V = ImportVersionModel;

    open spec fn deep_view(&self) -> ImportVersionModel {
        ImportVersionModel {
            content: self.content@,
            change_note: match self.change_note {
                Some(n) => Some(n@),
                None => None,
            },
            created_at: match self.created_at {
                Some(t) => Some(t@),
                None => None,
            },
        }
    }
}

/// One incoming snapshot item; everything but title and content may be absent.
pub struct ImportPromptItem {
    pub title: String,
    pub content: String,
    pub tags: Option<Vec<String>>,
    pub is_favorite: Option<bool>,
    pub score_sum: Option<i64>,
    pub score_count: Option<i64>,
    pub versions: Option<Vec<ImportVersionItem>>,
}

#[verifier::ext_equal]
pub ghost struct ImportPromptModel {
    pub title: Seq<char>,
    pub content: Seq<char>,
    pub tags: Option<Seq<Seq<char>>>,
    pub is_favorite: Option<bool>,
    pub score_sum: Option<i64>,
    pub score_count: Option<i64>,
    pub versions: Option<Seq<ImportVersionModel>>,
}

impl DeepView for ImportPromptItem {
    type V = ImportPromptModel;

    open spec fn deep_view(&self) -> ImportPromptModel {
        ImportPromptModel {
            title: self.title@,
            content: self.content@,
            tags: match self.tags {
                Some(ref t) => Some(t.deep_view()),
                None => None,
            },
            is_favorite: self.is_favorite,
            score_sum: self.score_sum,
            score_count: self.score_count,
            versions: match self.versions {
                Some(ref v) => Some(v.deep_view()),
                None => None,
            },
        }
    }
}

/// Clones a string; the copy has the same characters.
pub fn clone_string(s: &String) -> (r: String)
    ensures
        r@ == s@,
{
    s.clone()
}

/// Clones a tag list; the copy has the same entries.
pub fn clone_tags(v: &Vec<String>) -> (r: Vec<String>)
    ensures
        r.deep_view() == v.deep_view(),
{
    let mut r: Vec<String> = Vec::new();
    let mut i: usize = 0;
    while i < v.len()
        invariant
            0 <= i <= v@.len(),
            r@.len() == i,
            forall|k: int| 0 <= k < i ==> r.deep_view()[k] == v.deep_view()[k],
        decreases v@.len() - i,
    {
        r.push(clone_string(&v[i]));
        i = i + 1;
    }
    proof {
        assert(r.deep_view() =~~= v.deep_view());
    }
    r
}

/// Clones a prompt record; the copy has the same model.
pub fn clone_prompt(p: &Prompt) -> (r: Prompt)
    ensures
        r@ == p@,
{
    let r = Prompt {
        id: p.id,
        title: clone_string(&p.title),
        content: clone_string(&p.content),
        tags: clone_tags(&p.tags),
        is_favorite: p.is_favorite,
        score_sum: p.score_sum,
        score_count: p.score_count,
        created_at: clone_string(&p.created_at),
        updated_at: clone_string(&p.updated_at),
    };
    proof {
        assert(r@ =~= p@);
    }
    r
}

/// Clones a version record; the copy has the same model.
pub fn clone_version(v: &PromptVersionRecord) -> (r: PromptVersionRecord)
    ensures
        r@ == v@,
{
    let r = PromptVersionRecord {
        id: v.id,
        prompt_id: v.prompt_id,
        content: clone_string(&v.content),
        change_note: clone_string(&v.change_note),
        created_at: clone_string(&v.created_at),
    };
    proof {
        assert(r@ =~= v@);
    }
    r
}

} // verus!
