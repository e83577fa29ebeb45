//! Filtered, sorted prompt listings: free-text search over title, content and
//! the encoded tag blob; whole-tag filtering; three fixed orderings.
use vstd::prelude::*;

use crate::records::Prompt;
use crate::records::PromptModel;
use crate::records::clone_prompt;
use crate::seqs::lemma_filter_push;
use crate::seqs::lemma_to_multiset_insert;
use crate::store::PromptStore;
use crate::store::StoreModel;
use crate::store::prompt_models;
use crate::tags::encode_tags;
use crate::tags::has_tag_key;
use crate::tags::spec_encode_tags;
use crate::tags::tags_have_key;
use crate::text::contains_chars;
use crate::text::contains_seq;
use crate::text::lex_le;
use crate::text::lemma_lex_le_antisym;
use crate::text::lemma_lex_le_total;
use crate::text::lemma_lex_le_trans;
use crate::text::lower_chars;
use crate::text::lower_seq;
use crate::text::str_chars;
use crate::text::str_eq;
use crate::text::str_lex_le;
use crate::text::trim_chars;
use crate::text::trim_seq;

verus! {

/// The three listing orders.
#[derive(Debug, Clone, Copy, PartialEq, Eq, Structural)]
pub enum SortMode {
    /// Average rating descending, then last update descending.
    Score,
    /// Creation time descending.
    Created,
    /// Last update descending: the default.
    Updated,
}

/// Which order a sort selector names; anything but the two known words,
/// absence included, selects the default.
pub open spec fn sort_mode_of(o: Option<Seq<char>>) -> SortMode {
    match o {
        Some(s) => if s == "score"@ {
            SortMode::Score
        } else if s == "created"@ {
            SortMode::Created
        } else {
            SortMode::Updated
        },
        None => SortMode::Updated,
    }
}

/// A prompt matches a search term when its title, content or encoded tag blob
/// contains it as a substring.
pub open spec fn matches_search(p: PromptModel, term: Seq<char>) -> bool {
    contains_seq(p.title, term) || contains_seq(p.content, term) || contains_seq(
        spec_encode_tags(p.tags),
        term,
    )
}

/// The model of an optional string argument.
pub open spec fn opt_model(o: Option<String>) -> Option<Seq<char>> {
    match o {
        Some(s) => Some(s@),
        None => None,
    }
}

/// An optional filter argument, trimmed; absence counts as blank.
pub open spec fn opt_trim(o: Option<Seq<char>>) -> Seq<char> {
    match o {
        Some(s) => trim_seq(s),
        None => Seq::empty(),
    }
}

/// The conjunction of the two optional filters; a blank filter is not applied.
pub open spec fn list_pred(
    p: PromptModel,
    search: Option<Seq<char>>,
    tag: Option<Seq<char>>,
) -> bool {
    &&& (opt_trim(search).len() == 0 || matches_search(p, opt_trim(search)))
    &&& (opt_trim(tag).len() == 0 || has_tag_key(p.tags, lower_seq(opt_trim(tag))))
}

/// A meaningful score pair: non-negative count and sum.
pub open spec fn score_ok(p: PromptModel) -> bool {
    p.score_count >= 0 && p.score_sum >= 0
}

/// The numerator of a prompt's average rating (zero while unrated).
pub open spec fn avg_num(p: PromptModel) -> int {
    if p.score_count == 0 {
        0
    } else {
        p.score_sum as int
    }
}

/// The denominator of a prompt's average rating (one while unrated).
pub open spec fn avg_den(p: PromptModel) -> int {
    if p.score_count == 0 {
        1
    } else {
        p.score_count as int
    }
}

/// `a`'s average rating is strictly greater than `b`'s, compared exactly by
/// cross-multiplication.
pub open spec fn avg_gt(a: PromptModel, b: PromptModel) -> bool {
    avg_num(a) * avg_den(b) > avg_num(b) * avg_den(a)
}

/// The two averages are equal.
pub open spec fn avg_eq(a: PromptModel, b: PromptModel) -> bool {
    avg_num(a) * avg_den(b) == avg_num(b) * avg_den(a)
}

/// Update-recency order: later `updated_at` first, lower id first on a tie.
pub open spec fn updated_le(a: PromptModel, b: PromptModel) -> bool {
    if a.updated_at == b.updated_at {
        a.id <= b.id
    } else {
        lex_le(b.updated_at, a.updated_at)
    }
}

/// The listing order for one sort mode.
pub open spec fn prompt_le(mode: SortMode, a: PromptModel, b: PromptModel) -> bool {
    match mode {
        SortMode::Updated => updated_le(a, b),
        SortMode::Created => if a.created_at == b.created_at {
            a.id <= b.id
        } else {
            lex_le(b.created_at, a.created_at)
        },
        SortMode::Score => if avg_eq(a, b) {
            updated_le(a, b)
        } else {
            avg_gt(a, b)
        },
    }
}

/// A prompt sequence in the listing order of one sort mode.
pub open spec fn sorted_prompts(mode: SortMode, s: Seq<PromptModel>) -> bool {
    forall|i: int, j: int|
        0 <= i < j < s.len() ==> prompt_le(mode, #[trigger] s[i], #[trigger] s[j])
}

pub proof fn lemma_prompt_le_total(mode: SortMode, a: PromptModel, b: PromptModel)
    ensures
        prompt_le(mode, a, b) || prompt_le(mode, b, a),
{
    if a.updated_at != b.updated_at {
        lemma_lex_le_total(a.updated_at, b.updated_at);
    }
    if a.created_at != b.created_at {
        lemma_lex_le_total(a.created_at, b.created_at);
    }
}

proof fn lemma_avg_gt_trans(a: PromptModel, b: PromptModel, c: PromptModel)
    requires
        score_ok(a),
        score_ok(b),
        score_ok(c),
        avg_gt(a, b),
        avg_gt(b, c),
    ensures
        avg_gt(a, c),
{
    let na = avg_num(a);
    let da = avg_den(a);
    let nb = avg_num(b);
    let db = avg_den(b);
    let nc = avg_num(c);
    let dc = avg_den(c);
    assert(da >= 1 && db >= 1 && dc >= 1);
    assert(na * dc > nc * da) by (nonlinear_arith)
        requires
            na * db > nb * da,
            nb * dc > nc * db,
            da >= 1,
            db >= 1,
            dc >= 1,
    ;
}

proof fn lemma_avg_eq_gt(a: PromptModel, b: PromptModel, c: PromptModel)
    requires
        score_ok(a),
        score_ok(b),
        score_ok(c),
    ensures
        avg_eq(a, b) && avg_gt(b, c) ==> avg_gt(a, c),
        avg_gt(a, b) && avg_eq(b, c) ==> avg_gt(a, c),
        avg_eq(a, b) && avg_eq(b, c) ==> avg_eq(a, c),
{
    let na = avg_num(a);
    let da = avg_den(a);
    let nb = avg_num(b);
    let db = avg_den(b);
    let nc = avg_num(c);
    let dc = avg_den(c);
    assert(da >= 1 && db >= 1 && dc >= 1);
    if avg_eq(a, b) && avg_gt(b, c) {
        assert(na * dc > nc * da) by (nonlinear_arith)
            requires
                na * db == nb * da,
                nb * dc > nc * db,
                da >= 1,
                db >= 1,
                dc >= 1,
        ;
    }
    if avg_gt(a, b) && avg_eq(b, c) {
        assert(na * dc > nc * da) by (nonlinear_arith)
            requires
                na * db > nb * da,
                nb * dc == nc * db,
                da >= 1,
                db >= 1,
                dc >= 1,
        ;
    }
    if avg_eq(a, b) && avg_eq(b, c) {
        assert(na * dc == nc * da) by (nonlinear_arith)
            requires
                na * db == nb * da,
                nb * dc == nc * db,
                da >= 1,
                db >= 1,
                dc >= 1,
        ;
    }
}

proof fn lemma_updated_le_trans(a: PromptModel, b: PromptModel, c: PromptModel)
    requires
        updated_le(a, b),
        updated_le(b, c),
    ensures
        updated_le(a, c),
{
    if a.updated_at != b.updated_at && b.updated_at != c.updated_at {
        lemma_lex_le_trans(c.updated_at, b.updated_at, a.updated_at);
        if a.updated_at == c.updated_at {
            lemma_lex_le_antisym(b.updated_at, a.updated_at);
        }
    }
}

pub proof fn lemma_prompt_le_trans(mode: SortMode, a: PromptModel, b: PromptModel, c: PromptModel)
    requires
        score_ok(a),
        score_ok(b),
        score_ok(c),
        prompt_le(mode, a, b),
        prompt_le(mode, b, c),
    ensures
        prompt_le(mode, a, c),
{
    match mode {
        SortMode::Updated => {
            lemma_updated_le_trans(a, b, c);
        },
        SortMode::Created => {
            if a.created_at != b.created_at && b.created_at != c.created_at {
                lemma_lex_le_trans(c.created_at, b.created_at, a.created_at);
                if a.created_at == c.created_at {
                    lemma_lex_le_antisym(b.created_at, a.created_at);
                }
            }
        },
        SortMode::Score => {
            lemma_avg_eq_gt(a, b, c);
            if avg_gt(a, b) && avg_gt(b, c) {
                lemma_avg_gt_trans(a, b, c);
            }
            if avg_eq(a, b) && avg_eq(b, c) {
                lemma_updated_le_trans(a, b, c);
            }
        },
    }
}

proof fn lemma_i64_prod_fits(x: i64, y: i64)
    requires
        x >= 0,
        y >= 0,
    ensures
        0 <= (x as int) * (y as int) <= (i64::MAX as int) * (i64::MAX as int),
        (i64::MAX as int) * (i64::MAX as int) < i128::MAX as int,
{
    assert(0 <= (x as int) * (y as int) <= (i64::MAX as int) * (i64::MAX as int))
        by (nonlinear_arith)
        requires
            0 <= x as int <= i64::MAX as int,
            0 <= y as int <= i64::MAX as int,
    ;
}

fn avg_gt_exec(a: &Prompt, b: &Prompt) -> (r: bool)
    requires
        score_ok(a@),
        score_ok(b@),
    ensures
        r == avg_gt(a@, b@),
{
    let (na, da): (i64, i64) = if a.score_count == 0 {
        (0, 1)
    } else {
        (a.score_sum, a.score_count)
    };
    let (nb, db): (i64, i64) = if b.score_count == 0 {
        (0, 1)
    } else {
        (b.score_sum, b.score_count)
    };
    proof {
        lemma_i64_prod_fits(na, db);
        lemma_i64_prod_fits(nb, da);
    }
    let x: i128 = (na as i128) * (db as i128);
    let y: i128 = (nb as i128) * (da as i128);
    x > y
}

fn avg_eq_exec(a: &Prompt, b: &Prompt) -> (r: bool)
    requires
        score_ok(a@),
        score_ok(b@),
    ensures
        r == avg_eq(a@, b@),
{
    let (na, da): (i64, i64) = if a.score_count == 0 {
        (0, 1)
    } else {
        (a.score_sum, a.score_count)
    };
    let (nb, db): (i64, i64) = if b.score_count == 0 {
        (0, 1)
    } else {
        (b.score_sum, b.score_count)
    };
    proof {
        lemma_i64_prod_fits(na, db);
        lemma_i64_prod_fits(nb, da);
    }
    let x: i128 = (na as i128) * (db as i128);
    let y: i128 = (nb as i128) * (da as i128);
    x == y
}

fn updated_le_exec(a: &Prompt, b: &Prompt) -> (r: bool)
    ensures
        r == updated_le(a@, b@),
{
    if str_eq(a.updated_at.as_str(), b.updated_at.as_str()) {
        a.id <= b.id
    } else {
        str_lex_le(b.updated_at.as_str(), a.updated_at.as_str())
    }
}

fn prompt_le_exec(mode: SortMode, a: &Prompt, b: &Prompt) -> (r: bool)
    requires
        score_ok(a@),
        score_ok(b@),
    ensures
        r == prompt_le(mode, a@, b@),
{
    match mode {
        SortMode::Updated => updated_le_exec(a, b),
        SortMode::Created => {
            if str_eq(a.created_at.as_str(), b.created_at.as_str()) {
                a.id <= b.id
            } else {
                str_lex_le(b.created_at.as_str(), a.created_at.as_str())
            }
        },
        SortMode::Score => {
            if avg_eq_exec(a, b) {
                updated_le_exec(a, b)
            } else {
                avg_gt_exec(a, b)
            }
        },
    }
}

pub(crate) fn insert_prompt_sorted(mode: SortMode, out: &mut Vec<Prompt>, x: Prompt)
    requires
        sorted_prompts(mode, prompt_models(old(out)@)),
        score_ok(x@),
        forall|k: int|
            0 <= k < old(out)@.len() ==> score_ok(#[trigger] prompt_models(old(out)@)[k]),
    ensures
        sorted_prompts(mode, prompt_models(final(out)@)),
        prompt_models(final(out)@).to_multiset() == prompt_models(old(out)@).to_multiset().insert(
            x@,
        ),
        forall|k: int|
            0 <= k < final(out)@.len() ==> score_ok(#[trigger] prompt_models(final(out)@)[k]),
{
    let ghost before = prompt_models(out@);
    proof {
        assert forall|k: int| 0 <= k < out@.len() implies score_ok((#[trigger] out@[k])@) by {
            assert(before[k] == out@[k]@);
        }
    }
    let mut j: usize = 0;
    while j < out.len() && !prompt_le_exec(mode, &x, &out[j])
        invariant
            0 <= j <= out@.len(),
            out@ == old(out)@,
            before == prompt_models(out@),
            score_ok(x@),
            forall|k: int| 0 <= k < before.len() ==> score_ok(#[trigger] before[k]),
            forall|k: int| 0 <= k < out@.len() ==> score_ok((#[trigger] out@[k])@),
            forall|k: int| 0 <= k < j ==> !prompt_le(mode, x@, before[k]),
        decreases out@.len() - j,
    {
        j = j + 1;
    }
    proof {
        assert forall|k: int| 0 <= k < j implies prompt_le(mode, #[trigger] before[k], x@) by {
            lemma_prompt_le_total(mode, x@, before[k]);
        }
    }
    out.insert(j, x);
    proof {
        let after = prompt_models(out@);
        assert(after =~= before.insert(j as int, x@));
        lemma_to_multiset_insert(before, j as int, x@);
        assert forall|k: int| 0 <= k < after.len() implies score_ok(#[trigger] after[k]) by {
            if k < j {
                assert(after[k] == before[k]);
            } else if k == j {
                assert(after[k] == x@);
            } else {
                assert(after[k] == before[k - 1]);
            }
        }
        assert forall|a: int, b: int| 0 <= a < b < after.len() implies prompt_le(
            mode,
            #[trigger] after[a],
            #[trigger] after[b],
        ) by {
            if b < j {
                assert(after[a] == before[a] && after[b] == before[b]);
            } else if a > j {
                assert(after[a] == before[a - 1] && after[b] == before[b - 1]);
            } else if a < j && b == j {
                assert(after[a] == before[a] && after[b] == x@);
            } else if a == j && b > j {
                assert(after[a] == x@ && after[b] == before[b - 1]);
                assert(j < before.len());
                assert(prompt_le(mode, x@, before[j as int]));
                if b - 1 > j {
                    assert(prompt_le(mode, before[j as int], before[b - 1]));
                    lemma_prompt_le_trans(mode, x@, before[j as int], before[b - 1]);
                }
            } else {
                assert(a < j && b > j);
                assert(after[a] == before[a] && after[b] == before[b - 1]);
            }
        }
    }
}

fn matches_search_exec(p: &Prompt, term: &Vec<char>) -> (r: bool)
    ensures
        r == matches_search(p@, term@),
{
    let tcs = str_chars(p.title.as_str());
    if contains_chars(&tcs, term) {
        return true;
    }
    let ccs = str_chars(p.content.as_str());
    if contains_chars(&ccs, term) {
        return true;
    }
    let blob = encode_tags(&p.tags);
    let bcs = str_chars(blob.as_str());
    contains_chars(&bcs, term)
}

impl PromptStore {
    /// The prompts that pass the optional search and tag filters, in the
    /// selected order: `"score"` by average rating descending then update
    /// recency, `"created"` by creation time descending, anything else by
    /// update recency; ties end at lower id first.
    pub fn list_prompts(
        &self,
        search: Option<String>,
        tag: Option<String>,
        sort_by: Option<String>,
    ) -> (r: Vec<Prompt>)
        requires
            self@.wf(),
        ensures
            prompt_models(r@).to_multiset() == self@.prompts.filter(
                |p: PromptModel| list_pred(p, opt_model(search), opt_model(tag)),
            ).to_multiset(),
            sorted_prompts(sort_mode_of(opt_model(sort_by)), prompt_models(r@)),
    {
        let ghost m = self@;
        let ghost pred = |p: PromptModel| list_pred(p, opt_model(search), opt_model(tag));
        let mode: SortMode = match &sort_by {
            Some(s) => {
                if str_eq(s.as_str(), "score") {
                    SortMode::Score
                } else if str_eq(s.as_str(), "created") {
                    SortMode::Created
                } else {
                    SortMode::Updated
                }
            },
            None => SortMode::Updated,
        };
        proof {
            assert(mode == sort_mode_of(opt_model(sort_by)));
        }
        let term: Option<Vec<char>> = match &search {
            Some(s) => {
                let cs = str_chars(s.as_str());
                let t = trim_chars(&cs);
                if t.len() == 0 {
                    None
                } else {
                    Some(t)
                }
            },
            None => None,
        };
        let key: Option<Vec<char>> = match &tag {
            Some(s) => {
                let cs = str_chars(s.as_str());
                let t = trim_chars(&cs);
                if t.len() == 0 {
                    None
                } else {
                    Some(lower_chars(&t))
                }
            },
            None => None,
        };
        let mut out: Vec<Prompt> = Vec::new();
        let mut i: usize = 0;
        proof {
            broadcast use vstd::seq_lib::group_to_multiset_ensures;

            assert(m.prompts.take(0) =~= Seq::<PromptModel>::empty());
            reveal(Seq::filter);
            assert(prompt_models(out@).to_multiset() =~= m.prompts.take(0).filter(
                pred,
            ).to_multiset());
        }
        while i < self.prompts.len()
            invariant
                0 <= i <= self.prompts@.len(),
                m == self@,
                m.wf(),
                pred == |p: PromptModel| list_pred(p, opt_model(search), opt_model(tag)),
                mode == sort_mode_of(opt_model(sort_by)),
                m.prompts.len() == self.prompts@.len(),
                match term {
                    Some(ref t) => opt_trim(opt_model(search)) == t@ && t@.len() > 0,
                    None => opt_trim(opt_model(search)).len() == 0,
                },
                match key {
                    Some(ref k) => opt_trim(opt_model(tag)).len() > 0 && k@ == lower_seq(
                        opt_trim(opt_model(tag)),
                    ),
                    None => opt_trim(opt_model(tag)).len() == 0,
                },
                sorted_prompts(mode, prompt_models(out@)),
                forall|k: int| 0 <= k < out@.len() ==> score_ok(#[trigger] prompt_models(out@)[k]),
                prompt_models(out@).to_multiset() == m.prompts.take(i as int).filter(
                    pred,
                ).to_multiset(),
            decreases self.prompts@.len() - i,
        {
            proof {
                broadcast use vstd::seq_lib::group_to_multiset_ensures;

                assert(m.prompts.take(i + 1) =~= m.prompts.take(i as int).push(
                    m.prompts[i as int],
                ));
                lemma_filter_push(m.prompts.take(i as int), m.prompts[i as int], pred);
            }
            let p = &self.prompts[i];
            let search_ok = match &term {
                Some(t) => matches_search_exec(p, t),
                None => true,
            };
            let tag_ok = match &key {
                Some(k) => tags_have_key(&p.tags, k),
                None => true,
            };
            proof {
                assert((search_ok && tag_ok) == pred(m.prompts[i as int]));
                assert(score_ok(m.prompts[i as int]));
            }
            if search_ok && tag_ok {
                let x = clone_prompt(p);
                insert_prompt_sorted(mode, &mut out, x);
            }
            i = i + 1;
        }
        proof {
            assert(m.prompts.take(m.prompts.len() as int) =~= m.prompts);
        }
        out
    }
}

} // verus!

// Tag frequency summary: every occurring tag with its prompt count.
use crate::records::TagCountModel;
use crate::records::TagInfo;
use crate::records::clone_string;
use crate::tags::spec_normalize;
use crate::text::chars_eq;

verus! {

/// How many entries of one tag list equal `name`.
pub open spec fn count_in_tags(tags: Seq<Seq<char>>, name: Seq<char>) -> int
    decreases tags.len(),
{
    if tags.len() == 0 {
        0
    } else {
        count_in_tags(tags.drop_last(), name) + if tags.last() == name {
            1int
        } else {
            0int
        }
    }
}

/// How many prompts of the sequence carry `name` (each normalized prompt
/// carries a tag at most once).
pub open spec fn count_tag(ps: Seq<PromptModel>, name: Seq<char>) -> int
    decreases ps.len(),
{
    if ps.len() == 0 {
        0
    } else {
        count_tag(ps.drop_last(), name) + count_in_tags(ps.last().tags, name)
    }
}

/// `name` occurs somewhere among the prompts' tags.
pub open spec fn tag_occurs(ps: Seq<PromptModel>, name: Seq<char>) -> bool {
    exists|i: int, j: int|
        0 <= i < ps.len() && 0 <= j < ps[i].tags.len() && #[trigger] ps[i].tags[j] == name
}

/// Summary order: higher count first, then name ascending.
pub open spec fn tag_le(a: TagCountModel, b: TagCountModel) -> bool {
    if a.count == b.count {
        lex_le(a.name, b.name)
    } else {
        a.count > b.count
    }
}

/// A summary sequence in display order.
pub open spec fn sorted_tags(s: Seq<TagCountModel>) -> bool {
    forall|i: int, j: int| 0 <= i < j < s.len() ==> tag_le(#[trigger] s[i], #[trigger] s[j])
}

pub open spec fn tag_models(s: Seq<TagInfo>) -> Seq<TagCountModel> {
    s.map_values(|t: TagInfo| t@)
}

proof fn lemma_tag_le_total(a: TagCountModel, b: TagCountModel)
    ensures
        tag_le(a, b) || tag_le(b, a),
{
    if a.count == b.count {
        lemma_lex_le_total(a.name, b.name);
    }
}

proof fn lemma_tag_le_trans(a: TagCountModel, b: TagCountModel, c: TagCountModel)
    requires
        tag_le(a, b),
        tag_le(b, c),
    ensures
        tag_le(a, c),
{
    if a.count == b.count && b.count == c.count {
        lemma_lex_le_trans(a.name, b.name, c.name);
    }
}

/// A tag list with pairwise distinct entries counts any name at most once;
/// the count is exactly one for the names it holds.
proof fn lemma_count_in_distinct(tags: Seq<Seq<char>>, name: Seq<char>)
    requires
        forall|i: int, j: int|
            0 <= i < j < tags.len() ==> #[trigger] tags[i] != #[trigger] tags[j],
    ensures
        0 <= count_in_tags(tags, name) <= 1,
        count_in_tags(tags, name) == 1 <==> tags.contains(name),
    decreases tags.len(),
{
    if tags.len() > 0 {
        let dl = tags.drop_last();
        assert(forall|i: int| 0 <= i < dl.len() ==> dl[i] == tags[i]);
        lemma_count_in_distinct(dl, name);
        if tags.last() == name {
            if dl.contains(name) {
                let w = choose|w: int| 0 <= w < dl.len() && dl[w] == name;
                assert(tags[w] == tags[tags.len() - 1]);
                assert(false);
            }
            assert(tags[tags.len() - 1] == name);
            assert(tags.contains(name));
        } else {
            if dl.contains(name) {
                let w = choose|w: int| 0 <= w < dl.len() && dl[w] == name;
                assert(tags[w] == name);
                assert(tags.contains(name));
            }
            if tags.contains(name) {
                let w = choose|w: int| 0 <= w < tags.len() && tags[w] == name;
                assert(w < dl.len());
                assert(dl[w] == name);
                assert(dl.contains(name));
            }
        }
    }
}

/// The entries of a normalized tag list are pairwise distinct.
pub proof fn lemma_normalized_distinct(tags: Seq<Seq<char>>)
    requires
        tags == spec_normalize(tags),
    ensures
        forall|i: int, j: int|
            0 <= i < j < tags.len() ==> #[trigger] tags[i] != #[trigger] tags[j],
{
    crate::tags::lemma_normalize_idempotent(tags);
    assert forall|i: int, j: int| 0 <= i < j < tags.len() implies #[trigger] tags[i]
        != #[trigger] tags[j] by {
        assert(spec_normalize(tags)[i] == tags[i]);
        assert(spec_normalize(tags)[j] == tags[j]);
    }
}

/// Over well-formed prompts, a tag's count is bounded by the number of
/// prompts and is positive exactly when the tag occurs.
proof fn lemma_count_tag_bounds(ps: Seq<PromptModel>, name: Seq<char>)
    requires
        forall|i: int| 0 <= i < ps.len() ==> crate::store::wf_prompt(#[trigger] ps[i]),
    ensures
        0 <= count_tag(ps, name) <= ps.len(),
        count_tag(ps, name) > 0 <==> tag_occurs(ps, name),
    decreases ps.len(),
{
    if ps.len() > 0 {
        let dl = ps.drop_last();
        assert(forall|i: int| 0 <= i < dl.len() ==> dl[i] == ps[i]);
        lemma_count_tag_bounds(dl, name);
        let last = ps[ps.len() - 1];
        lemma_normalized_distinct(last.tags);
        lemma_count_in_distinct(last.tags, name);
        if count_tag(ps, name) > 0 {
            if count_tag(dl, name) > 0 {
                let (i, j) = choose|i: int, j: int|
                    0 <= i < dl.len() && 0 <= j < dl[i].tags.len() && #[trigger] dl[i].tags[j]
                        == name;
                assert(0 <= i < ps.len() && 0 <= j < ps[i].tags.len() && ps[i].tags[j] == name);
            } else {
                assert(last.tags.contains(name));
                let j = choose|j: int| 0 <= j < last.tags.len() && last.tags[j] == name;
                assert(ps[ps.len() - 1].tags[j] == name);
            }
        }
        if tag_occurs(ps, name) {
            let (i, j) = choose|i: int, j: int|
                0 <= i < ps.len() && 0 <= j < ps[i].tags.len() && #[trigger] ps[i].tags[j]
                    == name;
            if i < dl.len() {
                assert(dl[i].tags[j] == name);
                assert(tag_occurs(dl, name));
            } else {
                assert(last.tags[j] == name);
                assert(last.tags.contains(name));
            }
        }
    }
}

fn find_name(names: &Vec<String>, t: &Vec<char>) -> (r: Option<usize>)
    ensures
        match r {
            Some(k) => 0 <= k < names@.len() && names.deep_view()[k as int] == t@,
            None => !names.deep_view().contains(t@),
        },
{
    let mut k: usize = 0;
    while k < names.len()
        invariant
            0 <= k <= names@.len(),
            names.deep_view().len() == names@.len(),
            forall|w: int| 0 <= w < k ==> names.deep_view()[w] != t@,
        decreases names@.len() - k,
    {
        let cs = str_chars(names[k].as_str());
        proof {
            assert(cs@ == names.deep_view()[k as int]);
        }
        if chars_eq(&cs, t) {
            return Some(k);
        }
        k = k + 1;
    }
    None
}

fn tag_le_exec(a: &TagInfo, b: &TagInfo) -> (r: bool)
    ensures
        r == tag_le(a@, b@),
{
    if a.count == b.count {
        str_lex_le(a.name.as_str(), b.name.as_str())
    } else {
        a.count > b.count
    }
}

fn insert_tag_sorted(out: &mut Vec<TagInfo>, x: TagInfo)
    requires
        sorted_tags(tag_models(old(out)@)),
        forall|k: int|
            0 <= k < old(out)@.len() ==> (#[trigger] tag_models(old(out)@)[k]).name != x@.name,
        forall|k1: int, k2: int|
            0 <= k1 < k2 < old(out)@.len() ==> (#[trigger] tag_models(old(out)@)[k1]).name != (
            #[trigger] tag_models(old(out)@)[k2]).name,
    ensures
        sorted_tags(tag_models(final(out)@)),
        final(out)@.len() == old(out)@.len() + 1,
        tag_models(final(out)@).contains(x@),
        forall|k: int|
            0 <= k < final(out)@.len() ==> (#[trigger] tag_models(final(out)@)[k] == x@
                || tag_models(old(out)@).contains(tag_models(final(out)@)[k])),
        forall|k: int|
            0 <= k < old(out)@.len() ==> tag_models(final(out)@).contains(
                #[trigger] tag_models(old(out)@)[k],
            ),
        forall|k1: int, k2: int|
            0 <= k1 < k2 < final(out)@.len() ==> (#[trigger] tag_models(final(out)@)[k1]).name != (
            #[trigger] tag_models(final(out)@)[k2]).name,
{
    let ghost before = tag_models(out@);
    let mut j: usize = 0;
    while j < out.len() && !tag_le_exec(&x, &out[j])
        invariant
            0 <= j <= out@.len(),
            out@ == old(out)@,
            before == tag_models(out@),
            forall|k: int| 0 <= k < j ==> !tag_le(x@, before[k]),
        decreases out@.len() - j,
    {
        j = j + 1;
    }
    proof {
        assert forall|k: int| 0 <= k < j implies tag_le(#[trigger] before[k], x@) by {
            lemma_tag_le_total(x@, before[k]);
        }
    }
    out.insert(j, x);
    proof {
        let after = tag_models(out@);
        assert(after =~= before.insert(j as int, x@));
        assert(after[j as int] == x@);
        assert forall|a: int, b: int| 0 <= a < b < after.len() implies tag_le(
            #[trigger] after[a],
            #[trigger] after[b],
        ) by {
            if b < j {
                assert(after[a] == before[a] && after[b] == before[b]);
            } else if a > j {
                assert(after[a] == before[a - 1] && after[b] == before[b - 1]);
            } else if a < j && b == j {
                assert(after[a] == before[a] && after[b] == x@);
            } else if a == j && b > j {
                assert(after[a] == x@ && after[b] == before[b - 1]);
                assert(j < before.len());
                assert(tag_le(x@, before[j as int]));
                if b - 1 > j {
                    assert(tag_le(before[j as int], before[b - 1]));
                    lemma_tag_le_trans(x@, before[j as int], before[b - 1]);
                }
            } else {
                assert(a < j && b > j);
                assert(after[a] == before[a] && after[b] == before[b - 1]);
            }
        }
        assert forall|k: int| 0 <= k < before.len() implies after.contains(
            #[trigger] before[k],
        ) by {
            if k < j {
                assert(after[k] == before[k]);
            } else {
                assert(after[k + 1] == before[k]);
            }
        }
        assert forall|k1: int, k2: int| 0 <= k1 < k2 < after.len() implies (
        #[trigger] after[k1]).name != (#[trigger] after[k2]).name by {
            if k1 == j {
                assert(after[k2] == before[k2 - 1]);
            } else if k2 == j {
                assert(after[k1] == before[k1]);
            } else {
                let w1: int = if k1 < j { k1 } else { k1 - 1 };
                let w2: int = if k2 < j { k2 } else { k2 - 1 };
                assert(after[k1] == before[w1]);
                assert(after[k2] == before[w2]);
            }
        }
    }
}

impl PromptStore {
    /// Every tag that occurs, with the number of prompts carrying it, sorted
    /// by count descending and name ascending. The clauses pin the summary
    /// down completely: right counts, no duplicates, nothing missing.
    #[verifier::rlimit(100)]
    pub fn list_tags(&self) -> (r: Vec<TagInfo>)
        requires
            self@.wf(),
        ensures
            sorted_tags(tag_models(r@)),
            forall|k: int|
                0 <= k < r@.len() ==> (#[trigger] tag_models(r@)[k]).count == count_tag(
                    self@.prompts,
                    tag_models(r@)[k].name,
                ) && tag_models(r@)[k].count >= 1,
            forall|k1: int, k2: int|
                0 <= k1 < k2 < r@.len() ==> (#[trigger] tag_models(r@)[k1]).name != (
                #[trigger] tag_models(r@)[k2]).name,
            forall|i: int, j: int|
                0 <= i < self@.prompts.len() && 0 <= j < self@.prompts[i].tags.len()
                    ==> exists|k: int|
                    0 <= k < r@.len() && (#[trigger] tag_models(r@)[k]).name == #[trigger] self@.prompts[i].tags[j],
    {
        let ghost ps = self@.prompts;
        let mut names: Vec<String> = Vec::new();
        let mut counts: Vec<i64> = Vec::new();
        let mut i: usize = 0;
        proof {
            assert(ps.take(0) =~= Seq::<PromptModel>::empty());
        }
        while i < self.prompts.len()
            invariant
                0 <= i <= self.prompts@.len(),
                ps == self@.prompts,
                self@.wf(),
                ps.len() == self.prompts@.len(),
                names@.len() == counts@.len(),
                names.deep_view().len() == names@.len(),
                forall|a: int, b: int|
                    0 <= a < b < names@.len() ==> names.deep_view()[a] != names.deep_view()[b],
                forall|k: int|
                    0 <= k < names@.len() ==> #[trigger] counts@[k] == count_tag(
                        ps.take(i as int),
                        names.deep_view()[k],
                    ) && counts@[k] >= 1,
                forall|a: int, b: int|
                    0 <= a < i && 0 <= b < ps[a].tags.len() ==> names.deep_view().contains(
                        #[trigger] ps[a].tags[b],
                    ),
            decreases self.prompts@.len() - i,
        {
            let p = &self.prompts[i];
            let ghost ptags = ps[i as int].tags;
            proof {
                assert(p@ == ps[i as int]);
                assert(crate::store::wf_prompt(ps[i as int]));
                lemma_normalized_distinct(ptags);
                assert(ptags.take(0) =~= Seq::<Seq<char>>::empty());
            }
            let mut j: usize = 0;
            while j < p.tags.len()
                invariant
                    0 <= j <= p.tags@.len(),
                    ps == self@.prompts,
                    self@.wf(),
                    0 <= i < ps.len(),
                    p == &self.prompts@[i as int],
                    p@ == ps[i as int],
                    ptags == ps[i as int].tags,
                    ptags.len() == p.tags@.len(),
                    forall|a: int, b: int|
                        0 <= a < b < ptags.len() ==> #[trigger] ptags[a] != #[trigger] ptags[b],
                    names@.len() == counts@.len(),
                    names.deep_view().len() == names@.len(),
                    forall|a: int, b: int|
                        0 <= a < b < names@.len() ==> names.deep_view()[a] != names.deep_view()[b],
                    forall|k: int|
                        0 <= k < names@.len() ==> #[trigger] counts@[k] == count_tag(
                            ps.take(i as int),
                            names.deep_view()[k],
                        ) + count_in_tags(ptags.take(j as int), names.deep_view()[k]) && counts@[k]
                            >= 1,
                    forall|a: int, b: int|
                        0 <= a < i && 0 <= b < ps[a].tags.len()
                            ==> names.deep_view().contains(#[trigger] ps[a].tags[b]),
                    forall|b: int|
                        0 <= b < j ==> names.deep_view().contains(#[trigger] ptags[b]),
                decreases p.tags@.len() - j,
            {
                let cs = str_chars(p.tags[j].as_str());
                proof {
                    assert(cs@ == ptags[j as int]);
                    assert(ptags.take(j + 1).drop_last() =~= ptags.take(j as int));
                    assert(ptags.take(j + 1).last() == ptags[j as int]);
                }
                match find_name(&names, &cs) {
                    Some(k) => {
                        proof {
                            lemma_count_tag_bounds_for(ps, i as int, names.deep_view()[k as int]);
                            lemma_count_in_distinct(
                                ptags.take(j as int),
                                names.deep_view()[k as int],
                            );
                            if ptags.take(j as int).contains(ptags[j as int]) {
                                let w = choose|w: int|
                                    0 <= w < j && ptags.take(j as int)[w] == ptags[j as int];
                                assert(ptags[w] == ptags[j as int]);
                                assert(false);
                            }
                        }
                        let c = counts[k];
                        let ghost old_counts = counts@;
                        counts.remove(k);
                        counts.insert(k, c + 1);
                        proof {
                            assert(counts@ =~= old_counts.update(k as int, (c + 1) as i64));
                        }
                    },
                    None => {
                        let ghost old_names = names.deep_view();
                        names.push(clone_string(&p.tags[j]));
                        counts.push(1);
                        proof {
                            assert(names.deep_view() =~~= old_names.push(ptags[j as int]));
                            lemma_count_tag_zero(ps, i as int, ptags, j as int);
                            assert forall|a: int, b: int|
                                0 <= a < b < names@.len() implies names.deep_view()[a]
                                != names.deep_view()[b] by {
                                if b == names@.len() - 1 {
                                    assert(names.deep_view()[b] == ptags[j as int]);
                                    assert(names.deep_view()[a] == old_names[a]);
                                    if old_names[a] == ptags[j as int] {
                                        assert(old_names.contains(ptags[j as int]));
                                        assert(false);
                                    }
                                } else {
                                    assert(names.deep_view()[a] == old_names[a]);
                                    assert(names.deep_view()[b] == old_names[b]);
                                }
                            }
                            assert forall|n: Seq<char>| old_names.contains(n) implies names.deep_view().contains(
                                n,
                            ) by {
                                let w = choose|w: int| 0 <= w < old_names.len() && old_names[w] == n;
                                assert(names.deep_view()[w] == n);
                            }
                            assert(names.deep_view()[names@.len() - 1] == ptags[j as int]);
                            assert(names.deep_view().contains(ptags[j as int]));
                        }
                    },
                }
                j = j + 1;
            }
            proof {
                assert(ptags.take(ptags.len() as int) =~= ptags);
                assert(ps.take(i + 1).drop_last() =~= ps.take(i as int));
                assert(ps.take(i + 1).last() == ps[i as int]);
            }
            i = i + 1;
        }
        proof {
            assert(ps.take(ps.len() as int) =~= ps);
        }
        let ghost fnames = names.deep_view();
        let ghost fcounts = counts@;
        let mut out: Vec<TagInfo> = Vec::new();
        let mut q: usize = 0;
        while q < names.len()
            invariant
                0 <= q <= names@.len(),
                names@.len() == counts@.len(),
                fnames == names.deep_view(),
                fcounts == counts@,
                fnames.len() == names@.len(),
                forall|a: int, b: int| 0 <= a < b < fnames.len() ==> fnames[a] != fnames[b],
                out@.len() == q,
                sorted_tags(tag_models(out@)),
                forall|k: int|
                    0 <= k < out@.len() ==> exists|w: int|
                        0 <= w < q && (#[trigger] tag_models(out@)[k]).name == fnames[w]
                            && tag_models(out@)[k].count == fcounts[w],
                forall|w: int|
                    0 <= w < q ==> exists|k: int|
                        0 <= k < out@.len() && (#[trigger] tag_models(out@)[k]).name
                            == #[trigger] fnames[w],
                forall|k1: int, k2: int|
                    0 <= k1 < k2 < out@.len() ==> (#[trigger] tag_models(out@)[k1]).name != (
                    #[trigger] tag_models(out@)[k2]).name,
            decreases names@.len() - q,
        {
            let x = TagInfo { name: clone_string(&names[q]), count: counts[q] };
            proof {
                assert(x@.name == fnames[q as int]);
                assert(x@.count == fcounts[q as int]);
                assert forall|k: int| 0 <= k < out@.len() implies (
                #[trigger] tag_models(out@)[k]).name != x@.name by {
                    let w = choose|w: int|
                        0 <= w < q && (#[trigger] tag_models(out@)[k]).name == fnames[w]
                            && tag_models(out@)[k].count == fcounts[w];
                    assert(fnames[w] != fnames[q as int]);
                }
            }
            let ghost before_out = tag_models(out@);
            insert_tag_sorted(&mut out, x);
            proof {
                let after_out = tag_models(out@);
                assert forall|k: int| 0 <= k < out@.len() implies exists|w: int|
                    0 <= w < q + 1 && (#[trigger] after_out[k]).name == fnames[w] && after_out[k].count
                        == fcounts[w] by {
                    if after_out[k] == x@ {
                        assert(after_out[k].name == fnames[q as int] && after_out[k].count
                            == fcounts[q as int]);
                    } else {
                        assert(before_out.contains(after_out[k]));
                        let e = choose|e: int|
                            0 <= e < before_out.len() && before_out[e] == after_out[k];
                    }
                }
                assert forall|w: int| 0 <= w < q + 1 implies exists|k: int|
                    0 <= k < out@.len() && (#[trigger] after_out[k]).name == #[trigger] fnames[w] by {
                    if w == q {
                        let e = choose|e: int|
                            0 <= e < after_out.len() && after_out[e] == x@;
                        assert(after_out[e].name == fnames[w]);
                    } else {
                        let k0 = choose|k0: int|
                            0 <= k0 < before_out.len() && (#[trigger] before_out[k0]).name
                                == fnames[w];
                        assert(after_out.contains(before_out[k0]));
                        let e = choose|e: int|
                            0 <= e < after_out.len() && after_out[e] == before_out[k0];
                        assert(after_out[e].name == fnames[w]);
                    }
                }
            }
            q = q + 1;
        }
        proof {
            let tm = tag_models(out@);
            assert forall|k: int| 0 <= k < out@.len() implies (#[trigger] tm[k]).count == count_tag(
                ps,
                tm[k].name,
            ) && tm[k].count >= 1 by {
                let w = choose|w: int|
                    0 <= w < fnames.len() && (#[trigger] tm[k]).name == fnames[w] && tm[k].count
                        == fcounts[w];
            }
            assert forall|i0: int, j0: int|
                0 <= i0 < ps.len() && 0 <= j0 < ps[i0].tags.len() implies exists|k: int|
                0 <= k < out@.len() && (#[trigger] tag_models(out@)[k]).name
                    == #[trigger] ps[i0].tags[j0] by {
                assert(fnames.contains(ps[i0].tags[j0]));
                let w = choose|w: int| 0 <= w < fnames.len() && fnames[w] == ps[i0].tags[j0];
            }
        }
        out
    }
}

/// Counting a name over a prompt prefix never exceeds the prefix length.
proof fn lemma_count_tag_bounds_for(ps: Seq<PromptModel>, i: int, name: Seq<char>)
    requires
        forall|k: int| 0 <= k < ps.len() ==> crate::store::wf_prompt(#[trigger] ps[k]),
        0 <= i <= ps.len(),
    ensures
        0 <= count_tag(ps.take(i), name) <= i,
{
    assert(forall|k: int| 0 <= k < i ==> ps.take(i)[k] == ps[k]);
    lemma_count_tag_bounds(ps.take(i), name);
}

/// A name absent from every earlier prompt and from the processed part of the
/// current one has count zero so far.
proof fn lemma_count_tag_zero(ps: Seq<PromptModel>, i: int, ptags: Seq<Seq<char>>, j: int)
    requires
        forall|k: int| 0 <= k < ps.len() ==> crate::store::wf_prompt(#[trigger] ps[k]),
        0 <= i < ps.len(),
        ptags == ps[i].tags,
        0 <= j < ptags.len(),
        forall|a: int, b: int|
            0 <= a < i && 0 <= b < ps[a].tags.len() ==> #[trigger] ps[a].tags[b] != ptags[j],
        forall|b: int| 0 <= b < j ==> #[trigger] ptags[b] != ptags[j],
    ensures
        count_tag(ps.take(i), ptags[j]) == 0,
        count_in_tags(ptags.take(j), ptags[j]) == 0,
{
    assert(forall|k: int| 0 <= k < i ==> ps.take(i)[k] == ps[k]);
    lemma_count_tag_bounds(ps.take(i), ptags[j]);
    if count_tag(ps.take(i), ptags[j]) > 0 {
        let (a, b) = choose|a: int, b: int|
            0 <= a < ps.take(i).len() && 0 <= b < ps.take(i)[a].tags.len()
                && #[trigger] ps.take(i)[a].tags[b] == ptags[j];
        assert(ps[a].tags[b] == ptags[j]);
        assert(false);
    }
    crate::store::wf_prompt(ps[i]);
    lemma_normalized_distinct(ptags);
    lemma_count_in_distinct(ptags.take(j), ptags[j]);
    if ptags.take(j).contains(ptags[j]) {
        let w = choose|w: int| 0 <= w < j && ptags.take(j)[w] == ptags[j];
        assert(ptags[w] == ptags[j]);
        assert(false);
    }
}

} // verus!
