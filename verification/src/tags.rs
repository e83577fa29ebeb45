//! Tag normalization and the persisted textual form of a tag list.
//!
//! `normalize_tags` trims every entry, drops blanks, and deduplicates by the
//! lower-cased key while keeping the first-seen casing and order.
//! `encode_tags` renders a normalized list as a bracketed, quoted,
//! comma-separated blob; free-text search runs against that blob.
use vstd::prelude::*;

use crate::text::chars_eq;
use crate::text::chars_to_string;
use crate::text::lower_chars;
use crate::text::lower_seq;
use crate::text::str_chars;
use crate::text::trim_chars;
use crate::text::trim_seq;

verus! {

/// Normalization of the tags still to be processed, given the lower-cased
/// keys already seen.
pub open spec fn normalize_rec(tags: Seq<Seq<char>>, seen: Seq<Seq<char>>) -> Seq<Seq<char>>
    decreases tags.len(),
{
    if tags.len() == 0 {
        Seq::empty()
    } else {
        let t = trim_seq(tags[0]);
        let rest = tags.drop_first();
        if t.len() == 0 || seen.contains(lower_seq(t)) {
            normalize_rec(rest, seen)
        } else {
            seq![t] + normalize_rec(rest, seen.push(lower_seq(t)))
        }
    }
}

/// The normalized form of a raw tag list: trimmed, blanks dropped, first-seen
/// order and casing kept, at most one entry per lower-cased key.
pub open spec fn spec_normalize(tags: Seq<Seq<char>>) -> Seq<Seq<char>> {
    normalize_rec(tags, Seq::empty())
}

proof fn lemma_seq_contains_push(s: Seq<Seq<char>>, y: Seq<char>, x: Seq<char>)
    ensures
        s.push(y).contains(x) <==> (s.contains(x) || x == y),
{
    if s.contains(x) {
        let i = choose|i: int| 0 <= i < s.len() && s[i] == x;
        assert(s.push(y)[i] == x);
    }
    if x == y {
        assert(s.push(y)[s.len() as int] == x);
    }
    if s.push(y).contains(x) {
        let i = choose|i: int| 0 <= i < s.push(y).len() && s.push(y)[i] == x;
        if i < s.len() {
            assert(s[i] == x);
        }
    }
}

proof fn lemma_trim_start_no_leading(s: Seq<char>)
    ensures
        trim_start_seq_props(s),
    decreases s.len(),
{
    if s.len() > 0 && is_space(s[0]) {
        lemma_trim_start_no_leading(s.drop_first());
    }
}

/// The start-trimmed sequence has no leading blank.
pub open spec fn trim_start_seq_props(s: Seq<char>) -> bool {
    crate::text::trim_start_seq(s).len() > 0 ==> !is_space(crate::text::trim_start_seq(s)[0])
}

proof fn lemma_trim_end_shape(s: Seq<char>)
    ensures
        crate::text::trim_end_seq(s).len() <= s.len(),
        crate::text::trim_end_seq(s) == s.take(crate::text::trim_end_seq(s).len() as int),
        crate::text::trim_end_seq(s).len() > 0 ==> !is_space(crate::text::trim_end_seq(s).last()),
    decreases s.len(),
{
    if s.len() == 0 {
        assert(s.take(0) =~= s);
    } else if is_space(s.last()) {
        lemma_trim_end_shape(s.drop_last());
        assert(s.drop_last() =~= s.take(s.len() - 1));
        let w = crate::text::trim_end_seq(s);
        assert(s.take(s.len() - 1).take(w.len() as int) =~= s.take(w.len() as int));
    } else {
        assert(s.take(s.len() as int) =~= s);
    }
}

/// Trimming is idempotent.
pub proof fn lemma_trim_idempotent(s: Seq<char>)
    ensures
        trim_seq(trim_seq(s)) == trim_seq(s),
{
    let a = crate::text::trim_start_seq(s);
    let b = crate::text::trim_end_seq(a);
    lemma_trim_start_no_leading(s);
    lemma_trim_end_shape(a);
    if b.len() == 0 {
        assert(trim_seq(b) =~= b);
    } else {
        assert(b[0] == a.take(b.len() as int)[0]);
        assert(!is_space(b[0]));
        assert(crate::text::trim_start_seq(b) == b);
        assert(!is_space(b.last()));
        assert(crate::text::trim_end_seq(b) == b);
    }
}

use crate::text::is_space;

/// Every normalized tag is trimmed, non-blank, carries a key outside `seen`,
/// and no two normalized tags share a lower-cased key.
pub proof fn lemma_normalize_rec_props(tags: Seq<Seq<char>>, seen: Seq<Seq<char>>)
    ensures
        forall|i: int|
            0 <= i < normalize_rec(tags, seen).len() ==> trim_seq(
                #[trigger] normalize_rec(tags, seen)[i],
            ) == normalize_rec(tags, seen)[i] && normalize_rec(tags, seen)[i].len() > 0
                && !seen.contains(lower_seq(normalize_rec(tags, seen)[i])),
        forall|i: int, j: int|
            0 <= i < j < normalize_rec(tags, seen).len() ==> lower_seq(
                #[trigger] normalize_rec(tags, seen)[i],
            ) != lower_seq(#[trigger] normalize_rec(tags, seen)[j]),
    decreases tags.len(),
{
    if tags.len() == 0 {
    } else {
        let t = trim_seq(tags[0]);
        let rest = tags.drop_first();
        if t.len() == 0 || seen.contains(lower_seq(t)) {
            lemma_normalize_rec_props(rest, seen);
            assert(normalize_rec(tags, seen) == normalize_rec(rest, seen));
            assert forall|i: int, j: int|
                0 <= i < j < normalize_rec(tags, seen).len() implies lower_seq(
                #[trigger] normalize_rec(tags, seen)[i],
            ) != lower_seq(#[trigger] normalize_rec(tags, seen)[j]) by {
                assert(normalize_rec(tags, seen)[i] == normalize_rec(rest, seen)[i]);
                assert(normalize_rec(tags, seen)[j] == normalize_rec(rest, seen)[j]);
            }
        } else {
            let key = lower_seq(t);
            lemma_normalize_rec_props(rest, seen.push(key));
            lemma_trim_idempotent(tags[0]);
            let out = normalize_rec(tags, seen);
            let sub = normalize_rec(rest, seen.push(key));
            assert(out == seq![t] + sub);
            assert(out[0] == t);
            assert forall|i: int| 1 <= i < out.len() implies trim_seq(#[trigger] out[i]) == out[i]
                && out[i].len() > 0 && !seen.contains(lower_seq(out[i])) && lower_seq(out[i])
                != key by {
                assert(out[i] == sub[i - 1]);
                lemma_seq_contains_push(seen, key, lower_seq(sub[i - 1]));
            }
            assert forall|i: int, j: int| 0 <= i < j < out.len() implies lower_seq(
                #[trigger] out[i],
            ) != lower_seq(#[trigger] out[j]) by {
                if i >= 1 {
                    assert(out[i] == sub[i - 1]);
                    assert(out[j] == sub[j - 1]);
                }
            }
        }
    }
}

proof fn lemma_normalize_fixed(ys: Seq<Seq<char>>, seen: Seq<Seq<char>>)
    requires
        forall|i: int|
            0 <= i < ys.len() ==> trim_seq(#[trigger] ys[i]) == ys[i] && ys[i].len() > 0
                && !seen.contains(lower_seq(ys[i])),
        forall|i: int, j: int|
            0 <= i < j < ys.len() ==> lower_seq(#[trigger] ys[i]) != lower_seq(#[trigger] ys[j]),
    ensures
        normalize_rec(ys, seen) == ys,
    decreases ys.len(),
{
    if ys.len() == 0 {
        assert(normalize_rec(ys, seen) =~= ys);
    } else {
        let t = trim_seq(ys[0]);
        assert(t == ys[0]);
        let key = lower_seq(ys[0]);
        let rest = ys.drop_first();
        assert forall|i: int| 0 <= i < rest.len() implies trim_seq(#[trigger] rest[i]) == rest[i]
            && rest[i].len() > 0 && !seen.push(key).contains(lower_seq(rest[i])) by {
            assert(rest[i] == ys[i + 1]);
            lemma_seq_contains_push(seen, key, lower_seq(rest[i]));
        }
        assert forall|i: int, j: int| 0 <= i < j < rest.len() implies lower_seq(
            #[trigger] rest[i],
        ) != lower_seq(#[trigger] rest[j]) by {
            assert(rest[i] == ys[i + 1]);
            assert(rest[j] == ys[j + 1]);
        }
        lemma_normalize_fixed(rest, seen.push(key));
        assert(normalize_rec(ys, seen) =~= ys);
    }
}

/// Normalization is idempotent, and the normalized list never holds two tags
/// with the same lower-cased key.
pub proof fn lemma_normalize_idempotent(tags: Seq<Seq<char>>)
    ensures
        spec_normalize(spec_normalize(tags)) == spec_normalize(tags),
        forall|i: int, j: int|
            0 <= i < j < spec_normalize(tags).len() ==> lower_seq(
                #[trigger] spec_normalize(tags)[i],
            ) != lower_seq(#[trigger] spec_normalize(tags)[j]),
{
    lemma_normalize_rec_props(tags, Seq::empty());
    lemma_normalize_fixed(spec_normalize(tags), Seq::empty());
}

fn seen_contains(seen: &Vec<Vec<char>>, key: &Vec<char>) -> (r: bool)
    ensures
        r == seen.deep_view().contains(key@),
{
    let mut i: usize = 0;
    while i < seen.len()
        invariant
            0 <= i <= seen@.len(),
            seen.deep_view().len() == seen@.len(),
            forall|k: int| 0 <= k < i ==> seen.deep_view()[k] != key@,
        decreases seen@.len() - i,
    {
        proof {
            assert(seen.deep_view()[i as int] =~= seen@[i as int]@);
        }
        if chars_eq(&seen[i], key) {
            proof {
                assert(seen.deep_view()[i as int] == key@);
            }
            return true;
        }
        i = i + 1;
    }
    false
}

/// Trims every entry, drops the ones that come out blank, and keeps the first
/// entry for each lower-cased key, in first-seen order and casing.
pub fn normalize_tags(tags: Vec<String>) -> (r: Vec<String>)
    ensures
        r.deep_view() == spec_normalize(tags.deep_view()),
{
    let ghost dv = tags.deep_view();
    let mut seen: Vec<Vec<char>> = Vec::new();
    let mut out: Vec<String> = Vec::new();
    let mut idx: usize = 0;
    proof {
        assert(dv.skip(0) =~= dv);
        assert(seen.deep_view() =~= Seq::<Seq<char>>::empty());
        assert(out.deep_view() + normalize_rec(dv.skip(0), seen.deep_view()) =~= normalize_rec(
            dv,
            Seq::empty(),
        ));
    }
    while idx < tags.len()
        invariant
            0 <= idx <= tags@.len(),
            dv == tags.deep_view(),
            dv.len() == tags@.len(),
            spec_normalize(dv) == out.deep_view() + normalize_rec(
                dv.skip(idx as int),
                seen.deep_view(),
            ),
        decreases tags@.len() - idx,
    {
        let ghost pending = dv.skip(idx as int);
        proof {
            assert(pending[0] == dv[idx as int]);
            assert(pending.drop_first() =~= dv.skip(idx as int + 1));
            assert(dv[idx as int] == tags@[idx as int]@);
        }
        let cs = str_chars(tags[idx].as_str());
        let t = trim_chars(&cs);
        if t.len() == 0 {
        } else {
            let key = lower_chars(&t);
            proof {
                assert(key@ == lower_seq(trim_seq(pending[0])));
            }
            if seen_contains(&seen, &key) {
            } else {
                let ghost old_out = out.deep_view();
                let ghost old_seen = seen.deep_view();
                let entry = chars_to_string(&t);
                out.push(entry);
                seen.push(key);
                proof {
                    assert(out.deep_view() =~~= old_out.push(trim_seq(pending[0])));
                    assert(seen.deep_view() =~~= old_seen.push(lower_seq(trim_seq(pending[0]))));
                    assert(old_out + (seq![trim_seq(pending[0])] + normalize_rec(
                        pending.drop_first(),
                        seen.deep_view(),
                    )) =~= out.deep_view() + normalize_rec(pending.drop_first(), seen.deep_view()));
                }
            }
        }
        idx = idx + 1;
    }
    proof {
        assert(dv.skip(dv.len() as int) =~= Seq::<Seq<char>>::empty());
        assert(out.deep_view() + Seq::<Seq<char>>::empty() =~= out.deep_view());
    }
    out
}

/// The escaped body of one encoded tag: quotes and backslashes are preceded
/// by a backslash.
pub open spec fn escape_tag(s: Seq<char>) -> Seq<char>
    decreases s.len(),
{
    if s.len() == 0 {
        Seq::empty()
    } else {
        let rest = escape_tag(s.drop_last());
        let c = s.last();
        if c == '"' || c == '\\' {
            rest + seq!['\\', c]
        } else {
            rest + seq![c]
        }
    }
}

/// The encoded items of a tag list: quoted escaped tags joined by commas.
pub open spec fn encode_items(tags: Seq<Seq<char>>) -> Seq<char>
    decreases tags.len(),
{
    if tags.len() == 0 {
        Seq::empty()
    } else if tags.len() == 1 {
        seq!['"'] + escape_tag(tags[0]) + seq!['"']
    } else {
        encode_items(tags.drop_last()) + seq![','] + seq!['"'] + escape_tag(tags.last()) + seq!['"']
    }
}

/// The persisted textual form of a tag list: the encoded items in brackets.
pub open spec fn spec_encode_tags(tags: Seq<Seq<char>>) -> Seq<char> {
    seq!['['] + encode_items(tags) + seq![']']
}

/// Renders a tag list as its persisted textual form.
pub fn encode_tags(tags: &Vec<String>) -> (r: String)
    ensures
        r@ == spec_encode_tags(tags.deep_view()),
{
    let ghost dv = tags.deep_view();
    let mut buf: Vec<char> = Vec::new();
    buf.push('[');
    proof {
        assert(buf@ =~= seq!['['] + encode_items(dv.take(0)));
    }
    let mut i: usize = 0;
    while i < tags.len()
        invariant
            0 <= i <= tags@.len(),
            dv == tags.deep_view(),
            dv.len() == tags@.len(),
            buf@ == seq!['['] + encode_items(dv.take(i as int)),
        decreases tags@.len() - i,
    {
        if i > 0 {
            buf.push(',');
        }
        buf.push('"');
        let cs = str_chars(tags[i].as_str());
        proof {
            assert(cs@ == dv[i as int]);
        }
        let mut k: usize = 0;
        let ghost quoted = buf@;
        while k < cs.len()
            invariant
                0 <= k <= cs@.len(),
                buf@ == quoted + escape_tag(cs@.take(k as int)),
            decreases cs@.len() - k,
        {
            let c = cs[k];
            let ghost before = buf@;
            if c == '"' || c == '\\' {
                buf.push('\\');
            }
            buf.push(c);
            proof {
                let p = cs@.take(k as int + 1);
                assert(p.drop_last() =~= cs@.take(k as int));
                assert(p.last() == cs@[k as int]);
                if cs@[k as int] == '"' || cs@[k as int] == '\\' {
                    assert(buf@ =~= quoted + (escape_tag(cs@.take(k as int)) + seq![
                        '\\',
                        cs@[k as int],
                    ]));
                } else {
                    assert(buf@ =~= quoted + (escape_tag(cs@.take(k as int)) + seq![
                        cs@[k as int],
                    ]));
                }
            }
            k = k + 1;
        }
        proof {
            assert(cs@.take(cs@.len() as int) =~= cs@);
        }
        buf.push('"');
        proof {
            let p = dv.take(i as int + 1);
            assert(p.drop_last() =~= dv.take(i as int));
            assert(p.last() == dv[i as int]);
            if i == 0 {
                assert(buf@ =~= seq!['['] + encode_items(dv.take(1)));
            } else {
                assert(buf@ =~= seq!['['] + (encode_items(dv.take(i as int)) + seq![','] + seq![
                    '"',
                ] + escape_tag(dv[i as int]) + seq!['"']));
                assert(buf@ =~= seq!['['] + encode_items(dv.take(i as int + 1)));
            }
        }
        i = i + 1;
    }
    buf.push(']');
    proof {
        assert(dv.take(dv.len() as int) =~= dv);
        assert(buf@ =~= spec_encode_tags(dv));
    }
    chars_to_string(&buf)
}

/// A tag list holds `key` when some entry lower-cases to it.
pub open spec fn has_tag_key(tags: Seq<Seq<char>>, key: Seq<char>) -> bool {
    exists|i: int| 0 <= i < tags.len() && lower_seq(#[trigger] tags[i]) == key
}

/// Whole-tag membership test: does some entry of `tags` lower-case to `key`?
pub fn tags_have_key(tags: &Vec<String>, key: &Vec<char>) -> (r: bool)
    ensures
        r == has_tag_key(tags.deep_view(), key@),
{
    let ghost dv = tags.deep_view();
    let mut i: usize = 0;
    while i < tags.len()
        invariant
            0 <= i <= tags@.len(),
            dv == tags.deep_view(),
            dv.len() == tags@.len(),
            forall|k: int| 0 <= k < i ==> lower_seq(#[trigger] dv[k]) != key@,
        decreases tags@.len() - i,
    {
        let cs = str_chars(tags[i].as_str());
        let low = lower_chars(&cs);
        proof {
            assert(cs@ == dv[i as int]);
        }
        if chars_eq(&low, key) {
            proof {
                assert(lower_seq(dv[i as int]) == key@);
            }
            return true;
        }
        i = i + 1;
    }
    false
}

} // verus!
