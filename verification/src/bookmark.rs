//! The bookmark domain model: the submission payload, URL normalization,
//! and tag parsing and merging.

use vstd::prelude::*;
use vstd::string::StringExecFns;
use crate::text::{
    chars_of, contains_seq, is_unicode_ws, lemma_trim_start_skip, lemma_trim_end_take, matches_at,
    split_ws_chars, split_ws_spec, starts_with_str, string_from_chars, trim_chars, trim_spec,
};

verus! {

/// Whether a submission may overwrite an existing remote record.
#[derive(Clone, Copy, PartialEq, Eq, Structural, Debug)]
pub enum SubmitIntent {
    Create,
    Update,
}

/// A bookmark the user wants saved: immutable once created.
#[derive(Clone, Debug, PartialEq)]
pub struct BookmarkPayload {
    pub url: String,
    pub title: String,
    pub notes: String,
    pub tags: Vec<String>,
    pub private: bool,
    pub read_later: bool,
    pub intent: SubmitIntent,
}

/// Mathematical image of a [`BookmarkPayload`].
#[verifier::ext_equal]
pub struct BookmarkPayloadView {
    pub url: Seq<char>,
    pub title: Seq<char>,
    pub notes: Seq<char>,
    pub tags: Seq<Seq<char>>,
    pub private: bool,
    pub read_later: bool,
    pub intent: SubmitIntent,
}

impl View for BookmarkPayload {
    type V = BookmarkPayloadView;

    open spec fn view(&self) -> BookmarkPayloadView {
        BookmarkPayloadView {
            url: self.url@,
            title: self.title@,
            notes: self.notes@,
            tags: self.tags.deep_view(),
            private: self.private,
            read_later: self.read_later,
            intent: self.intent,
        }
    }
}

/// Clones a vector of strings, preserving its view.
pub fn clone_strings(v: &Vec<String>) -> (r: Vec<String>)
    ensures
        r.deep_view() == v.deep_view(),
{
    let mut r: Vec<String> = Vec::new();
    let mut i: usize = 0;
    while i < v.len()
        invariant
            i <= v@.len(),
            r.deep_view() =~~= v.deep_view().take(i as int),
        decreases v@.len() - i,
    {
        let ghost old_r = r.deep_view();
        r.push(v[i].clone());
        proof {
            assert(r.deep_view() =~~= old_r.push(v@[i as int]@));
            assert(v.deep_view().take(i + 1 as int) =~~= v.deep_view().take(i as int).push(
                v@[i as int]@,
            ));
        }
        i += 1;
    }
    proof {
        assert(v.deep_view().take(v@.len() as int) =~~= v.deep_view());
    }
    r
}

impl BookmarkPayload {
    /// An owned copy with the same view.
    pub fn duplicate(&self) -> (p: BookmarkPayload)
        ensures
            p@ == self@,
    {
        let p = BookmarkPayload {
            url: self.url.clone(),
            title: self.title.clone(),
            notes: self.notes.clone(),
            tags: clone_strings(&self.tags),
            private: self.private,
            read_later: self.read_later,
            intent: self.intent,
        };
        proof {
            assert(p@ =~~= self@);
        }
        p
    }
}

/// A record already stored remotely for some URL.
#[derive(Clone, Debug, PartialEq)]
pub struct ExistingBookmark {
    pub url: String,
    pub title: String,
    pub notes: String,
    pub tags: Vec<String>,
    pub private: bool,
    pub read_later: bool,
    pub time: String,
}

/// Outcome of asking the remote service whether a URL is already saved.
#[derive(Clone, Debug)]
pub struct DuplicateCheckResult {
    pub exists: bool,
    pub bookmark: Option<ExistingBookmark>,
}

/// Tag lists the remote service suggests for a URL.
#[derive(Clone, Debug, PartialEq)]
pub struct TagSuggestions {
    pub popular: Vec<String>,
    pub recommended: Vec<String>,
}

/// What the URL parser makes of a candidate string: the parsed URL written
/// back out, or nothing when the candidate is not an absolute URL. A
/// function of the candidate alone.
pub uninterp spec fn url_normalized(s: Seq<char>) -> Option<Seq<char>>;

/// Relies on url::Url::parse and its Display implementation: both depend on
/// the candidate string alone.
#[verifier::external_body]
fn parse_and_rewrite_url(candidate: &str) -> (r: Option<String>)
    ensures
        r.deep_view() == url_normalized(candidate@),
{
    match url::Url::parse(candidate) {
        Ok(u) => Some(u.to_string()),
        Err(_) => None,
    }
}

/// URL normalization: trim; reject empty input; prefix `https://` unless an
/// explicit http or https scheme is present; then parse and rewrite.
pub open spec fn normalize_url_spec(input: Seq<char>) -> Option<Seq<char>> {
    let t = trim_spec(input);
    if t.len() == 0 {
        None
    } else {
        let candidate = if matches_at(t, "http://"@, 0) || matches_at(t, "https://"@, 0) {
            t
        } else {
            "https://"@ + t
        };
        url_normalized(candidate)
    }
}

/// Normalizes user input into a scheme-qualified URL, if possible.
pub fn normalize_url(input: &str) -> (r: Option<String>)
    ensures
        r.deep_view() == normalize_url_spec(input@),
{
    let chars = chars_of(input);
    let trimmed = trim_chars(&chars);
    if trimmed.len() == 0 {
        return None;
    }
    let trimmed_str = string_from_chars(&trimmed);
    let candidate: String = if starts_with_str(&trimmed, "http://") || starts_with_str(
        &trimmed,
        "https://",
    ) {
        trimmed_str
    } else {
        let mut c = String::new();
        c.append("https://");
        c.append(trimmed_str.as_str());
        c
    };
    parse_and_rewrite_url(candidate.as_str())
}

/// Whitespace-only input is rejected: when every character of the input is
/// whitespace, normalization returns nothing.
pub proof fn lemma_normalize_rejects_whitespace(input: Seq<char>)
    requires
        forall|k: int| 0 <= k < input.len() ==> is_unicode_ws(input[k]),
    ensures
        normalize_url_spec(input) is None,
{
    lemma_trim_start_skip(input, input.len() as int);
    assert(input.skip(input.len() as int) =~= Seq::<char>::empty());
    lemma_trim_end_take(Seq::<char>::empty(), 0);
    assert(Seq::<char>::empty().take(0) =~= Seq::<char>::empty());
}

/// Splits free-text tag input into whitespace-separated tags.
pub fn parse_tags(input: &str) -> (tags: Vec<String>)
    ensures
        tags.deep_view() == split_ws_spec(input@),
{
    let chars = chars_of(input);
    split_ws_chars(&chars)
}

/// What lower-casing a tag yields, for case-insensitive comparison. A
/// function of the characters alone.
pub uninterp spec fn lower_of(s: Seq<char>) -> Seq<char>;

/// Relies on str::to_lowercase: the lower-cased text depends on the
/// characters alone.
#[verifier::external_body]
fn lowercase(s: &str) -> (r: String)
    ensures
        r@ == lower_of(s@),
{
    s.to_lowercase()
}

/// Tag merging, one tag at a time: a tag is kept, in its first-seen casing
/// and position, unless its lower-cased key was already seen.
pub open spec fn merge_tags_acc(tags: Seq<Seq<char>>, seen: Seq<Seq<char>>) -> Seq<Seq<char>>
    decreases tags.len(),
{
    if tags.len() == 0 {
        Seq::empty()
    } else if seen.contains(lower_of(tags[0])) {
        merge_tags_acc(tags.drop_first(), seen)
    } else {
        seq![tags[0]] + merge_tags_acc(tags.drop_first(), seen.push(lower_of(tags[0])))
    }
}

/// The merge of two tag lists: existing tags first, then incoming ones,
/// deduplicated by lower-cased key, first-seen casing and order kept.
pub open spec fn merge_tags_spec(existing: Seq<Seq<char>>, incoming: Seq<Seq<char>>) -> Seq<
    Seq<char>,
> {
    merge_tags_acc(existing + incoming, Seq::empty())
}

fn contains_string(v: &Vec<String>, s: &String) -> (r: bool)
    ensures
        r == v.deep_view().contains(s@),
{
    let mut i: usize = 0;
    while i < v.len()
        invariant
            i <= v@.len(),
            forall|k: int| 0 <= k < i ==> v.deep_view()[k] != s@,
        decreases v@.len() - i,
    {
        if v[i].eq(s) {
            proof {
                assert(v.deep_view()[i as int] == s@);
            }
            return true;
        }
        i += 1;
    }
    proof {
        if v.deep_view().contains(s@) {
            let k = choose|k: int| 0 <= k < v.deep_view().len() && v.deep_view()[k] == s@;
            assert(v.deep_view()[k] != s@);
        }
    }
    false
}

/// Merges two tag lists case-insensitively, preserving first-seen casing
/// and order.
#[verifier::loop_isolation(false)]
pub fn merge_tags(existing: &[String], incoming: &[String]) -> (merged: Vec<String>)
    ensures
        merged.deep_view() == merge_tags_spec(existing.deep_view(), incoming.deep_view()),
{
    let mut combined: Vec<String> = Vec::new();
    let mut i: usize = 0;
    while i < existing.len()
        invariant
            i <= existing@.len(),
            combined.deep_view() =~~= existing.deep_view().take(i as int),
        decreases existing@.len() - i,
    {
        let ghost old_c = combined.deep_view();
        combined.push(existing[i].clone());
        proof {
            assert(combined.deep_view() =~~= old_c.push(existing@[i as int]@));
            assert(existing.deep_view().take(i + 1 as int) =~~= existing.deep_view().take(
                i as int,
            ).push(existing@[i as int]@));
        }
        i += 1;
    }
    let mut j: usize = 0;
    while j < incoming.len()
        invariant
            j <= incoming@.len(),
            combined.deep_view() =~~= existing.deep_view() + incoming.deep_view().take(j as int),
        decreases incoming@.len() - j,
    {
        let ghost old_c = combined.deep_view();
        combined.push(incoming[j].clone());
        proof {
            assert(combined.deep_view() =~~= old_c.push(incoming@[j as int]@));
            assert(existing.deep_view() + incoming.deep_view().take(j + 1 as int) =~~= (
            existing.deep_view() + incoming.deep_view().take(j as int)).push(
                incoming@[j as int]@,
            ));
        }
        j += 1;
    }
    proof {
        assert(combined.deep_view() =~~= existing.deep_view() + incoming.deep_view());
    }
    let mut merged: Vec<String> = Vec::new();
    let mut seen: Vec<String> = Vec::new();
    let mut k: usize = 0;
    proof {
        assert(combined.deep_view().skip(0) =~~= combined.deep_view());
        assert(seen.deep_view() =~~= Seq::<Seq<char>>::empty());
        assert(merged.deep_view() =~~= Seq::<Seq<char>>::empty());
        assert(merged.deep_view() + merge_tags_acc(combined.deep_view(), seen.deep_view()) =~~=
        merge_tags_acc(combined.deep_view(), Seq::empty()));
    }
    while k < combined.len()
        invariant
            k <= combined@.len(),
            merge_tags_spec(existing.deep_view(), incoming.deep_view()) =~~= merged.deep_view()
                + merge_tags_acc(combined.deep_view().skip(k as int), seen.deep_view()),
        decreases combined@.len() - k,
    {
        proof {
            assert(combined.deep_view().skip(k as int)[0] == combined.deep_view()[k as int]);
            assert(combined.deep_view().skip(k as int).drop_first() =~~= combined.deep_view().skip(
                k + 1 as int,
            ));
        }
        let key = lowercase(combined[k].as_str());
        if !contains_string(&seen, &key) {
            let ghost old_m = merged.deep_view();
            let ghost old_s = seen.deep_view();
            merged.push(combined[k].clone());
            seen.push(key);
            proof {
                assert(merged.deep_view() =~~= old_m.push(combined.deep_view()[k as int]));
                assert(seen.deep_view() =~~= old_s.push(lower_of(combined.deep_view()[k as int])));
                assert(old_m + (seq![combined.deep_view()[k as int]] + merge_tags_acc(
                    combined.deep_view().skip(k + 1 as int),
                    seen.deep_view(),
                )) =~~= merged.deep_view() + merge_tags_acc(
                    combined.deep_view().skip(k + 1 as int),
                    seen.deep_view(),
                ));
            }
        }
        k += 1;
    }
    proof {
        assert(combined.deep_view().skip(combined@.len() as int) =~~= Seq::<Seq<char>>::empty());
        assert(merged.deep_view() + Seq::<Seq<char>>::empty() =~~= merged.deep_view());
    }
    merged
}

/// Every merged tag is one of the input tags, and no two merged tags share
/// a lower-cased key: the merge is case-insensitively duplicate-free and
/// keeps only input casings.
pub proof fn lemma_merge_tags_sound(existing: Seq<Seq<char>>, incoming: Seq<Seq<char>>)
    ensures
        forall|k: int|
            0 <= k < merge_tags_spec(existing, incoming).len() ==> (existing
                + incoming).contains(#[trigger] merge_tags_spec(existing, incoming)[k]),
        forall|k1: int, k2: int|
            0 <= k1 < k2 < merge_tags_spec(existing, incoming).len() ==> lower_of(
                #[trigger] merge_tags_spec(existing, incoming)[k1],
            ) != lower_of(#[trigger] merge_tags_spec(existing, incoming)[k2]),
{
    lemma_merge_acc_props(existing + incoming, Seq::empty());
}

proof fn lemma_merge_acc_props(tags: Seq<Seq<char>>, seen: Seq<Seq<char>>)
    ensures
        forall|k: int|
            0 <= k < merge_tags_acc(tags, seen).len() ==> tags.contains(
                #[trigger] merge_tags_acc(tags, seen)[k],
            ),
        forall|k: int|
            0 <= k < merge_tags_acc(tags, seen).len() ==> !seen.contains(
                lower_of(#[trigger] merge_tags_acc(tags, seen)[k]),
            ),
        forall|k1: int, k2: int|
            0 <= k1 < k2 < merge_tags_acc(tags, seen).len() ==> lower_of(
                #[trigger] merge_tags_acc(tags, seen)[k1],
            ) != lower_of(#[trigger] merge_tags_acc(tags, seen)[k2]),
    decreases tags.len(),
{
    if tags.len() == 0 {
    } else {
        let rest = tags.drop_first();
        assert(forall|x: Seq<char>| rest.contains(x) ==> tags.contains(x)) by {
            assert(forall|k: int| 0 <= k < rest.len() ==> rest[k] == tags[k + 1]);
            assert forall|x: Seq<char>| rest.contains(x) implies tags.contains(x) by {
                let k = choose|k: int| 0 <= k < rest.len() && rest[k] == x;
                assert(tags[k + 1] == x);
            }
        }
        if seen.contains(lower_of(tags[0])) {
            lemma_merge_acc_props(rest, seen);
            assert(merge_tags_acc(tags, seen) == merge_tags_acc(rest, seen));
        } else {
            let seen2 = seen.push(lower_of(tags[0]));
            lemma_merge_acc_props(rest, seen2);
            let r = merge_tags_acc(tags, seen);
            let r2 = merge_tags_acc(rest, seen2);
            assert(r == seq![tags[0]] + r2);
            assert(r[0] == tags[0]);
            assert(tags.contains(tags[0]));
            assert(forall|k: int| 1 <= k < r.len() ==> r[k] == #[trigger] r2[k - 1]);
            assert(forall|x: Seq<char>| seen.contains(x) ==> seen2.contains(x)) by {
                assert(forall|k: int| 0 <= k < seen.len() ==> seen2[k] == seen[k]);
                assert forall|x: Seq<char>| seen.contains(x) implies seen2.contains(x) by {
                    let k = choose|k: int| 0 <= k < seen.len() && seen[k] == x;
                    assert(seen2[k] == x);
                }
            }
            assert(seen2.contains(lower_of(tags[0]))) by {
                assert(seen2[seen.len() as int] == lower_of(tags[0]));
            }
            // membership in the input tag list
            assert forall|k: int| 0 <= k < r.len() implies tags.contains(#[trigger] r[k]) by {
                if k == 0 {
                } else {
                    assert(rest.contains(r2[k - 1]));
                }
            }
            // nothing kept carries a key already seen
            assert forall|k: int| 0 <= k < r.len() implies !seen.contains(
                lower_of(#[trigger] r[k]),
            ) by {
                if k == 0 {
                } else {
                    assert(!seen2.contains(lower_of(r2[k - 1])));
                }
            }
            // pairwise distinct keys
            assert forall|k1: int, k2: int| 0 <= k1 < k2 < r.len() implies lower_of(
                #[trigger] r[k1],
            ) != lower_of(#[trigger] r[k2]) by {
                if k1 == 0 {
                    assert(!seen2.contains(lower_of(r2[k2 - 1])));
                    assert(lower_of(r[k1]) == lower_of(tags[0]));
                } else {
                    assert(lower_of(r2[k1 - 1]) != lower_of(r2[k2 - 1]));
                }
            }
        }
    }
}

} // verus!
