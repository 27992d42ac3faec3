//! Page-title extraction from fetched HTML: the text between the first
//! `<title...>` and `</title>`, whitespace-collapsed, with the common
//! HTML entities decoded. The fetch itself happens outside the library.

use vstd::prelude::*;
use vstd::string::*;
use crate::text::{
    ascii_lower_chars, ascii_lower_seq, chars_of, find_spec, find_str, join_spaces,
    join_spaces_spec, replace_chars, replace_spec, split_ws_chars, split_ws_spec,
    string_from_chars, subvec, trim_chars, trim_spec,
};

verus! {

/// ASCII lower-casing of one byte.
pub open spec fn lower_u8(b: u8) -> u8 {
    if 65 <= b && b <= 90 {
        (b + 32) as u8
    } else {
        b
    }
}

/// The bytes of `n` occur at position `i` of `h`, compared ASCII
/// case-insensitively.
pub open spec fn bytes_imatch_at(h: Seq<u8>, n: Seq<u8>, i: int) -> bool {
    0 <= i && i + n.len() <= h.len() && forall|k: int|
        0 <= k < n.len() ==> lower_u8(h[i + k]) == lower_u8(#[trigger] n[k])
}

fn lower_byte(b: u8) -> (r: u8)
    ensures
        r == lower_u8(b),
{
    if 65 <= b && b <= 90 {
        b + 32
    } else {
        b
    }
}

/// The first byte position at which `needle` occurs in `haystack`, ASCII
/// case-insensitively; an empty needle matches at the start.
#[verifier::loop_isolation(false)]
pub fn find_ascii_case_insensitive(haystack: &str, needle: &str) -> (r: Option<usize>)
    ensures
        match r {
            Some(i) => bytes_imatch_at(haystack.spec_bytes(), needle.spec_bytes(), i as int)
                && forall|k: int|
                0 <= k < i ==> !bytes_imatch_at(haystack.spec_bytes(), needle.spec_bytes(), k),
            None => forall|k: int|
                !bytes_imatch_at(haystack.spec_bytes(), needle.spec_bytes(), k),
        },
{
    let h = haystack.as_bytes_vec();
    let n = needle.as_bytes_vec();
    let hl = h.len();
    let nl = n.len();
    if nl > hl {
        return None;
    }
    if nl == 0 {
        return Some(0);
    }
    let mut i: usize = 0;
    while i <= hl - nl
        invariant
            i <= hl - nl + 1,
            forall|k: int|
                0 <= k < i ==> !bytes_imatch_at(haystack.spec_bytes(), needle.spec_bytes(), k),
        decreases hl - i,
    {
        let mut j: usize = 0;
        let mut hit = true;
        while j < nl
            invariant
                i + nl <= hl,
                j <= nl,
                hit ==> forall|k: int| 0 <= k < j ==> lower_u8(h@[i + k]) == lower_u8(
                    #[trigger] n@[k],
                ),
                !hit ==> !bytes_imatch_at(haystack.spec_bytes(), needle.spec_bytes(), i as int),
            decreases nl - j,
        {
            if lower_byte(h[i + j]) != lower_byte(n[j]) {
                hit = false;
                proof {
                    assert(!bytes_imatch_at(
                        haystack.spec_bytes(),
                        needle.spec_bytes(),
                        i as int,
                    )) by {
                        if bytes_imatch_at(haystack.spec_bytes(), needle.spec_bytes(), i as int) {
                            assert(lower_u8(h@[i + j]) == lower_u8(n@[j as int]));
                        }
                    }
                }
                j = nl;
            } else {
                j += 1;
            }
        }
        if hit {
            return Some(i);
        }
        i += 1;
    }
    proof {
        assert forall|k: int| !bytes_imatch_at(
            haystack.spec_bytes(),
            needle.spec_bytes(),
            k,
        ) by {
            if bytes_imatch_at(haystack.spec_bytes(), needle.spec_bytes(), k) {
                assert(0 <= k < i);
            }
        }
    }
    None
}

/// The common HTML entities written back as their characters.
pub open spec fn decode_entities_spec(s: Seq<char>) -> Seq<char> {
    let s1 = replace_spec(s, "&quot;"@, "\""@);
    let s2 = replace_spec(s1, "&#39;"@, "'"@);
    let s3 = replace_spec(s2, "&apos;"@, "'"@);
    let s4 = replace_spec(s3, "&nbsp;"@, " "@);
    let s5 = replace_spec(s4, "&lt;"@, "<"@);
    let s6 = replace_spec(s5, "&gt;"@, ">"@);
    replace_spec(s6, "&amp;"@, "&"@)
}

/// Decodes the common HTML entities of a title.
pub fn decode_html_entities(value: &str) -> (r: String)
    ensures
        r@ == decode_entities_spec(value@),
{
    proof {
        reveal_strlit("&quot;");
        reveal_strlit("&#39;");
        reveal_strlit("&apos;");
        reveal_strlit("&nbsp;");
        reveal_strlit("&lt;");
        reveal_strlit("&gt;");
        reveal_strlit("&amp;");
    }
    let v0 = chars_of(value);
    let v1 = replace_chars(&v0, "&quot;", "\"");
    let v2 = replace_chars(&v1, "&#39;", "'");
    let v3 = replace_chars(&v2, "&apos;", "'");
    let v4 = replace_chars(&v3, "&nbsp;", " ");
    let v5 = replace_chars(&v4, "&lt;", "<");
    let v6 = replace_chars(&v5, "&gt;", ">");
    let v7 = replace_chars(&v6, "&amp;", "&");
    string_from_chars(&v7)
}

/// The page title of an HTML document: the text between the first
/// `<title` tag's closing `>` and the following `</title>`, found ASCII
/// case-insensitively; nothing when the tags are absent or the text is
/// blank; otherwise trimmed of surrounding whitespace, inner runs of
/// whitespace collapsed to single spaces, and entities decoded.
pub open spec fn extract_html_title_spec(html: Seq<char>) -> Option<Seq<char>> {
    let lower = ascii_lower_seq(html);
    match find_spec(lower, "<title"@) {
        None => None,
        Some(i0) => match find_spec(lower.skip(i0), ">"@) {
            None => None,
            Some(rel) => {
                let start = i0 + rel + 1;
                match find_spec(lower.skip(start), "</title>"@) {
                    None => None,
                    Some(e) => {
                        let raw = html.subrange(start, start + e);
                        if trim_spec(raw).len() == 0 {
                            None
                        } else {
                            Some(decode_entities_spec(join_spaces_spec(split_ws_spec(raw))))
                        }
                    },
                }
            },
        },
    }
}

/// Extracts the page title from fetched HTML, if one is present.
pub fn extract_html_title(html: &str) -> (r: Option<String>)
    ensures
        r.deep_view() == extract_html_title_spec(html@),
{
    let chars = chars_of(html);
    let lower = ascii_lower_chars(&chars);
    let ll = lower.len();
    let i0 = match find_str(&lower, "<title") {
        None => {
            return None;
        },
        Some(i) => i,
    };
    proof {
        reveal_strlit("<title");
        assert(i0 <= ll);
    }
    let rest1 = subvec(&lower, i0, ll);
    proof {
        assert(rest1@ =~= lower@.skip(i0 as int));
    }
    let rel = match find_str(&rest1, ">") {
        None => {
            return None;
        },
        Some(p) => p,
    };
    proof {
        reveal_strlit(">");
        assert(rel + 1 <= rest1@.len());
        assert(i0 + rel + 1 <= ll);
    }
    let start = i0 + rel + 1;
    let rest2 = subvec(&lower, start, ll);
    proof {
        assert(rest2@ =~= lower@.skip(start as int));
    }
    let e = match find_str(&rest2, "</title>") {
        None => {
            return None;
        },
        Some(p) => p,
    };
    proof {
        reveal_strlit("</title>");
        assert(start + e <= ll);
    }
    let raw = subvec(&chars, start, start + e);
    proof {
        assert(raw@ =~= chars@.subrange(start as int, start + e));
    }
    let trimmed = trim_chars(&raw);
    if trimmed.len() == 0 {
        return None;
    }
    let parts = split_ws_chars(&raw);
    let joined = join_spaces(&parts);
    Some(decode_html_entities(joined.as_str()))
}

} // verus!
