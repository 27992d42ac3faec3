//! Character-sequence utilities shared by the response classifier, the URL
//! and tag handling, and the HTML-title and theme parsers.
//!
//! Executable code works on `Vec<char>` so that every transformation can be
//! stated over `Seq<char>` views.

use vstd::prelude::*;
use vstd::string::StrSliceExecFns;

verus! {

/// The characters of `s`, in order, as a vector.
pub fn chars_of(s: &str) -> (v: Vec<char>)
    ensures
        v@ == s@,
{
    let n = s.unicode_len();
    let mut v: Vec<char> = Vec::new();
    let mut i: usize = 0;
    while i < n
        invariant
            n == s@.len(),
            i <= n,
            v@ == s@.take(i as int),
        decreases n - i,
    {
        let c = s.get_char(i);
        v.push(c);
        proof {
            assert(s@.take(i + 1 as int) =~= s@.take(i as int).push(s@[i as int]));
        }
        i += 1;
    }
    proof {
        assert(v@ =~= s@);
    }
    v
}

/// Relies on `String` implementing `FromIterator<char>`: collecting yields
/// exactly the given characters in order.
#[verifier::external_body]
pub fn string_from_chars(v: &Vec<char>) -> (s: String)
    ensures
        s@ == v@,
{
    v.iter().collect()
}

/// `n` occurs in `h` starting at position `i`.
pub open spec fn matches_at(h: Seq<char>, n: Seq<char>, i: int) -> bool {
    0 <= i && i + n.len() <= h.len() && h.subrange(i, i + n.len()) == n
}

/// `n` occurs somewhere in `h`.
pub open spec fn contains_seq(h: Seq<char>, n: Seq<char>) -> bool {
    exists|i: int| matches_at(h, n, i)
}

fn matches_at_exec(h: &Vec<char>, needle: &str, i: usize, m: usize) -> (r: bool)
    requires
        m == needle@.len(),
        i + m <= h@.len(),
    ensures
        r == matches_at(h@, needle@, i as int),
{
    let mut j: usize = 0;
    while j < m
        invariant
            m == needle@.len(),
            i + m <= h@.len(),
            j <= m,
            forall|k: int| 0 <= k < j ==> h@[i + k] == needle@[k],
        decreases m - j,
    {
        let hl = h.len();
        assert(i + j < hl);
        let hc = h[i + j];
        let nc = needle.get_char(j);
        if hc != nc {
            proof {
                assert(h@.subrange(i as int, i + m) != needle@) by {
                    if h@.subrange(i as int, i + m) == needle@ {
                        assert(h@.subrange(i as int, i + m)[j as int] == h@[i + j]);
                    }
                }
            }
            return false;
        }
        j += 1;
    }
    proof {
        assert(h@.subrange(i as int, i + m) =~= needle@);
    }
    true
}

/// Whether the characters of `needle` occur as a contiguous run in `h`.
pub fn contains_str(h: &Vec<char>, needle: &str) -> (r: bool)
    ensures
        r == contains_seq(h@, needle@),
{
    match find_str(h, needle) {
        Some(_) => true,
        None => false,
    }
}

/// The first position at which `needle` occurs in `h`, if any.
pub fn find_str(h: &Vec<char>, needle: &str) -> (r: Option<usize>)
    ensures
        match r {
            Some(i) => matches_at(h@, needle@, i as int) && forall|k: int|
                0 <= k < i ==> !matches_at(h@, needle@, k),
            None => !contains_seq(h@, needle@),
        },
        match r {
            Some(i) => find_spec(h@, needle@) == Some(i as int),
            None => find_spec(h@, needle@) is None,
        },
{
    let m = needle.unicode_len();
    let len = h.len();
    if m > len {
        proof {
            assert(forall|i: int| !matches_at(h@, needle@, i));
            lemma_find_spec_none(h@, needle@);
        }
        return None;
    }
    if m == 0 {
        proof {
            assert(h@.subrange(0, 0) =~= needle@);
            lemma_find_spec_some(h@, needle@, 0);
        }
        return Some(0);
    }
    let mut i: usize = 0;
    while i <= len - m
        invariant
            m == needle@.len(),
            len == h@.len(),
            1 <= m <= len,
            i <= len - m + 1,
            forall|k: int| 0 <= k < i ==> !matches_at(h@, needle@, k),
        decreases len - i,
    {
        if matches_at_exec(h, needle, i, m) {
            proof {
                lemma_find_spec_some(h@, needle@, i as int);
            }
            return Some(i);
        }
        i += 1;
    }
    proof {
        assert(forall|k: int| !matches_at(h@, needle@, k) ==> true);
        assert(!contains_seq(h@, needle@)) by {
            if contains_seq(h@, needle@) {
                let k = choose|k: int| matches_at(h@, needle@, k);
                assert(k + m <= len);
                assert(0 <= k < i);
            }
        }
        lemma_find_spec_none(h@, needle@);
    }
    None
}

/// The smallest position at which `n` occurs in `h`, as a specification.
pub open spec fn find_spec(h: Seq<char>, n: Seq<char>) -> Option<int>
    decreases h.len(),
{
    if n.len() > h.len() {
        None
    } else if matches_at(h, n, 0) {
        Some(0)
    } else if h.len() == 0 {
        None
    } else {
        match find_spec(h.drop_first(), n) {
            Some(i) => Some(i + 1),
            None => None,
        }
    }
}

pub proof fn lemma_find_spec_some(h: Seq<char>, n: Seq<char>, i: int)
    requires
        matches_at(h, n, i),
        forall|k: int| 0 <= k < i ==> !matches_at(h, n, k),
    ensures
        find_spec(h, n) == Some(i),
    decreases i,
{
    if i == 0 {
    } else {
        assert(!matches_at(h, n, 0));
        assert(h.len() > 0);
        let h2 = h.drop_first();
        assert(h2.subrange(i - 1, i - 1 + n.len()) =~= h.subrange(i, i + n.len()));
        assert(matches_at(h2, n, i - 1));
        assert forall|k: int| 0 <= k < i - 1 implies !matches_at(h2, n, k) by {
            if matches_at(h2, n, k) {
                assert(h2.subrange(k, k + n.len()) =~= h.subrange(k + 1, k + 1 + n.len()));
                assert(matches_at(h, n, k + 1));
            }
        }
        lemma_find_spec_some(h2, n, i - 1);
    }
}

pub proof fn lemma_find_spec_none(h: Seq<char>, n: Seq<char>)
    requires
        !contains_seq(h, n),
    ensures
        find_spec(h, n) is None,
    decreases h.len(),
{
    if n.len() > h.len() {
    } else if matches_at(h, n, 0) {
        assert(contains_seq(h, n));
    } else if h.len() == 0 {
    } else {
        let h2 = h.drop_first();
        assert(!contains_seq(h2, n)) by {
            if contains_seq(h2, n) {
                let k = choose|k: int| matches_at(h2, n, k);
                assert(h2.subrange(k, k + n.len()) =~= h.subrange(k + 1, k + 1 + n.len()));
                assert(matches_at(h, n, k + 1));
            }
        }
        lemma_find_spec_none(h2, n);
    }
}

/// A copy of `v[a..b]`.
pub fn subvec(v: &Vec<char>, a: usize, b: usize) -> (r: Vec<char>)
    requires
        a <= b <= v@.len(),
    ensures
        r@ == v@.subrange(a as int, b as int),
{
    let mut r: Vec<char> = Vec::new();
    let mut i: usize = a;
    while i < b
        invariant
            a <= i <= b <= v@.len(),
            r@ == v@.subrange(a as int, i as int),
        decreases b - i,
    {
        r.push(v[i]);
        proof {
            assert(v@.subrange(a as int, i + 1 as int) =~= v@.subrange(a as int, i as int).push(
                v@[i as int],
            ));
        }
        i += 1;
    }
    r
}

/// Whether `h` begins with the characters of `prefix`.
pub fn starts_with_str(h: &Vec<char>, prefix: &str) -> (r: bool)
    ensures
        r == matches_at(h@, prefix@, 0),
{
    let m = prefix.unicode_len();
    if m > h.len() {
        return false;
    }
    matches_at_exec(h, prefix, 0, m)
}

/// ASCII lower-casing of a single character; anything outside `A`..`Z` is
/// unchanged.
pub open spec fn ascii_lower_char(c: char) -> char {
    if 65 <= c as u32 && c as u32 <= 90 {
        ((c as u32 + 32) as u8) as char
    } else {
        c
    }
}

/// ASCII lower-casing of a character sequence.
pub open spec fn ascii_lower_seq(s: Seq<char>) -> Seq<char> {
    s.map_values(|c: char| ascii_lower_char(c))
}

pub fn ascii_lower(c: char) -> (r: char)
    ensures
        r == ascii_lower_char(c),
{
    let u = c as u32;
    if 65 <= u && u <= 90 {
        ((u + 32) as u8) as char
    } else {
        c
    }
}

/// The ASCII lower-casing of every character of `v`.
pub fn ascii_lower_chars(v: &Vec<char>) -> (r: Vec<char>)
    ensures
        r@ == ascii_lower_seq(v@),
{
    let mut r: Vec<char> = Vec::new();
    let mut i: usize = 0;
    while i < v.len()
        invariant
            i <= v@.len(),
            r@ == ascii_lower_seq(v@.take(i as int)),
        decreases v@.len() - i,
    {
        r.push(ascii_lower(v[i]));
        proof {
            assert(ascii_lower_seq(v@.take(i + 1 as int)) =~= ascii_lower_seq(
                v@.take(i as int),
            ).push(ascii_lower_char(v@[i as int])));
        }
        i += 1;
    }
    proof {
        assert(v@.take(v@.len() as int) =~= v@);
    }
    r
}

/// Whether `v` and `s` are equal up to ASCII case.
pub fn eq_ignore_ascii_case_str(v: &Vec<char>, s: &str) -> (r: bool)
    ensures
        r == (ascii_lower_seq(v@) == ascii_lower_seq(s@)),
{
    let n = s.unicode_len();
    if v.len() != n {
        proof {
            assert(ascii_lower_seq(v@).len() == v@.len());
            assert(ascii_lower_seq(s@).len() == s@.len());
        }
        return false;
    }
    let mut i: usize = 0;
    while i < n
        invariant
            n == s@.len(),
            v@.len() == n,
            i <= n,
            forall|k: int| 0 <= k < i ==> ascii_lower_char(v@[k]) == ascii_lower_char(s@[k]),
        decreases n - i,
    {
        let a = ascii_lower(v[i]);
        let b = ascii_lower(s.get_char(i));
        if a != b {
            proof {
                assert(ascii_lower_seq(v@)[i as int] != ascii_lower_seq(s@)[i as int]);
            }
            return false;
        }
        i += 1;
    }
    proof {
        assert(ascii_lower_seq(v@) =~= ascii_lower_seq(s@));
    }
    true
}

/// Whether a character counts as whitespace, in the Unicode sense.
pub uninterp spec fn is_unicode_ws(c: char) -> bool;

/// Relies on char::is_whitespace: whether `c` has the Unicode White_Space
/// property, a function of the character alone.
#[verifier::external_body]
pub fn char_is_ws(c: char) -> (r: bool)
    ensures
        r == is_unicode_ws(c),
{
    c.is_whitespace()
}

pub open spec fn trim_start_spec(s: Seq<char>) -> Seq<char>
    decreases s.len(),
{
    if s.len() > 0 && is_unicode_ws(s[0]) {
        trim_start_spec(s.drop_first())
    } else {
        s
    }
}

pub open spec fn trim_end_spec(s: Seq<char>) -> Seq<char>
    decreases s.len(),
{
    if s.len() > 0 && is_unicode_ws(s[s.len() - 1]) {
        trim_end_spec(s.drop_last())
    } else {
        s
    }
}

/// `s` with leading and trailing whitespace removed.
pub open spec fn trim_spec(s: Seq<char>) -> Seq<char> {
    trim_end_spec(trim_start_spec(s))
}

pub proof fn lemma_trim_start_skip(s: Seq<char>, a: int)
    requires
        0 <= a <= s.len(),
        forall|k: int| 0 <= k < a ==> is_unicode_ws(s[k]),
        a < s.len() ==> !is_unicode_ws(s[a]),
    ensures
        trim_start_spec(s) == s.skip(a),
    decreases a,
{
    if a == 0 {
        assert(s.skip(0) =~= s);
    } else {
        assert(is_unicode_ws(s[0]));
        assert(forall|k: int| 0 <= k < a - 1 ==> is_unicode_ws(s.drop_first()[k]));
        lemma_trim_start_skip(s.drop_first(), a - 1);
        assert(s.drop_first().skip(a - 1) =~= s.skip(a));
    }
}

pub proof fn lemma_trim_end_take(s: Seq<char>, b: int)
    requires
        0 <= b <= s.len(),
        forall|k: int| b <= k < s.len() ==> is_unicode_ws(s[k]),
        b > 0 ==> !is_unicode_ws(s[b - 1]),
    ensures
        trim_end_spec(s) == s.take(b),
    decreases s.len() - b,
{
    if b == s.len() {
        assert(s.take(b) =~= s);
    } else {
        assert(is_unicode_ws(s[s.len() - 1]));
        assert(forall|k: int| b <= k < s.drop_last().len() ==> is_unicode_ws(s.drop_last()[k]));
        lemma_trim_end_take(s.drop_last(), b);
        assert(s.drop_last().take(b) =~= s.take(b));
    }
}

/// `v` with leading and trailing whitespace removed.
pub fn trim_chars(v: &Vec<char>) -> (t: Vec<char>)
    ensures
        t@ == trim_spec(v@),
{
    let len = v.len();
    let mut a: usize = 0;
    loop
        invariant
            len == v@.len(),
            a <= len,
            forall|k: int| 0 <= k < a ==> is_unicode_ws(v@[k]),
        ensures
            a <= len,
            forall|k: int| 0 <= k < a ==> is_unicode_ws(v@[k]),
            a < len ==> !is_unicode_ws(v@[a as int]),
        decreases len - a,
    {
        if a >= len {
            break ;
        }
        if !char_is_ws(v[a]) {
            break ;
        }
        a += 1;
    }
    let mut b: usize = len;
    loop
        invariant
            len == v@.len(),
            a <= b <= len,
            forall|k: int| b <= k < len ==> is_unicode_ws(v@[k]),
        ensures
            a <= b <= len,
            forall|k: int| b <= k < len ==> is_unicode_ws(v@[k]),
            b > a ==> !is_unicode_ws(v@[b - 1]),
        decreases b,
    {
        if b <= a {
            break ;
        }
        if !char_is_ws(v[b - 1]) {
            break ;
        }
        b -= 1;
    }
    let mut t: Vec<char> = Vec::new();
    let mut i: usize = a;
    while i < b
        invariant
            len == v@.len(),
            a <= i <= b <= len,
            t@ == v@.subrange(a as int, i as int),
        decreases b - i,
    {
        t.push(v[i]);
        proof {
            assert(v@.subrange(a as int, i + 1 as int) =~= v@.subrange(a as int, i as int).push(
                v@[i as int],
            ));
        }
        i += 1;
    }
    proof {
        lemma_trim_start_skip(v@, a as int);
        if b == a {
            lemma_trim_end_take(v@.skip(a as int), 0);
        } else {
            assert(forall|k: int|
                b - a <= k < v@.skip(a as int).len() ==> is_unicode_ws(v@.skip(a as int)[k]));
            lemma_trim_end_take(v@.skip(a as int), b - a);
        }
        assert(v@.skip(a as int).take(b - a) =~= v@.subrange(a as int, b as int));
    }
    t
}

/// Helper for [`split_ws_spec`]: splitting the rest `s` while a token `cur`
/// is being collected.
pub open spec fn split_ws_acc(s: Seq<char>, cur: Seq<char>) -> Seq<Seq<char>>
    decreases s.len(),
{
    if s.len() == 0 {
        if cur.len() > 0 {
            seq![cur]
        } else {
            Seq::empty()
        }
    } else if is_unicode_ws(s[0]) {
        if cur.len() > 0 {
            seq![cur] + split_ws_acc(s.drop_first(), Seq::empty())
        } else {
            split_ws_acc(s.drop_first(), Seq::empty())
        }
    } else {
        split_ws_acc(s.drop_first(), cur.push(s[0]))
    }
}

/// The maximal whitespace-free runs of `s`, in order.
pub open spec fn split_ws_spec(s: Seq<char>) -> Seq<Seq<char>> {
    split_ws_acc(s, Seq::empty())
}

/// The tokens of `v`: maximal runs of non-whitespace characters.
pub fn split_ws_chars(v: &Vec<char>) -> (parts: Vec<String>)
    ensures
        parts.deep_view() == split_ws_spec(v@),
{
    let len = v.len();
    let mut parts: Vec<String> = Vec::new();
    let mut cur: Vec<char> = Vec::new();
    let mut i: usize = 0;
    proof {
        assert(v@.skip(0) =~= v@);
        assert(parts.deep_view() =~~= Seq::<Seq<char>>::empty());
        assert(parts.deep_view() + split_ws_acc(v@, Seq::empty()) =~~= split_ws_acc(
            v@,
            Seq::empty(),
        ));
    }
    while i < len
        invariant
            len == v@.len(),
            i <= len,
            split_ws_spec(v@) == parts.deep_view() + split_ws_acc(v@.skip(i as int), cur@),
        decreases len - i,
    {
        let c = v[i];
        proof {
            assert(v@.skip(i as int)[0] == v@[i as int]);
            assert(v@.skip(i as int).drop_first() =~= v@.skip(i + 1 as int));
        }
        if char_is_ws(c) {
            if cur.len() > 0 {
                let token = string_from_chars(&cur);
                let ghost old_parts = parts.deep_view();
                parts.push(token);
                cur = Vec::new();
                proof {
                    assert(parts.deep_view() =~~= old_parts + seq![token@]);
                    assert(old_parts + (seq![token@] + split_ws_acc(v@.skip(i + 1 as int), Seq::empty()))
                        =~~= (old_parts + seq![token@]) + split_ws_acc(v@.skip(i + 1 as int), Seq::empty()));
                }
            } else {
                cur = Vec::new();
            }
        } else {
            cur.push(c);
        }
        i += 1;
    }
    proof {
        assert(v@.skip(len as int) =~= Seq::<char>::empty());
    }
    if cur.len() > 0 {
        let token = string_from_chars(&cur);
        let ghost old_parts = parts.deep_view();
        parts.push(token);
        proof {
            assert(parts.deep_view() =~~= old_parts + seq![token@]);
            assert(split_ws_spec(v@) =~~= parts.deep_view());
        }
    } else {
        proof {
            assert(split_ws_spec(v@) =~~= parts.deep_view());
        }
    }
    parts
}

/// The parts joined with a single space between consecutive parts.
pub open spec fn join_spaces_spec(parts: Seq<Seq<char>>) -> Seq<char>
    decreases parts.len(),
{
    if parts.len() == 0 {
        Seq::empty()
    } else if parts.len() == 1 {
        parts[0]
    } else {
        parts[0] + seq![' '] + join_spaces_spec(parts.drop_first())
    }
}

proof fn lemma_join_push(parts: Seq<Seq<char>>, x: Seq<char>)
    ensures
        parts.len() == 0 ==> join_spaces_spec(parts.push(x)) =~= x,
        parts.len() > 0 ==> join_spaces_spec(parts.push(x)) =~= join_spaces_spec(parts)
            + seq![' '] + x,
    decreases parts.len(),
{
    if parts.len() == 0 {
        assert(parts.push(x)[0] == x);
        assert(parts.push(x).len() == 1);
    } else if parts.len() == 1 {
        assert(parts.push(x).drop_first() =~= seq![x]);
        assert(join_spaces_spec(seq![x]) == x);
    } else {
        assert(parts.push(x).drop_first() =~= parts.drop_first().push(x));
        lemma_join_push(parts.drop_first(), x);
    }
}

/// The strings of `parts` joined with single spaces.
pub fn join_spaces(parts: &Vec<String>) -> (r: String)
    ensures
        r@ == join_spaces_spec(parts.deep_view()),
{
    let mut r = String::new();
    let mut i: usize = 0;
    while i < parts.len()
        invariant
            i <= parts@.len(),
            parts.deep_view().len() == parts@.len(),
            r@ == join_spaces_spec(parts.deep_view().take(i as int)),
        decreases parts@.len() - i,
    {
        proof {
            assert(parts.deep_view().take(i + 1 as int) =~= parts.deep_view().take(
                i as int,
            ).push(parts@[i as int]@));
            lemma_join_push(parts.deep_view().take(i as int), parts@[i as int]@);
        }
        if i > 0 {
            r.append(" ");
            proof {
                reveal_strlit(" ");
                assert(" "@ =~= seq![' ']);
            }
        }
        r.append(parts[i].as_str());
        i += 1;
    }
    proof {
        assert(parts.deep_view().take(parts.deep_view().len() as int) =~= parts.deep_view());
    }
    r
}

/// `s` with every non-overlapping occurrence of `from` replaced by `to`,
/// scanning left to right; the empty pattern replaces nothing.
pub open spec fn replace_spec(s: Seq<char>, from: Seq<char>, to: Seq<char>) -> Seq<char>
    decreases s.len(),
{
    if from.len() == 0 || s.len() == 0 {
        s
    } else if matches_at(s, from, 0) {
        to + replace_spec(s.skip(from.len() as int), from, to)
    } else {
        seq![s[0]] + replace_spec(s.drop_first(), from, to)
    }
}

/// `v` with every occurrence of `from` replaced by `to`.
pub fn replace_chars(v: &Vec<char>, from: &str, to: &str) -> (r: Vec<char>)
    requires
        from@.len() >= 1,
    ensures
        r@ == replace_spec(v@, from@, to@),
{
    let len = v.len();
    let m = from.unicode_len();
    let to_chars = chars_of(to);
    let mut r: Vec<char> = Vec::new();
    let mut i: usize = 0;
    proof {
        assert(v@.skip(0) =~= v@);
        assert(r@ + replace_spec(v@, from@, to@) =~= replace_spec(v@, from@, to@));
    }
    while i < len
        invariant
            len == v@.len(),
            m == from@.len(),
            1 <= m,
            to_chars@ == to@,
            i <= len,
            replace_spec(v@, from@, to@) == r@ + replace_spec(v@.skip(i as int), from@, to@),
        decreases len - i,
    {
        proof {
            assert(v@.skip(i as int)[0] == v@[i as int]);
            assert(v@.skip(i as int).drop_first() =~= v@.skip(i + 1 as int));
        }
        let is_match = if m <= len - i {
            let hit = matches_at_exec(v, from, i, m);
            proof {
                if hit {
                    assert(v@.skip(i as int).subrange(0, m as int) =~= v@.subrange(
                        i as int,
                        i + m,
                    ));
                }
                if !hit {
                    assert(v@.skip(i as int).subrange(0, m as int) =~= v@.subrange(
                        i as int,
                        i + m,
                    ));
                }
            }
            hit
        } else {
            proof {
                assert(!matches_at(v@.skip(i as int), from@, 0));
            }
            false
        };
        if is_match {
            let ghost old_r = r@;
            let mut j: usize = 0;
            while j < to_chars.len()
                invariant
                    to_chars@ == to@,
                    j <= to@.len(),
                    r@ == old_r + to@.take(j as int),
                decreases to@.len() - j,
            {
                r.push(to_chars[j]);
                proof {
                    assert(old_r + to@.take(j + 1 as int) =~= (old_r + to@.take(j as int)).push(
                        to@[j as int],
                    ));
                }
                j += 1;
            }
            proof {
                assert(to@.take(to@.len() as int) =~= to@);
                assert(v@.skip(i as int).skip(m as int) =~= v@.skip(i + m));
                assert((old_r + to@) + replace_spec(v@.skip(i + m), from@, to@) =~= old_r + (to@
                    + replace_spec(v@.skip(i + m), from@, to@)));
            }
            i += m;
        } else {
            let ghost old_r = r@;
            r.push(v[i]);
            proof {
                assert((old_r + seq![v@[i as int]]) + replace_spec(v@.skip(i + 1 as int), from@, to@)
                    =~= old_r + (seq![v@[i as int]] + replace_spec(v@.skip(i + 1 as int), from@, to@)));
                assert(old_r.push(v@[i as int]) =~= old_r + seq![v@[i as int]]);
            }
            i += 1;
        }
    }
    proof {
        assert(v@.skip(len as int) =~= Seq::<char>::empty());
    }
    r
}

/// Decimal digit test and value.
pub open spec fn is_digit_char(c: char) -> bool {
    48 <= c as u32 && c as u32 <= 57
}

pub open spec fn digit_val(c: char) -> int {
    c as u32 - 48
}

pub open spec fn all_digits(s: Seq<char>) -> bool {
    forall|k: int| 0 <= k < s.len() ==> is_digit_char(s[k])
}

/// The number denoted by a sequence of decimal digits, most significant
/// first.
pub open spec fn digits_val(s: Seq<char>) -> int
    decreases s.len(),
{
    if s.len() == 0 {
        0
    } else {
        digits_val(s.drop_last()) * 10 + digit_val(s.last())
    }
}

proof fn lemma_digits_val_nonneg(s: Seq<char>)
    requires
        all_digits(s),
    ensures
        digits_val(s) >= 0,
    decreases s.len(),
{
    if s.len() > 0 {
        assert(all_digits(s.drop_last()));
        lemma_digits_val_nonneg(s.drop_last());
    }
}

proof fn lemma_digits_val_prefix(s: Seq<char>, k: int)
    requires
        all_digits(s),
        0 <= k <= s.len(),
    ensures
        digits_val(s.take(k)) <= digits_val(s),
    decreases s.len() - k,
{
    if k < s.len() {
        assert(s.take(k + 1).drop_last() =~= s.take(k));
        assert(all_digits(s.take(k + 1)));
        assert(all_digits(s.take(k)));
        lemma_digits_val_nonneg(s.take(k));
        assert(digits_val(s.take(k + 1)) == digits_val(s.take(k)) * 10 + digit_val(
            s.take(k + 1).last(),
        ));
        assert(digit_val(s.take(k + 1).last()) >= 0);
        assert(digits_val(s.take(k)) * 10 >= digits_val(s.take(k)));
        lemma_digits_val_prefix(s, k + 1);
    } else {
        assert(s.take(k) =~= s);
    }
}

/// The positive number that `s` denotes after trimming, if it parses as a
/// (possibly `+`-signed) decimal integer that fits an `i64` and is greater
/// than zero.
pub open spec fn parse_positive_i64_spec(s: Seq<char>) -> Option<i64> {
    let t = trim_spec(s);
    let u = if t.len() > 0 && (t[0] == '+' || t[0] == '-') {
        t.drop_first()
    } else {
        t
    };
    let neg = t.len() > 0 && t[0] == '-';
    if u.len() > 0 && all_digits(u) && !neg && digits_val(u) <= i64::MAX && digits_val(u) > 0 {
        Some(digits_val(u) as i64)
    } else {
        None
    }
}

/// Parses `s` as a positive decimal count of seconds, as a `Retry-After`
/// header is read: trimmed, optionally signed, and discarded unless it is a
/// positive integer that fits an `i64`.
#[verifier::loop_isolation(false)]
pub fn parse_positive_i64(s: &str) -> (r: Option<i64>)
    ensures
        r == parse_positive_i64_spec(s@),
{
    let chars = chars_of(s);
    let t = trim_chars(&chars);
    let (u, neg): (Vec<char>, bool) = if t.len() > 0 && (t[0] == '+' || t[0] == '-') {
        let neg = t[0] == '-';
        let mut u: Vec<char> = Vec::new();
        let mut i: usize = 1;
        while i < t.len()
            invariant
                1 <= i <= t@.len(),
                u@ == t@.subrange(1, i as int),
            decreases t@.len() - i,
        {
            u.push(t[i]);
            proof {
                assert(t@.subrange(1, i + 1 as int) =~= t@.subrange(1, i as int).push(
                    t@[i as int],
                ));
            }
            i += 1;
        }
        proof {
            assert(t@.subrange(1, t@.len() as int) =~= t@.drop_first());
        }
        (u, neg)
    } else {
        (t, false)
    };
    if u.len() == 0 || neg {
        return None;
    }
    let mut acc: i64 = 0;
    let mut i: usize = 0;
    while i < u.len()
        invariant
            i <= u@.len(),
            forall|k: int| 0 <= k < i ==> is_digit_char(u@[k]),
            0 <= acc,
            acc == digits_val(u@.take(i as int)),
        decreases u@.len() - i,
    {
        let c = u[i];
        let cu = c as u32;
        proof {
            assert(cu == c as u32);
        }
        if !(48 <= cu && cu <= 57) {
            return None;
        }
        let d = (cu - 48) as i64;
        proof {
            assert(u@.take(i + 1 as int).drop_last() =~= u@.take(i as int));
        }
        let next = match acc.checked_mul(10) {
            Some(x) => x.checked_add(d),
            None => None,
        };
        match next {
            Some(x) => {
                acc = x;
            },
            None => {
                proof {
                    assert(all_digits(u@.take(i + 1 as int)));
                    assert(digits_val(u@.take(i + 1 as int)) == acc * 10 + d);
                    if all_digits(u@) {
                        lemma_digits_val_prefix(u@, i + 1);
                    }
                }
                return None;
            },
        }
        i += 1;
    }
    proof {
        assert(u@.take(u@.len() as int) =~= u@);
    }
    if acc > 0 {
        Some(acc)
    } else {
        None
    }
}

} // verus!

