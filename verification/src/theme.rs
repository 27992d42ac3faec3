//! Parsing of the local theme's colour table: `key = "#rrggbb"` lines,
//! comments and blanks skipped, values checked as hex colours. Reading
//! the files happens outside the library.

use vstd::prelude::*;
use crate::text::{chars_of, find_spec, find_str, string_from_chars, subvec, trim_chars,
    trim_spec};

verus! {

/// A named local theme: its name and its colour table, as parsed.
#[derive(Clone, Debug, PartialEq)]
pub struct OmarchyTheme {
    pub name: String,
    pub colors: Vec<(String, String)>,
}

/// The lines of a text, as a text file is read: split at newlines, a
/// carriage return before a newline stripped, the final line ending
/// optional.
pub open spec fn split_lines_acc(s: Seq<char>, cur: Seq<char>) -> Seq<Seq<char>>
    decreases s.len(),
{
    if s.len() == 0 {
        if cur.len() > 0 {
            seq![cur]
        } else {
            Seq::empty()
        }
    } else if s[0] == '\n' {
        seq![strip_cr(cur)] + split_lines_acc(s.drop_first(), Seq::empty())
    } else {
        split_lines_acc(s.drop_first(), cur.push(s[0]))
    }
}

pub open spec fn strip_cr(l: Seq<char>) -> Seq<char> {
    if l.len() > 0 && l.last() == '\r' {
        l.drop_last()
    } else {
        l
    }
}

pub open spec fn split_lines_spec(s: Seq<char>) -> Seq<Seq<char>> {
    split_lines_acc(s, Seq::empty())
}

/// Leading and trailing double quotes removed, as `trim_matches` does.
pub open spec fn qtrim_start(s: Seq<char>) -> Seq<char>
    decreases s.len(),
{
    if s.len() > 0 && s[0] == '"' {
        qtrim_start(s.drop_first())
    } else {
        s
    }
}

pub open spec fn qtrim_end(s: Seq<char>) -> Seq<char>
    decreases s.len(),
{
    if s.len() > 0 && s[s.len() - 1] == '"' {
        qtrim_end(s.drop_last())
    } else {
        s
    }
}

pub open spec fn trim_quotes(s: Seq<char>) -> Seq<char> {
    qtrim_end(qtrim_start(s))
}

proof fn lemma_qtrim_start_skip(s: Seq<char>, a: int)
    requires
        0 <= a <= s.len(),
        forall|k: int| 0 <= k < a ==> s[k] == '"',
        a < s.len() ==> s[a] != '"',
    ensures
        qtrim_start(s) == s.skip(a),
    decreases a,
{
    if a == 0 {
        assert(s.skip(0) =~= s);
    } else {
        assert(s[0] == '"');
        assert(forall|k: int| 0 <= k < a - 1 ==> s.drop_first()[k] == '"');
        lemma_qtrim_start_skip(s.drop_first(), a - 1);
        assert(s.drop_first().skip(a - 1) =~= s.skip(a));
    }
}

proof fn lemma_qtrim_end_take(s: Seq<char>, b: int)
    requires
        0 <= b <= s.len(),
        forall|k: int| b <= k < s.len() ==> s[k] == '"',
        b > 0 ==> s[b - 1] != '"',
    ensures
        qtrim_end(s) == s.take(b),
    decreases s.len() - b,
{
    if b == s.len() {
        assert(s.take(b) =~= s);
    } else {
        assert(s[s.len() - 1] == '"');
        assert(forall|k: int| b <= k < s.drop_last().len() ==> s.drop_last()[k] == '"');
        lemma_qtrim_end_take(s.drop_last(), b);
        assert(s.drop_last().take(b) =~= s.take(b));
    }
}

/// `v` with all leading and trailing double quotes removed.
fn qtrim_chars(v: &Vec<char>) -> (t: Vec<char>)
    ensures
        t@ == trim_quotes(v@),
{
    let len = v.len();
    let mut a: usize = 0;
    loop
        invariant
            len == v@.len(),
            a <= len,
            forall|k: int| 0 <= k < a ==> v@[k] == '"',
        ensures
            a <= len,
            forall|k: int| 0 <= k < a ==> v@[k] == '"',
            a < len ==> v@[a as int] != '"',
        decreases len - a,
    {
        if a >= len {
            break ;
        }
        if !(v[a] == '"') {
            break ;
        }
        a += 1;
    }
    let mut b: usize = len;
    loop
        invariant
            len == v@.len(),
            a <= b <= len,
            forall|k: int| b <= k < len ==> v@[k] == '"',
        ensures
            a <= b <= len,
            forall|k: int| b <= k < len ==> v@[k] == '"',
            b > a ==> v@[b - 1] != '"',
        decreases b,
    {
        if b <= a {
            break ;
        }
        if !(v[b - 1] == '"') {
            break ;
        }
        b -= 1;
    }
    let t = subvec(v, a, b);
    proof {
        lemma_qtrim_start_skip(v@, a as int);
        if b == a {
            lemma_qtrim_end_take(v@.skip(a as int), 0);
        } else {
            assert(forall|k: int|
                b - a <= k < v@.skip(a as int).len() ==> v@.skip(a as int)[k] == '"');
            lemma_qtrim_end_take(v@.skip(a as int), b - a);
        }
        assert(v@.skip(a as int).take(b - a) =~= v@.subrange(a as int, b as int));
    }
    t
}

pub open spec fn is_hex_digit_char(c: char) -> bool {
    (48 <= c as u32 && c as u32 <= 57) || (97 <= c as u32 && c as u32 <= 102) || (65 <= c as u32
        && c as u32 <= 70)
}

/// `#` followed by 6 or 8 hex digits.
pub open spec fn is_hex_color(v: Seq<char>) -> bool {
    v.len() > 0 && v[0] == '#' && (v.len() == 7 || v.len() == 9) && forall|k: int|
        1 <= k < v.len() ==> is_hex_digit_char(#[trigger] v[k])
}

/// What one line contributes: nothing for blanks, comments, lines
/// without `=`, empty keys or values, or values that are not hex
/// colours; otherwise the trimmed key and the trimmed, unquoted value.
pub open spec fn parse_color_line(line: Seq<char>) -> Option<(Seq<char>, Seq<char>)> {
    let t = trim_spec(line);
    if t.len() == 0 || t[0] == '#' {
        None
    } else {
        match find_spec(t, "="@) {
            None => None,
            Some(p) => {
                let key = trim_spec(t.take(p));
                let value = trim_quotes(trim_spec(t.skip(p + 1)));
                if key.len() == 0 || value.len() == 0 {
                    None
                } else if is_hex_color(value) {
                    Some((key, value))
                } else {
                    None
                }
            },
        }
    }
}

/// The association a list of pairs denotes: later pairs win.
pub open spec fn assoc_map(s: Seq<(Seq<char>, Seq<char>)>) -> Map<Seq<char>, Seq<char>>
    decreases s.len(),
{
    if s.len() == 0 {
        Map::empty()
    } else {
        assoc_map(s.drop_last()).insert(s.last().0, s.last().1)
    }
}

pub open spec fn colors_of_lines(lines: Seq<Seq<char>>) -> Map<Seq<char>, Seq<char>>
    decreases lines.len(),
{
    if lines.len() == 0 {
        Map::empty()
    } else {
        match parse_color_line(lines.last()) {
            Some(kv) => colors_of_lines(lines.drop_last()).insert(kv.0, kv.1),
            None => colors_of_lines(lines.drop_last()),
        }
    }
}

/// The colour table a raw theme file denotes.
pub open spec fn parse_colors_spec(raw: Seq<char>) -> Map<Seq<char>, Seq<char>> {
    colors_of_lines(split_lines_spec(raw))
}

#[verifier::loop_isolation(false)]
fn split_lines_chars(v: &Vec<char>) -> (lines: Vec<Vec<char>>)
    ensures
        lines.deep_view() == split_lines_spec(v@),
{
    let len = v.len();
    let mut lines: Vec<Vec<char>> = Vec::new();
    let mut cur: Vec<char> = Vec::new();
    let mut i: usize = 0;
    proof {
        assert(v@.skip(0) =~= v@);
        assert(lines.deep_view() =~~= Seq::<Seq<char>>::empty());
        assert(lines.deep_view() + split_lines_acc(v@, Seq::empty()) =~~= split_lines_acc(
            v@,
            Seq::empty(),
        ));
    }
    while i < len
        invariant
            i <= len,
            split_lines_spec(v@) =~~= lines.deep_view() + split_lines_acc(
                v@.skip(i as int),
                cur@,
            ),
        decreases len - i,
    {
        proof {
            assert(v@.skip(i as int)[0] == v@[i as int]);
            assert(v@.skip(i as int).drop_first() =~= v@.skip(i + 1 as int));
        }
        let c = v[i];
        if c == '\n' {
            let ghost pre = cur@;
            if cur.len() > 0 {
                let last = cur[cur.len() - 1];
                if last == '\r' {
                    cur.pop();
                }
            }
            proof {
                assert(cur@ == strip_cr(pre));
            }
            let ghost old_lines = lines.deep_view();
            lines.push(cur);
            cur = Vec::new();
            proof {
                assert(lines.deep_view() =~~= old_lines.push(strip_cr(pre)));
                assert(old_lines + (seq![strip_cr(pre)] + split_lines_acc(
                    v@.skip(i + 1 as int),
                    Seq::empty(),
                )) =~~= lines.deep_view() + split_lines_acc(v@.skip(i + 1 as int), Seq::empty()));
            }
        } else {
            cur.push(c);
        }
        i += 1;
    }
    proof {
        assert(v@.skip(len as int) =~= Seq::<char>::empty());
    }
    if cur.len() > 0 {
        let ghost old_lines = lines.deep_view();
        lines.push(cur);
        proof {
            assert(lines.deep_view() =~~= old_lines.push(cur@));
            assert(split_lines_spec(v@) =~~= lines.deep_view());
        }
    } else {
        proof {
            assert(split_lines_spec(v@) =~~= lines.deep_view());
        }
    }
    lines
}

#[verifier::loop_isolation(false)]
fn parse_color_line_exec(line: &Vec<char>) -> (r: Option<(String, String)>)
    ensures
        r.deep_view() == parse_color_line(line@),
{
    let t = trim_chars(line);
    if t.len() == 0 {
        return None;
    }
    if t[0] == '#' {
        return None;
    }
    let p = match find_str(&t, "=") {
        None => {
            return None;
        },
        Some(p) => p,
    };
    proof {
        reveal_strlit("=");
        assert(p + 1 <= t@.len());
    }
    let key = trim_chars(&subvec(&t, 0, p));
    proof {
        assert(t@.subrange(0, p as int) =~= t@.take(p as int));
    }
    let val_trimmed = trim_chars(&subvec(&t, p + 1, t.len()));
    proof {
        assert(t@.subrange(p + 1 as int, t@.len() as int) =~= t@.skip(p + 1 as int));
    }
    let value = qtrim_chars(&val_trimmed);
    if key.len() == 0 || value.len() == 0 {
        return None;
    }
    if !(value[0] == '#') {
        return None;
    }
    let vl = value.len();
    if !(vl == 7 || vl == 9) {
        return None;
    }
    let mut k: usize = 1;
    while k < vl
        invariant
            1 <= k <= vl,
            forall|q: int| 1 <= q < k ==> is_hex_digit_char(#[trigger] value@[q]),
        decreases vl - k,
    {
        let c = value[k] as u32;
        if !((48 <= c && c <= 57) || (97 <= c && c <= 102) || (65 <= c && c <= 70)) {
            return None;
        }
        k += 1;
    }
    Some((string_from_chars(&key), string_from_chars(&value)))
}

/// Parses the colour table of a raw theme file: one `key = value` pair
/// per line, comments and blanks skipped, values kept only as quoted or
/// bare hex colours; on repeated keys the last line wins.
pub fn parse_omarchy_colors(raw: &str) -> (colors: Vec<(String, String)>)
    ensures
        assoc_map(colors.deep_view()) == parse_colors_spec(raw@),
{
    let chars = chars_of(raw);
    let lines = split_lines_chars(&chars);
    let ghost lseq = lines.deep_view();
    let mut colors: Vec<(String, String)> = Vec::new();
    let mut i: usize = 0;
    proof {
        assert(lseq.take(0) =~~= Seq::<Seq<char>>::empty());
        assert(assoc_map(colors.deep_view()) =~~= colors_of_lines(lseq.take(0)));
    }
    while i < lines.len()
        invariant
            i <= lines@.len(),
            lseq == lines.deep_view(),
            lseq.len() == lines@.len(),
            assoc_map(colors.deep_view()) == colors_of_lines(lseq.take(i as int)),
        decreases lines@.len() - i,
    {
        proof {
            assert(lseq.take(i + 1 as int).drop_last() =~~= lseq.take(i as int));
            assert(lseq.take(i + 1 as int).last() == lseq[i as int]);
            assert(lines@[i as int].deep_view() == lseq[i as int]);
            assert(lines@[i as int]@ =~= lines@[i as int].deep_view());
        }
        let parsed = parse_color_line_exec(&lines[i]);
        proof {
            assert(parsed.deep_view() == parse_color_line(lseq[i as int]));
        }
        match parsed {
            Some(kv) => {
                let ghost old_colors = colors.deep_view();
                let ghost pc = parse_color_line(lseq[i as int])->Some_0;
                proof {
                    assert(kv.deep_view() == pc);
                }
                colors.push(kv);
                proof {
                    assert(colors.deep_view() =~~= old_colors.push(pc));
                    assert(colors.deep_view().drop_last() =~~= old_colors);
                    assert(colors.deep_view().last() == pc);
                }
            },
            None => {
            },
        }
        i += 1;
    }
    proof {
        assert(lseq.take(lseq.len() as int) =~~= lseq);
    }
    colors
}

} // verus!
