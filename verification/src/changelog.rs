//! Formatting and checking of CHANGELOG.md entries to an 88-column fill.
//!
//! Two rules are enforced, both measuring display length with commit links
//! `[hash](url)` counted as zero and other links `[text](url)` as `text`:
//!
//!   (a) a line holding commit links must also hold descriptive text;
//!   (b) a continuation line whose first word would fit on the previous line
//!       must be merged up.
use vstd::prelude::*;
use crate::text::{append_all, append_range, back_ws, back_ws_exec, char_is_ws, chars_of, decimal, is_ws, join_spaced, push_decimal, skip_ws, skip_ws_exec, slice_chars, starts_with, starts_with_exec, string_of, trim, trim_end, trim_end_exec, trim_exec, trim_start, trim_start_exec, words, words_exec};

verus! {

/// The fill width.
pub const WIDTH: usize = 88;

// ---------------------------------------------------------------------------
// Scanning helpers
// ---------------------------------------------------------------------------

/// The first index at or after `j` that holds `c`, or the end of `s`.
pub open spec fn find_char_from(s: Seq<char>, j: int, c: char) -> int
    decreases s.len() - j,
{
    if 0 <= j < s.len() {
        if s[j] == c {
            j
        } else {
            find_char_from(s, j + 1, c)
        }
    } else {
        s.len() as int
    }
}

/// A lowercase hexadecimal digit.
pub open spec fn is_hex(c: char) -> bool {
    ('0' <= c && c <= '9') || ('a' <= c && c <= 'f')
}

/// The first index at or after `j` that does not hold a hex digit.
pub open spec fn hex_run_end(s: Seq<char>, j: int) -> int
    decreases s.len() - j,
{
    if 0 <= j < s.len() && is_hex(s[j]) {
        hex_run_end(s, j + 1)
    } else {
        j
    }
}

proof fn lemma_find_char(s: Seq<char>, j: int, c: char)
    requires
        0 <= j,
    ensures
        j <= s.len() ==> j <= find_char_from(s, j, c),
        find_char_from(s, j, c) <= s.len(),
        find_char_from(s, j, c) < s.len() ==> s[find_char_from(s, j, c)] == c,
        forall|k: int| j <= k < find_char_from(s, j, c) ==> s[k] != c,
    decreases s.len() - j,
{
    if j < s.len() && s[j] != c {
        lemma_find_char(s, j + 1, c);
    }
}

proof fn lemma_hex_run(s: Seq<char>, j: int)
    requires
        0 <= j <= s.len(),
    ensures
        j <= hex_run_end(s, j) <= s.len(),
        hex_run_end(s, j) < s.len() ==> !is_hex(s[hex_run_end(s, j)]),
    decreases s.len() - j,
{
    if j < s.len() && is_hex(s[j]) {
        lemma_hex_run(s, j + 1);
    }
}

fn find_char_exec(s: &[char], j: usize, c: char) -> (r: usize)
    requires
        j <= s@.len(),
    ensures
        r == find_char_from(s@, j as int, c),
        j <= r <= s@.len(),
{
    let mut k = j;
    while k < s.len() && s[k] != c
        invariant
            j <= k <= s@.len(),
            find_char_from(s@, k as int, c) == find_char_from(s@, j as int, c),
        decreases s@.len() - k,
    {
        k = k + 1;
    }
    k
}

fn hex_run_exec(s: &[char], j: usize) -> (r: usize)
    requires
        j <= s@.len(),
    ensures
        r == hex_run_end(s@, j as int),
        j <= r <= s@.len(),
{
    let mut k = j;
    while k < s.len() && (('0' <= s[k] && s[k] <= '9') || ('a' <= s[k] && s[k] <= 'f'))
        invariant
            j <= k <= s@.len(),
            hex_run_end(s@, k as int) == hex_run_end(s@, j as int),
        decreases s@.len() - k,
    {
        k = k + 1;
    }
    k
}

// ---------------------------------------------------------------------------
// Links
// ---------------------------------------------------------------------------

/// Where the commit link that starts at `i` ends: `[`, an optional
/// backtick, at least seven lowercase hex digits, an optional backtick,
/// `](`, any text without `)`, and `)`.
pub open spec fn hash_link_end(s: Seq<char>, i: int) -> Option<int> {
    if !(0 <= i < s.len() && s[i] == '[') {
        None
    } else {
        let j = if i + 1 < s.len() && s[i + 1] == '`' {
            i + 2
        } else {
            i + 1
        };
        let h = hex_run_end(s, j);
        let k = if h < s.len() && s[h] == '`' {
            h + 1
        } else {
            h
        };
        if h - j >= 7 && k < s.len() - 1 && s[k] == ']' && s[k + 1] == '(' {
            let p = find_char_from(s, k + 2, ')');
            if p < s.len() {
                Some(p + 1)
            } else {
                None
            }
        } else {
            None
        }
    }
}

/// Where the closing bracket of a link that starts at `i` stands.
pub open spec fn link_text_end(s: Seq<char>, i: int) -> int {
    find_char_from(s, i + 1, ']')
}

/// Where the link that starts at `i` ends: `[`, any text without `]`, `](`,
/// any text without `)`, and `)`.
pub open spec fn any_link_end(s: Seq<char>, i: int) -> Option<int> {
    if !(0 <= i < s.len() && s[i] == '[') {
        None
    } else {
        let j = link_text_end(s, i);
        if j < s.len() - 1 && s[j + 1] == '(' {
            let p = find_char_from(s, j + 2, ')');
            if p < s.len() {
                Some(p + 1)
            } else {
                None
            }
        } else {
            None
        }
    }
}

/// Where a link of the given kind (commit links when `hash`) that starts at
/// `i` ends.
pub open spec fn link_end(hash: bool, s: Seq<char>, i: int) -> Option<int> {
    if hash {
        hash_link_end(s, i)
    } else {
        any_link_end(s, i)
    }
}

/// The leftmost link of the given kind at or after `pos`: its start and end.
pub open spec fn first_link_from(hash: bool, s: Seq<char>, pos: int) -> Option<(int, int)>
    decreases s.len() - pos,
{
    if 0 <= pos < s.len() {
        match link_end(hash, s, pos) {
            Some(e) => Some((pos, e)),
            None => first_link_from(hash, s, pos + 1),
        }
    } else {
        None
    }
}

proof fn lemma_link_end(hash: bool, s: Seq<char>, i: int)
    requires
        0 <= i,
    ensures
        link_end(hash, s, i) matches Some(e) ==> i < e <= s.len(),
{
    if 0 <= i < s.len() && s[i] == '[' {
        if hash {
            let j = if i + 1 < s.len() && s[i + 1] == '`' {
                i + 2
            } else {
                i + 1
            };
            lemma_hex_run(s, j);
            let h = hex_run_end(s, j);
            let k = if h < s.len() && s[h] == '`' {
                h + 1
            } else {
                h
            };
            if k + 2 <= s.len() {
                lemma_find_char(s, k + 2, ')');
            }
        } else {
            lemma_find_char(s, i + 1, ']');
            let j = link_text_end(s, i);
            if j + 2 <= s.len() {
                lemma_find_char(s, j + 2, ')');
            }
        }
    }
}

proof fn lemma_first_link(hash: bool, s: Seq<char>, pos: int)
    requires
        0 <= pos,
    ensures
        first_link_from(hash, s, pos) matches Some((a, e)) ==> pos <= a < e <= s.len() && link_end(hash, s, a)
            == Some(e),
    decreases s.len() - pos,
{
    if pos < s.len() {
        lemma_link_end(hash, s, pos);
        if link_end(hash, s, pos) is None {
            lemma_first_link(hash, s, pos + 1);
        }
    }
}

/// `s` from `pos` on, with each link of the given kind replaced by its text
/// when `caption`, and removed otherwise.
pub open spec fn replace_links(hash: bool, caption: bool, s: Seq<char>, pos: int) -> Seq<char>
    decreases s.len() - pos,
{
    if pos < 0 || pos > s.len() {
        Seq::empty()
    } else {
        match first_link_from(hash, s, pos) {
            None => s.subrange(pos, s.len() as int),
            Some((a, e)) => if a < pos || e <= a || e > s.len() {
                Seq::empty()
            } else {
                s.subrange(pos, a) + (if caption {
                    s.subrange(a + 1, link_text_end(s, a))
                } else {
                    Seq::empty()
                }) + replace_links(hash, caption, s, e)
            },
        }
    }
}

/// The links of the given kind from `pos` on, leftmost first.
pub open spec fn link_texts(hash: bool, s: Seq<char>, pos: int) -> Seq<Seq<char>>
    decreases s.len() - pos,
{
    if pos < 0 || pos > s.len() {
        Seq::empty()
    } else {
        match first_link_from(hash, s, pos) {
            None => Seq::empty(),
            Some((a, e)) => if a < pos || e <= a || e > s.len() {
                Seq::empty()
            } else {
                seq![s.subrange(a, e)] + link_texts(hash, s, e)
            },
        }
    }
}

fn hash_link_end_exec(s: &[char], i: usize) -> (r: Option<usize>)
    requires
        i < s@.len(),
    ensures
        match r {
            Some(e) => hash_link_end(s@, i as int) == Some(e as int),
            None => hash_link_end(s@, i as int) is None,
        },
{
    if s[i] != '[' {
        return None;
    }
    let j = if i + 1 < s.len() && s[i + 1] == '`' {
        i + 2
    } else {
        i + 1
    };
    let h = hex_run_exec(s, j);
    let k = if h < s.len() && s[h] == '`' {
        h + 1
    } else {
        h
    };
    if h - j >= 7 && k < s.len() - 1 && s[k] == ']' && s[k + 1] == '(' {
        let p = find_char_exec(s, k + 2, ')');
        if p < s.len() {
            Some(p + 1)
        } else {
            None
        }
    } else {
        None
    }
}

fn any_link_end_exec(s: &[char], i: usize) -> (r: Option<usize>)
    requires
        i < s@.len(),
    ensures
        match r {
            Some(e) => any_link_end(s@, i as int) == Some(e as int),
            None => any_link_end(s@, i as int) is None,
        },
{
    if s[i] != '[' {
        return None;
    }
    let j = find_char_exec(s, i + 1, ']');
    if j < s.len() - 1 && s[j + 1] == '(' {
        let p = find_char_exec(s, j + 2, ')');
        if p < s.len() {
            Some(p + 1)
        } else {
            None
        }
    } else {
        None
    }
}

fn first_link_exec(hash: bool, s: &[char], pos: usize) -> (r: Option<(usize, usize)>)
    requires
        pos <= s@.len(),
    ensures
        match r {
            Some((a, e)) => first_link_from(hash, s@, pos as int) == Some((a as int, e as int)),
            None => first_link_from(hash, s@, pos as int) is None,
        },
{
    let mut i = pos;
    while i < s.len()
        invariant
            pos <= i <= s@.len(),
            first_link_from(hash, s@, i as int) == first_link_from(hash, s@, pos as int),
        decreases s@.len() - i,
    {
        let m = if hash {
            hash_link_end_exec(s, i)
        } else {
            any_link_end_exec(s, i)
        };
        if let Some(e) = m {
            return Some((i, e));
        }
        i = i + 1;
    }
    None
}

/// `s` with each link of the given kind replaced by its text when
/// `caption`, and removed otherwise.
fn replace_links_exec(hash: bool, caption: bool, s: &[char]) -> (out: Vec<char>)
    ensures
        out@ == replace_links(hash, caption, s@, 0),
{
    let mut out: Vec<char> = Vec::new();
    let mut pos: usize = 0;
    while pos < s.len()
        invariant
            pos <= s@.len(),
            out@ + replace_links(hash, caption, s@, pos as int) == replace_links(hash, caption, s@, 0),
        decreases s@.len() - pos,
    {
        let ghost before = out@;
        match first_link_exec(hash, s, pos) {
            None => {
                append_range(&mut out, s, pos, s.len());
                pos = s.len();
                assert(replace_links(hash, caption, s@, pos as int) =~= Seq::<char>::empty());
                assert(out@ + replace_links(hash, caption, s@, pos as int) =~= out@);
            },
            Some((a, e)) => {
                proof {
                    lemma_first_link(hash, s@, pos as int);
                }
                append_range(&mut out, s, pos, a);
                if caption {
                    proof {
                        lemma_find_char(s@, a + 1, ']');
                    }
                    let j = find_char_exec(s, a + 1, ']');
                    append_range(&mut out, s, a + 1, j);
                }
                proof {
                    let rep = if caption {
                        s@.subrange(a + 1, link_text_end(s@, a as int))
                    } else {
                        Seq::<char>::empty()
                    };
                    assert(out@ == before + s@.subrange(pos as int, a as int) + rep);
                    assert(replace_links(hash, caption, s@, pos as int) == s@.subrange(pos as int, a as int) + rep
                        + replace_links(hash, caption, s@, e as int));
                    assert(out@ + replace_links(hash, caption, s@, e as int) =~= before + replace_links(
                        hash,
                        caption,
                        s@,
                        pos as int,
                    ));
                }
                pos = e;
            },
        }
    }
    proof {
        assert(replace_links(hash, caption, s@, pos as int) =~= Seq::<char>::empty()) by {
            assert(first_link_from(hash, s@, pos as int) is None);
        }
        assert(out@ + Seq::<char>::empty() =~= out@);
    }
    out
}

/// The links of the given kind in `s`, leftmost first.
fn link_texts_exec(hash: bool, s: &[char]) -> (out: Vec<Vec<char>>)
    ensures
        out@.map_values(|v: Vec<char>| v@) == link_texts(hash, s@, 0),
{
    let mut out: Vec<Vec<char>> = Vec::new();
    let mut pos: usize = 0;
    while pos < s.len()
        invariant
            pos <= s@.len(),
            out@.map_values(|v: Vec<char>| v@) + link_texts(hash, s@, pos as int) == link_texts(hash, s@, 0),
        decreases s@.len() - pos,
    {
        let ghost before = out@.map_values(|v: Vec<char>| v@);
        match first_link_exec(hash, s, pos) {
            None => {
                pos = s.len();
                assert(link_texts(hash, s@, pos as int) =~= Seq::<Seq<char>>::empty());
                assert(before + Seq::<Seq<char>>::empty() =~= before);
            },
            Some((a, e)) => {
                proof {
                    lemma_first_link(hash, s@, pos as int);
                }
                let t = slice_chars(s, a, e);
                out.push(t);
                assert(out@.map_values(|v: Vec<char>| v@) =~= before.push(t@));
                assert(before.push(t@) + link_texts(hash, s@, e as int) =~= before + link_texts(hash, s@, pos as int));
                pos = e;
            },
        }
    }
    proof {
        assert(link_texts(hash, s@, pos as int) =~= Seq::<Seq<char>>::empty()) by {
            assert(first_link_from(hash, s@, pos as int) is None);
        }
        let m = out@.map_values(|v: Vec<char>| v@);
        assert(m + Seq::<Seq<char>>::empty() =~= m);
    }
    out
}

} // verus!

verus! {

// ---------------------------------------------------------------------------
// Display length and commit links
// ---------------------------------------------------------------------------

/// The text of a line as measured for the fill: commit links removed, other
/// links replaced by their text.
pub open spec fn display_text(s: Seq<char>) -> Seq<char> {
    replace_links(false, true, replace_links(true, false, s, 0), 0)
}

/// The characters of several sequences, views of vectors.
pub open spec fn views(v: Seq<Vec<char>>) -> Seq<Seq<char>> {
    v.map_values(|x: Vec<char>| x@)
}

/// Length of `line` for the 88-char rule, with commit links counted as 0 and
/// other links as their text.
pub fn disp_len(line: &str) -> (n: usize)
    ensures
        n == display_text(line@).len(),
{
    let s = chars_of(line);
    display_len_chars(s.as_slice())
}

fn display_text_chars(s: &[char]) -> (out: Vec<char>)
    ensures
        out@ == display_text(s@),
{
    let a = replace_links_exec(true, false, s);
    replace_links_exec(false, true, a.as_slice())
}

fn display_len_chars(s: &[char]) -> (n: usize)
    ensures
        n == display_text(s@).len(),
{
    display_text_chars(s).len()
}

/// The commit links of `body`, leftmost first.
fn hash_links_in(body: &[char]) -> (out: Vec<Vec<char>>)
    ensures
        views(out@) == link_texts(true, body@, 0),
{
    link_texts_exec(true, body)
}

/// `s` without a trailing ` — (, , )` left where commit links were removed
/// from a parenthesised list: white space, an em dash, white space, `(`,
/// commas and white space, `)`, white space, at the end.
pub open spec fn strip_tail_parens(s: Seq<char>) -> Seq<char> {
    let t = back_ws(s, s.len() as int);
    if t > 0 && s[t - 1] == ')' {
        let q = back_ws_or_comma(s, t - 1);
        if q > 0 && s[q - 1] == '(' {
            let r = back_ws(s, q - 1);
            if r > 0 && s[r - 1] == '\u{2014}' {
                s.subrange(0, back_ws(s, r - 1))
            } else {
                s
            }
        } else {
            s
        }
    } else {
        s
    }
}

/// The start of the run of white space and commas that ends at `j`.
pub open spec fn back_ws_or_comma(s: Seq<char>, j: int) -> int
    decreases j,
{
    if 0 < j <= s.len() && (is_ws(s[j - 1]) || s[j - 1] == ',') {
        back_ws_or_comma(s, j - 1)
    } else {
        j
    }
}

/// `s` without a trailing em dash and the white space around it.
pub open spec fn strip_trailing_dash(s: Seq<char>) -> Seq<char> {
    let t = back_ws(s, s.len() as int);
    if t > 0 && s[t - 1] == '\u{2014}' {
        s.subrange(0, back_ws(s, t - 1))
    } else {
        s
    }
}

/// `s` without a trailing dash (em dash, en dash or hyphen) and the white
/// space after it.
pub open spec fn strip_lone_dash(s: Seq<char>) -> Seq<char> {
    let t = back_ws(s, s.len() as int);
    if t > 0 && (s[t - 1] == '\u{2014}' || s[t - 1] == '\u{2013}' || s[t - 1] == '-') {
        s.subrange(0, t - 1)
    } else {
        s
    }
}

/// The description of an entry body: commit links removed, with the dash
/// and parentheses that introduced them.
pub open spec fn strip_hash_links_spec(body: Seq<char>) -> Seq<char> {
    trim(strip_trailing_dash(strip_tail_parens(replace_links(true, false, body, 0))))
}

fn back_ws_or_comma_exec(s: &[char], j: usize) -> (r: usize)
    requires
        j <= s@.len(),
    ensures
        r == back_ws_or_comma(s@, j as int),
        r <= j,
{
    let mut k = j;
    while k > 0 && (char_is_ws(s[k - 1]) || s[k - 1] == ',')
        invariant
            k <= j,
            j <= s@.len(),
            back_ws_or_comma(s@, k as int) == back_ws_or_comma(s@, j as int),
        decreases k,
    {
        k = k - 1;
    }
    k
}

fn strip_tail_parens_exec(s: &[char]) -> (out: Vec<char>)
    ensures
        out@ == strip_tail_parens(s@),
{
    let t = back_ws_exec(s, s.len());
    if t > 0 && s[t - 1] == ')' {
        let q = back_ws_or_comma_exec(s, t - 1);
        if q > 0 && s[q - 1] == '(' {
            let r = back_ws_exec(s, q - 1);
            if r > 0 && s[r - 1] == '\u{2014}' {
                let u = back_ws_exec(s, r - 1);
                return slice_chars(s, 0, u);
            }
        }
    }
    let out = slice_chars(s, 0, s.len());
    assert(out@ =~= s@);
    out
}

fn strip_trailing_dash_exec(s: &[char]) -> (out: Vec<char>)
    ensures
        out@ == strip_trailing_dash(s@),
{
    let t = back_ws_exec(s, s.len());
    if t > 0 && s[t - 1] == '\u{2014}' {
        let u = back_ws_exec(s, t - 1);
        return slice_chars(s, 0, u);
    }
    let out = slice_chars(s, 0, s.len());
    assert(out@ =~= s@);
    out
}

fn strip_lone_dash_exec(s: &[char]) -> (out: Vec<char>)
    ensures
        out@ == strip_lone_dash(s@),
{
    let t = back_ws_exec(s, s.len());
    if t > 0 && (s[t - 1] == '\u{2014}' || s[t - 1] == '\u{2013}' || s[t - 1] == '-') {
        return slice_chars(s, 0, t - 1);
    }
    let out = slice_chars(s, 0, s.len());
    assert(out@ =~= s@);
    out
}

/// The description of an entry body, without its commit links.
fn strip_hash_links(body: &[char]) -> (out: Vec<char>)
    ensures
        out@ == strip_hash_links_spec(body@),
{
    let a = replace_links_exec(true, false, body);
    let b = strip_tail_parens_exec(a.as_slice());
    let c = strip_trailing_dash_exec(b.as_slice());
    trim_exec(c.as_slice())
}

// ---------------------------------------------------------------------------
// Entry prefix and tail
// ---------------------------------------------------------------------------

/// The bytes that a character takes in UTF-8.
pub open spec fn utf8_len(c: char) -> int {
    let u = c as u32;
    if u < 0x80 {
        1
    } else if u < 0x800 {
        2
    } else if u < 0x10000 {
        3
    } else {
        4
    }
}

/// How many characters the first two bytes of `s` hold, when a character
/// boundary lies there.
pub open spec fn two_byte_chars(s: Seq<char>) -> Option<int> {
    if s.len() >= 1 && utf8_len(s[0]) == 2 {
        Some(1)
    } else if s.len() >= 2 && utf8_len(s[0]) == 1 && utf8_len(s[1]) == 1 {
        Some(2)
    } else {
        None
    }
}

/// Where the scope prefix `- (scope) ` of a bullet ends: `- (`, any text
/// without `)`, `)`, and at least one white-space character.
pub open spec fn scope_prefix_end(s: Seq<char>) -> Option<int> {
    if s.len() >= 3 && s[0] == '-' && s[1] == ' ' && s[2] == '(' {
        let p = find_char_from(s, 3, ')');
        if p < s.len() {
            let w = skip_ws(s, p + 1);
            if w > p + 1 {
                Some(w)
            } else {
                None
            }
        } else {
            None
        }
    } else {
        None
    }
}

/// A bullet can be split into prefix and rest.
pub open spec fn bullet_splits(bullet: Seq<char>) -> bool {
    scope_prefix_end(bullet) is Some || two_byte_chars(bullet) is Some
}

/// The prefix of a bullet (`- (scope) ` or else its first two bytes, taken
/// as `- `) and the rest.
pub open spec fn split_prefix_spec(bullet: Seq<char>) -> (Seq<char>, Seq<char>) {
    match scope_prefix_end(bullet) {
        Some(w) => (bullet.subrange(0, w), bullet.subrange(w, bullet.len() as int)),
        None => match two_byte_chars(bullet) {
            Some(n) => (seq!['-', ' '], bullet.subrange(n, bullet.len() as int)),
            None => (seq!['-', ' '], Seq::empty()),
        },
    }
}

/// The separator before commit links: ` — `.
pub open spec fn em_dash() -> Seq<char> {
    seq![' ', '\u{2014}', ' ']
}

/// Sequences joined by `, `.
pub open spec fn join_comma(w: Seq<Seq<char>>) -> Seq<char>
    decreases w.len(),
{
    if w.len() == 0 {
        Seq::empty()
    } else if w.len() == 1 {
        w[0]
    } else {
        join_comma(w.drop_last()) + seq![',', ' '] + w.last()
    }
}

/// The tail that carries an entry's commit links: ` — [h]` for one link,
/// ` — ([h1], [h2])` for several, nothing for none.
pub open spec fn build_tail_spec(hashes: Seq<Seq<char>>) -> Seq<char> {
    if hashes.len() == 0 {
        Seq::empty()
    } else if hashes.len() == 1 {
        em_dash() + hashes[0]
    } else {
        em_dash() + seq!['('] + join_comma(hashes) + seq![')']
    }
}

/// The display width of a tail: its length without commit links.
pub open spec fn tail_disp_spec(tail: Seq<char>) -> int {
    if tail.len() == 0 {
        0
    } else {
        replace_links(true, false, tail, 0).len() as int
    }
}

pub fn utf8_len_exec(c: char) -> (n: usize)
    ensures
        n == utf8_len(c),
{
    let u = c as u32;
    if u < 0x80 {
        1
    } else if u < 0x800 {
        2
    } else if u < 0x10000 {
        3
    } else {
        4
    }
}

fn scope_prefix_end_exec(s: &[char]) -> (r: Option<usize>)
    ensures
        match r {
            Some(w) => scope_prefix_end(s@) == Some(w as int) && w <= s@.len(),
            None => scope_prefix_end(s@) is None,
        },
{
    if s.len() >= 3 && s[0] == '-' && s[1] == ' ' && s[2] == '(' {
        let p = find_char_exec(s, 3, ')');
        if p < s.len() {
            let w = skip_ws_exec(s, p + 1);
            if w > p + 1 {
                Some(w)
            } else {
                None
            }
        } else {
            None
        }
    } else {
        None
    }
}

fn split_prefix(bullet: &[char]) -> (parts: (Vec<char>, Vec<char>))
    requires
        bullet_splits(bullet@),
    ensures
        (parts.0@, parts.1@) == split_prefix_spec(bullet@),
{
    match scope_prefix_end_exec(bullet) {
        Some(w) => (slice_chars(bullet, 0, w), slice_chars(bullet, w, bullet.len())),
        None => {
            let n: usize = if utf8_len_exec(bullet[0]) == 2 {
                1
            } else {
                2
            };
            let mut prefix: Vec<char> = Vec::new();
            prefix.push('-');
            prefix.push(' ');
            assert(prefix@ =~= seq!['-', ' ']);
            (prefix, slice_chars(bullet, n, bullet.len()))
        },
    }
}

fn join_comma_exec(w: &Vec<Vec<char>>) -> (out: Vec<char>)
    ensures
        out@ == join_comma(views(w@)),
{
    let mut out: Vec<char> = Vec::new();
    let mut i: usize = 0;
    while i < w.len()
        invariant
            i <= w@.len(),
            out@ == join_comma(views(w@).take(i as int)),
        decreases w@.len() - i,
    {
        let ghost prev = views(w@).take(i as int);
        if i > 0 {
            out.push(',');
            out.push(' ');
        }
        append_all(&mut out, w[i].as_slice());
        proof {
            let next = views(w@).take(i + 1);
            assert(next.drop_last() =~= prev);
            assert(next.last() == w@[i as int]@);
            if i == 0 {
                assert(out@ =~= join_comma(next));
            } else {
                assert(out@ =~= join_comma(next));
            }
        }
        i = i + 1;
    }
    assert(views(w@).take(w@.len() as int) =~= views(w@));
    out
}

fn build_tail(hashes: &Vec<Vec<char>>) -> (tail: Vec<char>)
    ensures
        tail@ == build_tail_spec(views(hashes@)),
{
    let mut tail: Vec<char> = Vec::new();
    if hashes.len() == 0 {
        return tail;
    }
    tail.push(' ');
    tail.push('\u{2014}');
    tail.push(' ');
    if hashes.len() == 1 {
        append_all(&mut tail, hashes[0].as_slice());
        assert(tail@ =~= build_tail_spec(views(hashes@)));
        return tail;
    }
    tail.push('(');
    let j = join_comma_exec(hashes);
    append_all(&mut tail, j.as_slice());
    tail.push(')');
    assert(tail@ =~= build_tail_spec(views(hashes@)));
    tail
}

fn tail_disp(tail: &[char]) -> (n: usize)
    ensures
        n == tail_disp_spec(tail@),
{
    if tail.len() == 0 {
        return 0;
    }
    replace_links_exec(true, false, tail).len()
}

} // verus!

verus! {

// ---------------------------------------------------------------------------
// Reflowing one entry
// ---------------------------------------------------------------------------

/// Greedy word fill from word `idx` on, with the lines already closed, the
/// words of the open line and its width. The first line has `prefix_w`
/// columns before it, the others two; the last word keeps `t_w` columns free
/// for the tail.
pub open spec fn fill(
    ws: Seq<Seq<char>>,
    idx: int,
    lines: Seq<Seq<char>>,
    cur: Seq<Seq<char>>,
    cur_w: int,
    prefix_w: int,
    t_w: int,
) -> Seq<Seq<char>>
    decreases ws.len() - idx,
{
    if idx < 0 || idx >= ws.len() {
        if cur.len() > 0 {
            lines.push(join_spaced(cur))
        } else {
            lines
        }
    } else {
        let w = ws[idx];
        if cur.len() == 0 {
            fill(ws, idx + 1, lines, seq![w], w.len() as int, prefix_w, t_w)
        } else {
            let margin = if lines.len() == 0 {
                prefix_w
            } else {
                2
            };
            let reserved = if idx == ws.len() - 1 {
                t_w
            } else {
                0
            };
            if cur_w + 1 + w.len() + reserved <= WIDTH - margin {
                fill(ws, idx + 1, lines, cur.push(w), cur_w + 1 + w.len(), prefix_w, t_w)
            } else {
                fill(ws, idx + 1, lines.push(join_spaced(cur)), seq![w], w.len() as int, prefix_w, t_w)
            }
        }
    }
}

/// The body of an entry: the bullet's text after its prefix and the
/// continuation texts, joined by spaces and trimmed.
pub open spec fn entry_body(bullet: Seq<char>, conts: Seq<Seq<char>>) -> Seq<char> {
    trim(join_spaced(seq![split_prefix_spec(bullet).1] + conts))
}

/// The width of an entry's prefix.
pub open spec fn entry_prefix_width(bullet: Seq<char>) -> int {
    display_text(split_prefix_spec(bullet).0).len() as int
}

/// An entry can be reflowed: its bullet splits into prefix and rest, and a
/// description of two or more words leaves room after the prefix.
pub open spec fn entry_formattable(bullet: Seq<char>, conts: Seq<Seq<char>>) -> bool {
    &&& bullet_splits(bullet)
    &&& words(strip_hash_links_spec(entry_body(bullet, conts))).len() >= 2 ==> entry_prefix_width(bullet)
        <= WIDTH
}

/// The lines of a reflowed entry: the description filled greedily to the
/// width, the commit links gathered into a tail at the end of the last line,
/// the prefix before the first line and two spaces before the others.
pub open spec fn entry_lines(bullet: Seq<char>, conts: Seq<Seq<char>>) -> Seq<Seq<char>> {
    let prefix = split_prefix_spec(bullet).0;
    let body = entry_body(bullet, conts);
    let tail = build_tail_spec(link_texts(true, body, 0));
    let ws = words(strip_hash_links_spec(body));
    if ws.len() == 0 {
        if tail.len() > 0 {
            let line = trim_end(prefix);
            if line.len() > 0 {
                seq![line + tail]
            } else {
                seq![trim_start(tail)]
            }
        } else {
            seq![trim_end(prefix)]
        }
    } else {
        let lines = fill(ws, 0, Seq::empty(), Seq::empty(), 0, entry_prefix_width(bullet), tail_disp_spec(tail));
        let lines2 = if tail.len() > 0 && lines.len() > 0 {
            lines.update(lines.len() - 1, lines.last() + tail)
        } else {
            lines
        };
        Seq::new(
            lines2.len(),
            |i: int|
                if i == 0 {
                    prefix + lines2[0]
                } else {
                    seq![' ', ' '] + lines2[i]
                },
        )
    }
}

fn join_spaced_exec(w: &Vec<Vec<char>>) -> (out: Vec<char>)
    ensures
        out@ == join_spaced(views(w@)),
{
    let mut out: Vec<char> = Vec::new();
    let mut i: usize = 0;
    while i < w.len()
        invariant
            i <= w@.len(),
            out@ == join_spaced(views(w@).take(i as int)),
        decreases w@.len() - i,
    {
        let ghost prev = views(w@).take(i as int);
        if i > 0 {
            out.push(' ');
        }
        append_all(&mut out, w[i].as_slice());
        proof {
            let next = views(w@).take(i + 1);
            assert(next.drop_last() =~= prev);
            assert(next.last() == w@[i as int]@);
            assert(out@ =~= join_spaced(next));
        }
        i = i + 1;
    }
    assert(views(w@).take(w@.len() as int) =~= views(w@));
    out
}

/// Whether `a + 1 + b + c <= limit`, for a `limit` of at most the width.
fn fits(a: usize, b: usize, c: usize, limit: usize) -> (r: bool)
    requires
        limit <= WIDTH,
    ensures
        r == (a + 1 + b + c <= limit),
{
    if a > WIDTH || b > WIDTH || c > WIDTH {
        false
    } else {
        a + 1 + b + c <= limit
    }
}

fn fill_exec(ws: &Vec<Vec<char>>, prefix_w: usize, t_w: usize) -> (lines: Vec<Vec<char>>)
    requires
        ws@.len() >= 2 ==> prefix_w <= WIDTH,
    ensures
        views(lines@) == fill(views(ws@), 0, Seq::empty(), Seq::empty(), 0, prefix_w as int, t_w as int),
{
    let ghost wv = views(ws@);
    let mut lines: Vec<Vec<char>> = Vec::new();
    let mut cur: Vec<Vec<char>> = Vec::new();
    let mut cur_w: usize = 0;
    let n = ws.len();
    let mut idx: usize = 0;
    assert(views(lines@) =~= Seq::<Seq<char>>::empty());
    assert(views(cur@) =~= Seq::<Seq<char>>::empty());
    while idx < n
        invariant
            n == ws@.len(),
            wv == views(ws@),
            idx <= n,
            n >= 2 ==> prefix_w <= WIDTH,
            idx > 0 ==> cur@.len() > 0,
            idx == 0 ==> cur@.len() == 0 && lines@.len() == 0,
            fill(wv, idx as int, views(lines@), views(cur@), cur_w as int, prefix_w as int, t_w as int) == fill(
                wv,
                0,
                Seq::empty(),
                Seq::empty(),
                0,
                prefix_w as int,
                t_w as int,
            ),
        decreases n - idx,
    {
        let wl = ws[idx].len();
        if cur.len() == 0 {
            let mut c: Vec<Vec<char>> = Vec::new();
            c.push(ws[idx].clone());
            proof {
                assert(views(c@) =~= seq![wv[idx as int]]);
            }
            cur = c;
            cur_w = wl;
        } else {
            let margin: usize = if lines.len() == 0 {
                prefix_w
            } else {
                2
            };
            let reserved: usize = if idx == n - 1 {
                t_w
            } else {
                0
            };
            if fits(cur_w, wl, reserved, WIDTH - margin) {
                let ghost before = views(cur@);
                cur.push(ws[idx].clone());
                proof {
                    assert(views(cur@) =~= before.push(wv[idx as int]));
                }
                cur_w = cur_w + 1 + wl;
            } else {
                let joined = join_spaced_exec(&cur);
                let ghost before = views(lines@);
                lines.push(joined);
                proof {
                    assert(views(lines@) =~= before.push(joined@));
                }
                let mut c: Vec<Vec<char>> = Vec::new();
                c.push(ws[idx].clone());
                proof {
                    assert(views(c@) =~= seq![wv[idx as int]]);
                }
                cur = c;
                cur_w = wl;
            }
        }
        idx = idx + 1;
    }
    if cur.len() > 0 {
        let joined = join_spaced_exec(&cur);
        let ghost before = views(lines@);
        lines.push(joined);
        proof {
            assert(views(lines@) =~= before.push(joined@));
        }
    }
    lines
}

} // verus!

verus! {

/// The views of several strings.
pub open spec fn str_views(v: Seq<&str>) -> Seq<Seq<char>> {
    v.map_values(|x: &str| x@)
}

/// The views of several owned strings.
pub open spec fn string_views(v: Seq<String>) -> Seq<Seq<char>> {
    v.map_values(|x: String| x@)
}

fn format_entry_chars(bullet: &[char], conts: &Vec<Vec<char>>) -> (out: Vec<Vec<char>>)
    requires
        entry_formattable(bullet@, views(conts@)),
    ensures
        views(out@) == entry_lines(bullet@, views(conts@)),
{
    let (prefix, rest) = split_prefix(bullet);
    let mut pieces: Vec<Vec<char>> = Vec::new();
    pieces.push(rest);
    let mut i: usize = 0;
    while i < conts.len()
        invariant
            i <= conts@.len(),
            views(pieces@) == seq![split_prefix_spec(bullet@).1] + views(conts@).take(i as int),
        decreases conts@.len() - i,
    {
        let ghost before = views(pieces@);
        pieces.push(conts[i].clone());
        proof {
            assert(views(pieces@) =~= before.push(conts@[i as int]@));
            assert(views(conts@).take(i + 1) =~= views(conts@).take(i as int).push(conts@[i as int]@));
            assert(views(pieces@) =~= seq![split_prefix_spec(bullet@).1] + views(conts@).take(i + 1));
        }
        i = i + 1;
    }
    assert(views(conts@).take(conts@.len() as int) =~= views(conts@));
    let body_full = join_spaced_exec(&pieces);
    let body = trim_exec(body_full.as_slice());
    let hashes = hash_links_in(body.as_slice());
    let desc = strip_hash_links(body.as_slice());
    let tail = build_tail(&hashes);
    let t_w = tail_disp(tail.as_slice());
    let prefix_w = display_len_chars(prefix.as_slice());
    let ws = words_exec(desc.as_slice());
    assert(views(ws@) =~= words(desc@));
    let mut out: Vec<Vec<char>> = Vec::new();
    if ws.len() == 0 {
        if tail.len() > 0 {
            let line = trim_end_exec(prefix.as_slice());
            if line.len() > 0 {
                let mut l = line;
                append_all(&mut l, tail.as_slice());
                out.push(l);
            } else {
                out.push(trim_start_exec(tail.as_slice()));
            }
        } else {
            out.push(trim_end_exec(prefix.as_slice()));
        }
        assert(views(out@) =~= entry_lines(bullet@, views(conts@)));
        return out;
    }
    let mut lines = fill_exec(&ws, prefix_w, t_w);
    let ghost filled = views(lines@);
    if tail.len() > 0 && lines.len() > 0 {
        let last_i = lines.len() - 1;
        let mut last = lines[last_i].clone();
        append_all(&mut last, tail.as_slice());
        let ghost before = views(lines@);
        lines.set(last_i, last);
        assert(views(lines@) =~= filled.update(filled.len() - 1, filled.last() + tail@));
    }
    let ghost lines2 = views(lines@);
    let mut k: usize = 0;
    while k < lines.len()
        invariant
            k <= lines@.len(),
            lines2 == views(lines@),
            views(out@) == Seq::new(
                k as nat,
                |j: int|
                    if j == 0 {
                        prefix@ + lines2[0]
                    } else {
                        seq![' ', ' '] + lines2[j]
                    },
            ),
        decreases lines@.len() - k,
    {
        let ghost before = views(out@);
        let mut l: Vec<char> = Vec::new();
        if k == 0 {
            append_all(&mut l, prefix.as_slice());
        } else {
            l.push(' ');
            l.push(' ');
        }
        append_all(&mut l, lines[k].as_slice());
        assert(lines[k as int]@ == lines2[k as int]);
        assert(l@ == if k == 0 {
            prefix@ + lines2[0]
        } else {
            seq![' ', ' '] + lines2[k as int]
        });
        out.push(l);
        proof {
            assert(views(out@) =~= before.push(l@));
            assert(views(out@) =~= Seq::new(
                (k + 1) as nat,
                |j: int|
                    if j == 0 {
                        prefix@ + lines2[0]
                    } else {
                        seq![' ', ' '] + lines2[j]
                    },
            ));
        }
        k = k + 1;
    }
    assert(views(out@) =~= entry_lines(bullet@, views(conts@)));
    out
}

/// Reflows a single entry: the bullet line and its continuation texts
/// become lines of at most 88 display columns where the words allow, with
/// the commit links gathered at the end. Returns the lines without line
/// terminators.
pub fn format_entry(bullet: &str, cont_texts: &[&str]) -> (out: Vec<String>)
    requires
        entry_formattable(bullet@, str_views(cont_texts@)),
    ensures
        string_views(out@) == entry_lines(bullet@, str_views(cont_texts@)),
        out@.len() >= 1,
{
    proof {
        lemma_entry_has_lines(bullet@, str_views(cont_texts@));
    }
    let b = chars_of(bullet);
    let mut conts: Vec<Vec<char>> = Vec::new();
    let mut i: usize = 0;
    while i < cont_texts.len()
        invariant
            i <= cont_texts@.len(),
            views(conts@) == str_views(cont_texts@).take(i as int),
        decreases cont_texts@.len() - i,
    {
        let ghost before = views(conts@);
        let c = chars_of(cont_texts[i]);
        conts.push(c);
        proof {
            assert(views(conts@) =~= before.push(cont_texts@[i as int]@));
            assert(str_views(cont_texts@).take(i + 1) =~= str_views(cont_texts@).take(i as int).push(
                cont_texts@[i as int]@,
            ));
        }
        i = i + 1;
    }
    assert(str_views(cont_texts@).take(cont_texts@.len() as int) =~= str_views(cont_texts@));
    let lines = format_entry_chars(b.as_slice(), &conts);
    let mut out: Vec<String> = Vec::new();
    let mut k: usize = 0;
    while k < lines.len()
        invariant
            k <= lines@.len(),
            string_views(out@) == views(lines@).take(k as int),
        decreases lines@.len() - k,
    {
        let ghost before = string_views(out@);
        out.push(string_of(lines[k].as_slice()));
        proof {
            assert(string_views(out@) =~= before.push(lines@[k as int]@));
            assert(views(lines@).take(k + 1) =~= views(lines@).take(k as int).push(lines@[k as int]@));
        }
        k = k + 1;
    }
    assert(views(lines@).take(lines@.len() as int) =~= views(lines@));
    out
}

} // verus!

verus! {

// ---------------------------------------------------------------------------
// Line classes
// ---------------------------------------------------------------------------

/// A bullet line: after leading white space, `- ` or `* `.
pub open spec fn looks_like_bullet_spec(s: Seq<char>) -> bool {
    starts_with(trim_start(s), seq!['-', ' ']) || starts_with(trim_start(s), seq!['*', ' '])
}

/// A continuation line: indented by two spaces and not a bullet.
pub open spec fn is_continuation_spec(s: Seq<char>) -> bool {
    starts_with(s, seq![' ', ' ']) && !looks_like_bullet_spec(s)
}

/// The number of `#` that `s` starts with.
pub open spec fn hash_marks(s: Seq<char>, i: int) -> int
    decreases s.len() - i,
{
    if 0 <= i < s.len() && s[i] == '#' {
        hash_marks(s, i + 1)
    } else {
        i
    }
}

/// A Markdown heading: one to six `#` and a white-space character.
pub open spec fn is_heading(s: Seq<char>) -> bool {
    let k = hash_marks(s, 0);
    1 <= k <= 6 && k < s.len() && is_ws(s[k])
}

/// A line that ends an entry: empty, a heading, a code fence, a table row,
/// or a quote.
pub open spec fn is_meta_spec(s: Seq<char>) -> bool {
    ||| s.len() == 0
    ||| is_heading(s)
    ||| starts_with(s, seq!['`', '`', '`'])
    ||| starts_with(s, seq!['|', '-', '-', '-'])
    ||| starts_with(s, seq!['>'])
    ||| starts_with(s, seq!['|'])
}

fn looks_like_bullet(s: &[char]) -> (b: bool)
    ensures
        b == looks_like_bullet_spec(s@),
{
    let t = trim_start_exec(s);
    let dash: [char; 2] = ['-', ' '];
    let star: [char; 2] = ['*', ' '];
    assert(dash@ =~= seq!['-', ' ']);
    assert(star@ =~= seq!['*', ' ']);
    starts_with_exec(t.as_slice(), dash.as_slice()) || starts_with_exec(t.as_slice(), star.as_slice())
}

fn is_continuation(s: &[char]) -> (b: bool)
    ensures
        b == is_continuation_spec(s@),
{
    let sp: [char; 2] = [' ', ' '];
    assert(sp@ =~= seq![' ', ' ']);
    starts_with_exec(s, sp.as_slice()) && !looks_like_bullet(s)
}

fn is_meta(s: &[char]) -> (b: bool)
    ensures
        b == is_meta_spec(s@),
{
    if s.len() == 0 {
        return true;
    }
    let mut k: usize = 0;
    while k < s.len() && s[k] == '#'
        invariant
            k <= s@.len(),
            hash_marks(s@, k as int) == hash_marks(s@, 0),
        decreases s@.len() - k,
    {
        k = k + 1;
    }
    if 1 <= k && k <= 6 && k < s.len() && char_is_ws(s[k]) {
        return true;
    }
    let fence: [char; 3] = ['`', '`', '`'];
    let table: [char; 4] = ['|', '-', '-', '-'];
    let quote: [char; 1] = ['>'];
    let bar: [char; 1] = ['|'];
    assert(fence@ =~= seq!['`', '`', '`']);
    assert(table@ =~= seq!['|', '-', '-', '-']);
    assert(quote@ =~= seq!['>']);
    assert(bar@ =~= seq!['|']);
    starts_with_exec(s, fence.as_slice()) || starts_with_exec(s, table.as_slice()) || starts_with_exec(
        s,
        quote.as_slice(),
    ) || starts_with_exec(s, bar.as_slice())
}

/// `s` without trailing line feeds.
pub open spec fn strip_newlines(s: Seq<char>) -> Seq<char>
    decreases s.len(),
{
    if s.len() > 0 && s.last() == '\n' {
        strip_newlines(s.drop_last())
    } else {
        s
    }
}

fn strip_newlines_exec(s: &[char]) -> (out: Vec<char>)
    ensures
        out@ == strip_newlines(s@),
{
    let mut k = s.len();
    assert(s@.subrange(0, k as int) =~= s@);
    while k > 0 && s[k - 1] == '\n'
        invariant
            k <= s@.len(),
            strip_newlines(s@.subrange(0, k as int)) == strip_newlines(s@),
        decreases k,
    {
        assert(s@.subrange(0, k as int).drop_last() =~= s@.subrange(0, k - 1));
        k = k - 1;
    }
    assert(s@.subrange(0, 0) =~= Seq::<char>::empty());
    slice_chars(s, 0, k)
}

// ---------------------------------------------------------------------------
// Reflowing a whole changelog
// ---------------------------------------------------------------------------

/// The lines of `text` from `pos` on, split at line feeds, each with whether
/// a line feed ended it.
pub open spec fn split_at_newlines(text: Seq<char>, pos: int) -> Seq<(Seq<char>, bool)>
    decreases text.len() - pos,
{
    if pos < 0 || pos >= text.len() {
        Seq::empty()
    } else {
        let idx = find_char_from(text, pos, '\n');
        if pos <= idx < text.len() {
            seq![(text.subrange(pos, idx), true)] + split_at_newlines(text, idx + 1)
        } else {
            seq![(text.subrange(pos, text.len() as int), false)]
        }
    }
}

/// An entry of a changelog: the indices of its first and last line, and the
/// texts of its lines.
pub type EntrySpan = (int, int, Seq<Seq<char>>);

/// The entries of a changelog from line `i` on: a bullet line starts an
/// entry and continuation lines extend it; any other line ends it.
pub open spec fn collect_entries_from(
    lines: Seq<Seq<char>>,
    i: int,
    entries: Seq<EntrySpan>,
    cur: Option<(int, int, Seq<Seq<char>>)>,
) -> Seq<EntrySpan>
    decreases lines.len() - i,
{
    if i < 0 || i >= lines.len() {
        match cur {
            Some(c) => entries.push(c),
            None => entries,
        }
    } else {
        let stripped = strip_newlines(lines[i]);
        if looks_like_bullet_spec(stripped) {
            let e2 = match cur {
                Some(c) => entries.push(c),
                None => entries,
            };
            collect_entries_from(lines, i + 1, e2, Some((i, i, seq![stripped])))
        } else if is_continuation_spec(stripped) && cur is Some {
            let c = cur->0;
            collect_entries_from(lines, i + 1, entries, Some((c.0, i, c.2.push(stripped))))
        } else {
            let e2 = match cur {
                Some(c) => entries.push(c),
                None => entries,
            };
            collect_entries_from(lines, i + 1, e2, None)
        }
    }
}

/// The entries of a changelog.
pub open spec fn entries_of(lines: Seq<Seq<char>>) -> Seq<EntrySpan> {
    collect_entries_from(lines, 0, Seq::empty(), None)
}

/// A continuation text without the two-space indent.
pub open spec fn unindent(t: Seq<char>) -> Seq<char> {
    if starts_with(t, seq![' ', ' ']) {
        t.subrange(2, t.len() as int)
    } else {
        t
    }
}

/// The continuation texts of an entry, unindented.
pub open spec fn entry_conts(texts: Seq<Seq<char>>) -> Seq<Seq<char>> {
    texts.subrange(1, texts.len() as int).map_values(|t: Seq<char>| unindent(t))
}

/// Lines joined, each followed by a line feed.
pub open spec fn join_lines(ls: Seq<Seq<char>>) -> Seq<char>
    decreases ls.len(),
{
    if ls.len() == 0 {
        Seq::empty()
    } else {
        join_lines(ls.drop_last()) + ls.last() + seq!['\n']
    }
}

/// The reformatted text from line `i` on, with the entries from `e` on:
/// each entry's lines become its reflowed lines, each ended by a line feed;
/// every other line is kept with its terminator.
pub open spec fn render_from(
    parts: Seq<(Seq<char>, bool)>,
    entries: Seq<EntrySpan>,
    i: int,
    e: int,
) -> Seq<char>
    decreases parts.len() - i,
{
    if i < 0 || i >= parts.len() {
        Seq::empty()
    } else if 0 <= e < entries.len() && entries[e].0 == i && i <= entries[e].1 < parts.len() && entries[e].2.len() > 0 {
        join_lines(entry_lines(entries[e].2[0], entry_conts(entries[e].2))) + render_from(
            parts,
            entries,
            entries[e].1 + 1,
            e + 1,
        )
    } else {
        parts[i].0 + (if parts[i].1 {
            seq!['\n']
        } else {
            Seq::empty()
        }) + render_from(parts, entries, i + 1, e)
    }
}

/// The lines of a text split at line feeds.
pub open spec fn split_lines(text: Seq<char>) -> Seq<Seq<char>> {
    split_at_newlines(text, 0).map_values(|p: (Seq<char>, bool)| p.0)
}

/// Every entry of the text can be reflowed.
pub open spec fn text_formattable(text: Seq<char>) -> bool {
    let es = entries_of(split_lines(text));
    forall|k: int| 0 <= k < es.len() ==> #[trigger] es[k].2.len() > 0 && entry_formattable(es[k].2[0], entry_conts(es[k].2))
}

/// The reformatted changelog.
pub open spec fn formatted_text(text: Seq<char>) -> Seq<char> {
    render_from(split_at_newlines(text, 0), entries_of(split_lines(text)), 0, 0)
}

} // verus!

verus! {

/// The view of an entry.
pub open spec fn entry_view(e: (usize, usize, Vec<Vec<char>>)) -> EntrySpan {
    (e.0 as int, e.1 as int, views(e.2@))
}

/// The views of several entries.
pub open spec fn entry_views(es: Seq<(usize, usize, Vec<Vec<char>>)>) -> Seq<EntrySpan> {
    es.map_values(|e: (usize, usize, Vec<Vec<char>>)| entry_view(e))
}

/// The view of an open entry.
pub open spec fn cur_view(c: Option<(usize, usize, Vec<Vec<char>>)>) -> Option<EntrySpan> {
    match c {
        Some(e) => Some(entry_view(e)),
        None => None,
    }
}

/// The views of split lines.
pub open spec fn part_views(ps: Seq<(Vec<char>, bool)>) -> Seq<(Seq<char>, bool)> {
    ps.map_values(|p: (Vec<char>, bool)| (p.0@, p.1))
}

fn split_at_newlines_exec(t: &[char]) -> (parts: Vec<(Vec<char>, bool)>)
    ensures
        part_views(parts@) == split_at_newlines(t@, 0),
{
    let mut parts: Vec<(Vec<char>, bool)> = Vec::new();
    let mut pos: usize = 0;
    while pos < t.len()
        invariant
            pos <= t@.len(),
            part_views(parts@) + split_at_newlines(t@, pos as int) == split_at_newlines(t@, 0),
        decreases t@.len() - pos,
    {
        let ghost before = part_views(parts@);
        let idx = find_char_exec(t, pos, '\n');
        if idx < t.len() {
            let line = slice_chars(t, pos, idx);
            parts.push((line, true));
            proof {
                assert(part_views(parts@) =~= before.push((t@.subrange(pos as int, idx as int), true)));
                assert(before + split_at_newlines(t@, pos as int) =~= part_views(parts@) + split_at_newlines(
                    t@,
                    idx + 1,
                ));
            }
            pos = idx + 1;
        } else {
            let line = slice_chars(t, pos, t.len());
            parts.push((line, false));
            proof {
                assert(part_views(parts@) =~= before.push((t@.subrange(pos as int, t@.len() as int), false)));
                assert(split_at_newlines(t@, t@.len() as int) =~= Seq::<(Seq<char>, bool)>::empty());
                assert(before + split_at_newlines(t@, pos as int) =~= part_views(parts@) + split_at_newlines(
                    t@,
                    t@.len() as int,
                ));
            }
            pos = t.len();
        }
    }
    proof {
        assert(split_at_newlines(t@, pos as int) =~= Seq::<(Seq<char>, bool)>::empty());
        let m = part_views(parts@);
        assert(m + Seq::<(Seq<char>, bool)>::empty() =~= m);
    }
    parts
}

fn collect_entries(lines: &Vec<Vec<char>>) -> (entries: Vec<(usize, usize, Vec<Vec<char>>)>)
    ensures
        entry_views(entries@) == entries_of(views(lines@)),
{
    let ghost ls = views(lines@);
    let mut entries: Vec<(usize, usize, Vec<Vec<char>>)> = Vec::new();
    let mut cur: Option<(usize, usize, Vec<Vec<char>>)> = None;
    let mut i: usize = 0;
    assert(entry_views(entries@) =~= Seq::<EntrySpan>::empty());
    while i < lines.len()
        invariant
            i <= lines@.len(),
            ls == views(lines@),
            collect_entries_from(ls, i as int, entry_views(entries@), cur_view(cur)) == entries_of(ls),
        decreases lines@.len() - i,
    {
        let ghost before = entry_views(entries@);
        let ghost cv = cur_view(cur);
        let stripped = strip_newlines_exec(lines[i].as_slice());
        assert(stripped@ == strip_newlines(ls[i as int]));
        if looks_like_bullet(stripped.as_slice()) {
            let prev = cur;
            if let Some(c) = prev {
                entries.push(c);
                assert(entry_views(entries@) =~= before.push(cv->0));
            }
            let mut texts: Vec<Vec<char>> = Vec::new();
            texts.push(stripped);
            assert(views(texts@) =~= seq![strip_newlines(ls[i as int])]);
            cur = Some((i, i, texts));
        } else if is_continuation(stripped.as_slice()) && cur.is_some() {
            let c = cur.unwrap();
            let (s0, _e0, mut texts) = c;
            let ghost tv = views(texts@);
            texts.push(stripped);
            assert(views(texts@) =~= tv.push(strip_newlines(ls[i as int])));
            cur = Some((s0, i, texts));
        } else {
            let prev = cur;
            if let Some(c) = prev {
                entries.push(c);
                assert(entry_views(entries@) =~= before.push(cv->0));
            }
            cur = None;
        }
        i = i + 1;
    }
    let ghost before = entry_views(entries@);
    let ghost cv = cur_view(cur);
    if let Some(c) = cur {
        entries.push(c);
        assert(entry_views(entries@) =~= before.push(cv->0));
    }
    entries
}

fn unindent_exec(t: &[char]) -> (out: Vec<char>)
    ensures
        out@ == unindent(t@),
{
    let sp: [char; 2] = [' ', ' '];
    assert(sp@ =~= seq![' ', ' ']);
    if starts_with_exec(t, sp.as_slice()) {
        slice_chars(t, 2, t.len())
    } else {
        slice_chars(t, 0, t.len())
    }
}

/// Formats an entire CHANGELOG: every entry (a bullet line and its
/// continuation lines) is reflowed by `format_entry`, each of its lines
/// ended by a line feed; every other line is kept with its terminator.
pub fn format_text(text: &str) -> (out: String)
    requires
        text_formattable(text@),
    ensures
        out@ == formatted_text(text@),
{
    let t = chars_of(text);
    let parts = split_at_newlines_exec(t.as_slice());
    let mut lines: Vec<Vec<char>> = Vec::new();
    let mut k: usize = 0;
    while k < parts.len()
        invariant
            k <= parts@.len(),
            views(lines@) == part_views(parts@).map_values(|p: (Seq<char>, bool)| p.0).take(k as int),
        decreases parts@.len() - k,
    {
        let ghost before = views(lines@);
        lines.push(parts[k].0.clone());
        assert(views(lines@) =~= before.push(parts@[k as int].0@));
        assert(part_views(parts@).map_values(|p: (Seq<char>, bool)| p.0).take(k + 1) =~= part_views(
            parts@,
        ).map_values(|p: (Seq<char>, bool)| p.0).take(k as int).push(parts@[k as int].0@));
        k = k + 1;
    }
    assert(part_views(parts@).map_values(|p: (Seq<char>, bool)| p.0).take(parts@.len() as int)
        =~= split_lines(t@));
    let entries = collect_entries(&lines);
    let ghost pv = part_views(parts@);
    let ghost ev = entry_views(entries@);
    let mut out: Vec<char> = Vec::new();
    let mut i: usize = 0;
    let mut e: usize = 0;
    while i < parts.len()
        invariant
            i <= parts@.len(),
            pv == part_views(parts@),
            ev == entry_views(entries@),
            pv == split_at_newlines(t@, 0),
            ev == entries_of(split_lines(t@)),
            text_formattable(t@),
            out@ + render_from(pv, ev, i as int, e as int) == formatted_text(t@),
        decreases parts@.len() - i,
    {
        let ghost before = out@;
        if e < entries.len() && entries[e].0 == i && i <= entries[e].1 && entries[e].1 < parts.len()
            && entries[e].2.len() > 0 {
            let texts = &entries[e].2;
            let mut conts: Vec<Vec<char>> = Vec::new();
            let mut j: usize = 1;
            while j < texts.len()
                invariant
                    1 <= j <= texts@.len(),
                    views(conts@) == entry_conts(views(texts@)).take(j - 1),
                decreases texts@.len() - j,
            {
                let ghost cb = views(conts@);
                let u = unindent_exec(texts[j].as_slice());
                conts.push(u);
                assert(views(conts@) =~= cb.push(unindent(texts@[j as int]@)));
                assert(entry_conts(views(texts@)).take(j as int) =~= entry_conts(views(texts@)).take(j - 1).push(
                    unindent(texts@[j as int]@),
                ));
                j = j + 1;
            }
            assert(entry_conts(views(texts@)).take(texts@.len() - 1) =~= entry_conts(views(texts@)));
            assert(ev[e as int] == entry_view(entries@[e as int]));
            let formatted = format_entry_chars(texts[0].as_slice(), &conts);
            let mut q: usize = 0;
            while q < formatted.len()
                invariant
                    q <= formatted@.len(),
                    out@ == before + join_lines(views(formatted@).take(q as int)),
                decreases formatted@.len() - q,
            {
                let ghost ob = out@;
                append_all(&mut out, formatted[q].as_slice());
                out.push('\n');
                proof {
                    let tk = views(formatted@).take(q + 1);
                    assert(tk.drop_last() =~= views(formatted@).take(q as int));
                    assert(tk.last() == formatted@[q as int]@);
                    assert(out@ =~= before + join_lines(tk));
                }
                q = q + 1;
            }
            assert(views(formatted@).take(formatted@.len() as int) =~= views(formatted@));
            i = entries[e].1 + 1;
            e = e + 1;
        } else {
            append_all(&mut out, parts[i].0.as_slice());
            if parts[i].1 {
                out.push('\n');
            }
            proof {
                let nl = if pv[i as int].1 {
                    seq!['\n']
                } else {
                    Seq::<char>::empty()
                };
                assert(out@ =~= before + pv[i as int].0 + nl);
            }
            i = i + 1;
        }
    }
    proof {
        assert(render_from(pv, ev, i as int, e as int) =~= Seq::<char>::empty());
        assert(out@ + Seq::<char>::empty() =~= out@);
    }
    string_of(out.as_slice())
}

} // verus!

verus! {

// ---------------------------------------------------------------------------
// Checking
// ---------------------------------------------------------------------------

/// What `format!("{:?}", s)` writes for a string: it quoted and escaped.
pub uninterp spec fn debug_quoted(s: Seq<char>) -> Seq<char>;

/// Whether every character is printable ASCII other than `"` and `\`,
/// which `{:?}` writes as they are.
pub open spec fn plain_ascii(s: Seq<char>) -> bool {
    forall|i: int| 0 <= i < s.len() ==> ' ' <= #[trigger] s[i] <= '~' && s[i] != '"' && s[i] != '\\'
}

/// Formats a string with `{:?}` (std's `Debug` for `str`). The claim is that
/// the result is a function of the string and that a string of plain
/// printable ASCII is only put in double quotes; the escaping of other
/// characters is not restated.
#[verifier::external_body]
fn debug_quote(s: &[char]) -> (q: Vec<char>)
    ensures
        q@ == debug_quoted(s@),
        plain_ascii(s@) ==> q@ == seq!['"'] + s@ + seq!['"'],
{
    let text: String = s.iter().collect();
    format!("{:?}", text).chars().collect()
}

/// The lines of `text` from `pos` on as `str::lines` gives them: split at
/// line feeds, a carriage return before a line feed dropped, no empty line
/// after a final line feed.
pub open spec fn std_lines_from(text: Seq<char>, pos: int) -> Seq<Seq<char>>
    decreases text.len() - pos,
{
    if pos < 0 || pos >= text.len() {
        Seq::empty()
    } else {
        let idx = find_char_from(text, pos, '\n');
        if pos <= idx < text.len() {
            let piece = text.subrange(pos, idx);
            let line = if piece.len() > 0 && piece.last() == '\r' {
                piece.drop_last()
            } else {
                piece
            };
            seq![line] + std_lines_from(text, idx + 1)
        } else {
            seq![text.subrange(pos, text.len() as int)]
        }
    }
}

/// Whether a word holds an ASCII letter or digit.
pub open spec fn has_word_char(w: Seq<char>) -> bool {
    exists|k: int| 0 <= k < w.len() && #[trigger] is_ascii_alnum(w[k])
}

/// An ASCII letter or digit.
pub open spec fn is_ascii_alnum(c: char) -> bool {
    ('a' <= c && c <= 'z') || ('A' <= c && c <= 'Z') || ('0' <= c && c <= '9')
}

/// The report of a commit link alone on line `n` (counted from one).
pub open spec fn hash_alone_message(n: nat, line: Seq<char>) -> Seq<char> {
    "  HASH-ALONE L"@ + decimal(n) + ": "@ + debug_quoted(line)
}

/// The report of a word on line `n` (counted from one) that fits on the
/// previous line.
pub open spec fn merge_up_message(n: nat, word: Seq<char>, merged: nat, line: Seq<char>) -> Seq<char> {
    "  MERGE-UP L"@ + decimal(n) + ": "@ + debug_quoted(word) + " fits on L"@ + decimal((n - 1) as nat)
        + " (merged="@ + decimal(merged) + " <= 88): "@ + debug_quoted(line)
}

/// A line with commit links and no other text.
pub open spec fn is_hash_alone(s: Seq<char>) -> bool {
    link_texts(true, s, 0).len() > 0 && trim(strip_lone_dash(trim(replace_links(false, false, s, 0)))).len()
        == 0
}

/// The state of the check after a line, given the line and the state
/// before it: whether an entry is open, and the display text of the
/// previous entry line.
pub open spec fn check_step(s: Seq<char>, in_entry: bool, prev: Seq<char>) -> (bool, Seq<char>) {
    let is_b = looks_like_bullet_spec(s);
    let is_c = is_continuation_spec(s);
    let is_m = is_meta_spec(s);
    let in_entry2 = if is_b {
        true
    } else if is_m {
        false
    } else {
        in_entry
    };
    let prev2 = if is_b || is_c {
        display_text(s)
    } else if !is_m {
        Seq::empty()
    } else {
        prev
    };
    (in_entry2, prev2)
}

/// The reports for line `i` (counted from zero), given the state before it.
pub open spec fn line_reports(i: int, s: Seq<char>, in_entry: bool, prev: Seq<char>) -> Seq<Seq<char>> {
    let hash_err = if is_hash_alone(s) {
        seq![hash_alone_message((i + 1) as nat, s)]
    } else {
        Seq::empty()
    };
    let ws = words(display_text(s));
    let merge_err = if is_continuation_spec(s) && !is_meta_spec(s) && in_entry && ws.len() > 0 && has_word_char(
        ws[0],
    ) && prev.len() + 1 + ws[0].len() <= WIDTH {
        seq![merge_up_message((i + 1) as nat, ws[0], (prev.len() + 1 + ws[0].len()) as nat, s)]
    } else {
        Seq::empty()
    };
    hash_err + merge_err
}

/// The reports for the lines from `i` on, given the state before line `i`.
pub open spec fn check_from(lines: Seq<Seq<char>>, i: int, in_entry: bool, prev: Seq<char>, in_code: bool) -> Seq<
    Seq<char>,
>
    decreases lines.len() - i,
{
    if i < 0 || i >= lines.len() {
        Seq::empty()
    } else {
        let s = strip_newlines(lines[i]);
        let in_code2 = if starts_with(s, seq!['`', '`', '`']) {
            !in_code
        } else {
            in_code
        };
        if in_code2 {
            check_from(lines, i + 1, in_entry, prev, in_code2)
        } else {
            let (in_entry2, prev2) = check_step(s, in_entry, prev);
            line_reports(i, s, in_entry, prev) + check_from(lines, i + 1, in_entry2, prev2, in_code2)
        }
    }
}

/// The reports of the check of a changelog.
pub open spec fn check_reports(text: Seq<char>) -> Seq<Seq<char>> {
    check_from(std_lines_from(text, 0), 0, false, Seq::empty(), false)
}

fn std_lines_exec(t: &[char]) -> (lines: Vec<Vec<char>>)
    ensures
        views(lines@) == std_lines_from(t@, 0),
{
    let mut lines: Vec<Vec<char>> = Vec::new();
    let mut pos: usize = 0;
    while pos < t.len()
        invariant
            pos <= t@.len(),
            views(lines@) + std_lines_from(t@, pos as int) == std_lines_from(t@, 0),
        decreases t@.len() - pos,
    {
        let ghost before = views(lines@);
        let idx = find_char_exec(t, pos, '\n');
        if idx < t.len() {
            let end = if idx > pos && t[idx - 1] == '\r' {
                idx - 1
            } else {
                idx
            };
            let line = slice_chars(t, pos, end);
            proof {
                let piece = t@.subrange(pos as int, idx as int);
                if idx > pos && t@[idx - 1] == '\r' {
                    assert(piece.drop_last() =~= line@);
                } else {
                    assert(piece =~= line@);
                }
            }
            lines.push(line);
            proof {
                assert(views(lines@) =~= before.push(line@));
                assert(before + std_lines_from(t@, pos as int) =~= views(lines@) + std_lines_from(t@, idx + 1));
            }
            pos = idx + 1;
        } else {
            let line = slice_chars(t, pos, t.len());
            lines.push(line);
            proof {
                assert(views(lines@) =~= before.push(line@));
                assert(std_lines_from(t@, t@.len() as int) =~= Seq::<Seq<char>>::empty());
                assert(before + std_lines_from(t@, pos as int) =~= views(lines@) + std_lines_from(
                    t@,
                    t@.len() as int,
                ));
            }
            pos = t.len();
        }
    }
    proof {
        assert(std_lines_from(t@, pos as int) =~= Seq::<Seq<char>>::empty());
        let m = views(lines@);
        assert(m + Seq::<Seq<char>>::empty() =~= m);
    }
    lines
}

fn has_word_char_exec(w: &[char]) -> (b: bool)
    ensures
        b == has_word_char(w@),
{
    let mut k: usize = 0;
    while k < w.len()
        invariant
            k <= w@.len(),
            forall|j: int| 0 <= j < k ==> !is_ascii_alnum(#[trigger] w@[j]),
        decreases w@.len() - k,
    {
        let c = w[k];
        if ('a' <= c && c <= 'z') || ('A' <= c && c <= 'Z') || ('0' <= c && c <= '9') {
            assert(is_ascii_alnum(w@[k as int]));
            return true;
        }
        k = k + 1;
    }
    false
}

fn is_hash_alone_exec(s: &[char]) -> (b: bool)
    ensures
        b == is_hash_alone(s@),
{
    let hashes = link_texts_exec(true, s);
    assert(hashes@.len() == link_texts(true, s@, 0).len());
    if hashes.len() == 0 {
        return false;
    }
    let a = replace_links_exec(false, false, s);
    let b = trim_exec(a.as_slice());
    let c = strip_lone_dash_exec(b.as_slice());
    let d = trim_exec(c.as_slice());
    d.len() == 0
}

fn push_str(out: &mut Vec<char>, s: &str)
    ensures
        final(out)@ == old(out)@ + s@,
{
    let c = chars_of(s);
    append_all(out, c.as_slice());
}

fn line_reports_exec(i: usize, s: &[char], in_entry: bool, prev: &[char], errs: &mut Vec<String>)
    requires
        i < usize::MAX,
    ensures
        string_views(final(errs)@) == string_views(old(errs)@) + line_reports(i as int, s@, in_entry, prev@),
{
    let ghost start = string_views(errs@);
    let prev_len = prev.len();
    if is_hash_alone_exec(s) {
        let mut m: Vec<char> = Vec::new();
        push_str(&mut m, "  HASH-ALONE L");
        push_decimal(&mut m, (i + 1) as u64);
        push_str(&mut m, ": ");
        let q = debug_quote(s);
        append_all(&mut m, q.as_slice());
        assert(m@ =~= hash_alone_message((i + 1) as nat, s@));
        errs.push(string_of(m.as_slice()));
    }
    let ghost mid = string_views(errs@);
    assert(mid =~= start + (if is_hash_alone(s@) {
        seq![hash_alone_message((i + 1) as nat, s@)]
    } else {
        Seq::<Seq<char>>::empty()
    }));
    if is_continuation(s) && !is_meta(s) && in_entry {
        let disp = display_text_chars(s);
        let ws = words_exec(disp.as_slice());
        if ws.len() > 0 && has_word_char_exec(ws[0].as_slice()) && prev_len <= WIDTH && ws[0].len() <= WIDTH
            && prev_len + 1 + ws[0].len() <= WIDTH {
            let merged = prev_len + 1 + ws[0].len();
            let mut m: Vec<char> = Vec::new();
            push_str(&mut m, "  MERGE-UP L");
            push_decimal(&mut m, (i + 1) as u64);
            push_str(&mut m, ": ");
            let qw = debug_quote(ws[0].as_slice());
            append_all(&mut m, qw.as_slice());
            push_str(&mut m, " fits on L");
            push_decimal(&mut m, i as u64);
            push_str(&mut m, " (merged=");
            push_decimal(&mut m, merged as u64);
            push_str(&mut m, " <= 88): ");
            let qs = debug_quote(s);
            append_all(&mut m, qs.as_slice());
            assert(m@ =~= merge_up_message((i + 1) as nat, ws@[0]@, merged as nat, s@));
            errs.push(string_of(m.as_slice()));
            assert(string_views(errs@) =~= start + line_reports(i as int, s@, in_entry, prev@));
            return ;
        }
    }
    assert(string_views(errs@) =~= start + line_reports(i as int, s@, in_entry, prev@));
}

} // verus!

verus! {

/// Checks a CHANGELOG for the two formatting rules and returns a report
/// per violation; an empty list means the text passes.
pub fn check(text: &str) -> (errs: Vec<String>)
    ensures
        string_views(errs@) == check_reports(text@),
{
    let t = chars_of(text);
    let lines = std_lines_exec(t.as_slice());
    let ghost ls = views(lines@);
    let mut errs: Vec<String> = Vec::new();
    let mut in_entry = false;
    let mut prev: Vec<char> = Vec::new();
    let mut in_code = false;
    let mut i: usize = 0;
    assert(string_views(errs@) =~= Seq::<Seq<char>>::empty());
    while i < lines.len()
        invariant
            i <= lines@.len(),
            ls == views(lines@),
            ls == std_lines_from(t@, 0),
            t@ == text@,
            string_views(errs@) + check_from(ls, i as int, in_entry, prev@, in_code) == check_reports(text@),
        decreases lines@.len() - i,
    {
        let ghost before = string_views(errs@);
        let ghost ie0 = in_entry;
        let ghost p0 = prev@;
        let ghost ic0 = in_code;
        let s = strip_newlines_exec(lines[i].as_slice());
        assert(s@ == strip_newlines(ls[i as int]));
        let fence: [char; 3] = ['`', '`', '`'];
        assert(fence@ =~= seq!['`', '`', '`']);
        if starts_with_exec(s.as_slice(), fence.as_slice()) {
            in_code = !in_code;
        }
        if !in_code {
            line_reports_exec(i, s.as_slice(), in_entry, prev.as_slice(), &mut errs);
            let is_b = looks_like_bullet(s.as_slice());
            let is_c = is_continuation(s.as_slice());
            let is_m = is_meta(s.as_slice());
            let ghost step = check_step(s@, in_entry, prev@);
            if is_b {
                in_entry = true;
            } else if is_m {
                in_entry = false;
            }
            if is_b || is_c {
                prev = display_text_chars(s.as_slice());
            } else if !is_m {
                prev = Vec::new();
            }
            assert(in_entry == step.0);
            assert(prev@ =~= step.1);
            assert(string_views(errs@) == before + line_reports(i as int, s@, ie0, p0));
            assert(check_from(ls, i as int, ie0, p0, ic0) == line_reports(i as int, s@, ie0, p0) + check_from(
                ls,
                i + 1,
                in_entry,
                prev@,
                in_code,
            ));
            assert(before + check_from(ls, i as int, ie0, p0, ic0) =~= string_views(errs@) + check_from(
                ls,
                i + 1,
                in_entry,
                prev@,
                in_code,
            ));
        }
        i = i + 1;
    }
    proof {
        assert(check_from(ls, i as int, in_entry, prev@, in_code) =~= Seq::<Seq<char>>::empty());
        let m = string_views(errs@);
        assert(m + Seq::<Seq<char>>::empty() =~= m);
    }
    errs
}

} // verus!

verus! {

/// The commit links `[hash](url)` of `body`, leftmost first.
pub fn collect_hash_links(body: &str) -> (out: Vec<String>)
    ensures
        string_views(out@) == link_texts(true, body@, 0),
{
    let b = chars_of(body);
    let links = hash_links_in(b.as_slice());
    let mut out: Vec<String> = Vec::new();
    let mut k: usize = 0;
    while k < links.len()
        invariant
            k <= links@.len(),
            string_views(out@) == views(links@).take(k as int),
        decreases links@.len() - k,
    {
        let ghost before = string_views(out@);
        out.push(string_of(links[k].as_slice()));
        assert(string_views(out@) =~= before.push(links@[k as int]@));
        assert(views(links@).take(k + 1) =~= views(links@).take(k as int).push(links@[k as int]@));
        k = k + 1;
    }
    assert(views(links@).take(links@.len() as int) =~= views(links@));
    out
}

} // verus!

verus! {

/// The text that split lines stand for: each line followed by its line feed
/// where one ended it.
pub open spec fn unsplit(parts: Seq<(Seq<char>, bool)>) -> Seq<char>
    decreases parts.len(),
{
    if parts.len() == 0 {
        Seq::empty()
    } else {
        parts[0].0 + (if parts[0].1 {
            seq!['\n']
        } else {
            Seq::empty()
        }) + unsplit(parts.drop_first())
    }
}

/// Splitting at line feeds loses nothing.
proof fn lemma_unsplit_split(text: Seq<char>, pos: int)
    requires
        0 <= pos <= text.len(),
    ensures
        unsplit(split_at_newlines(text, pos)) == text.skip(pos),
    decreases text.len() - pos,
{
    if pos < text.len() {
        let idx = find_char_from(text, pos, '\n');
        lemma_find_char(text, pos, '\n');
        let parts = split_at_newlines(text, pos);
        if idx < text.len() {
            lemma_unsplit_split(text, idx + 1);
            assert(parts.drop_first() =~= split_at_newlines(text, idx + 1));
            assert(parts[0] == (text.subrange(pos, idx), true));
            assert(unsplit(parts) == text.subrange(pos, idx) + seq!['\n'] + unsplit(parts.drop_first()));
            assert(text.skip(pos) =~= text.subrange(pos, idx) + seq!['\n'] + text.skip(idx + 1));
        } else {
            assert(parts.drop_first() =~= Seq::<(Seq<char>, bool)>::empty());
            assert(parts[0] == (text.subrange(pos, text.len() as int), false));
            assert(unsplit(parts.drop_first()) == Seq::<char>::empty());
            assert(unsplit(parts) =~= text.subrange(pos, text.len() as int));
            assert(text.skip(pos) =~= text.subrange(pos, text.len() as int));
        }
    } else {
        assert(text.skip(pos) =~= Seq::<char>::empty());
    }
}

/// Without entries, rendering keeps every line with its terminator.
proof fn lemma_render_without_entries(parts: Seq<(Seq<char>, bool)>, i: int)
    requires
        0 <= i <= parts.len(),
    ensures
        render_from(parts, Seq::empty(), i, 0) == unsplit(parts.skip(i)),
    decreases parts.len() - i,
{
    if i < parts.len() {
        lemma_render_without_entries(parts, i + 1);
        assert(parts.skip(i).drop_first() =~= parts.skip(i + 1));
        assert(parts.skip(i)[0] == parts[i]);
    } else {
        assert(parts.skip(i) =~= Seq::<(Seq<char>, bool)>::empty());
    }
}

/// Without bullet lines, no entry is collected.
proof fn lemma_no_entries(lines: Seq<Seq<char>>, i: int)
    requires
        0 <= i <= lines.len(),
        forall|k: int| 0 <= k < lines.len() ==> !looks_like_bullet_spec(#[trigger] strip_newlines(lines[k])),
    ensures
        collect_entries_from(lines, i, Seq::empty(), None) == Seq::<EntrySpan>::empty(),
    decreases lines.len() - i,
{
    if i < lines.len() {
        lemma_no_entries(lines, i + 1);
    }
}

/// Law: a changelog without bullet lines comes out of `format_text`
/// unchanged, every line with its own terminator.
pub proof fn lemma_format_keeps_text_without_entries(text: Seq<char>)
    requires
        forall|k: int| 0 <= k < split_lines(text).len() ==> !looks_like_bullet_spec(#[trigger] strip_newlines(split_lines(text)[k])),
    ensures
        formatted_text(text) == text,
{
    let lines = split_lines(text);
    lemma_no_entries(lines, 0);
    let parts = split_at_newlines(text, 0);
    lemma_render_without_entries(parts, 0);
    assert(parts.skip(0) =~= parts);
    lemma_unsplit_split(text, 0);
    assert(text.skip(0) =~= text);
}

} // verus!

verus! {

/// Whether `s` ends with `t`.
pub open spec fn ends_with(s: Seq<char>, t: Seq<char>) -> bool {
    t.len() <= s.len() && s.skip(s.len() - t.len()) == t
}

/// The fill closes at least one more line while words or an open line
/// remain.
proof fn lemma_fill_len(
    ws: Seq<Seq<char>>,
    idx: int,
    lines: Seq<Seq<char>>,
    cur: Seq<Seq<char>>,
    cur_w: int,
    prefix_w: int,
    t_w: int,
)
    ensures
        fill(ws, idx, lines, cur, cur_w, prefix_w, t_w).len() >= lines.len(),
        (cur.len() > 0 || 0 <= idx < ws.len()) ==> fill(ws, idx, lines, cur, cur_w, prefix_w, t_w).len() > lines.len(),
    decreases ws.len() - idx,
{
    if idx < 0 || idx >= ws.len() {
    } else {
        let w = ws[idx];
        if cur.len() == 0 {
            lemma_fill_len(ws, idx + 1, lines, seq![w], w.len() as int, prefix_w, t_w);
        } else {
            let margin = if lines.len() == 0 {
                prefix_w
            } else {
                2
            };
            let reserved = if idx == ws.len() - 1 {
                t_w
            } else {
                0
            };
            if cur_w + 1 + w.len() + reserved <= WIDTH - margin {
                lemma_fill_len(ws, idx + 1, lines, cur.push(w), cur_w + 1 + w.len(), prefix_w, t_w);
            } else {
                lemma_fill_len(ws, idx + 1, lines.push(join_spaced(cur)), seq![w], w.len() as int, prefix_w, t_w);
            }
        }
    }
}

/// Law: a reflowed entry keeps all its commit links, in order, at the end
/// of its last line: the line ends with `— [h]`, or `— ([h1], [h2], ...)`
/// for several.
pub proof fn lemma_entry_ends_with_links(bullet: Seq<char>, conts: Seq<Seq<char>>)
    requires
        link_texts(true, entry_body(bullet, conts), 0).len() > 0,
    ensures
        entry_lines(bullet, conts).len() > 0,
        ends_with(
            entry_lines(bullet, conts).last(),
            build_tail_spec(link_texts(true, entry_body(bullet, conts), 0)).skip(1),
        ),
{
    let prefix = split_prefix_spec(bullet).0;
    let body = entry_body(bullet, conts);
    let hs = link_texts(true, body, 0);
    let tail = build_tail_spec(hs);
    let ws = words(strip_hash_links_spec(body));
    let out = entry_lines(bullet, conts);
    assert(tail.len() > 0 && tail[0] == ' ' && tail[1] == '\u{2014}');
    if ws.len() == 0 {
        let line = trim_end(prefix);
        if line.len() > 0 {
            assert(out == seq![line + tail]);
            assert(out.last() == line + tail);
            assert((line + tail).skip(line.len() + 1int) =~= tail.skip(1));
            assert(ends_with(out.last(), tail.skip(1)));
        } else {
            assert(out == seq![trim_start(tail)]);
            assert(skip_ws(tail, 1) == 1);
            assert(skip_ws(tail, 0) == 1);
            assert(trim_start(tail) =~= tail.skip(1));
            assert(out.last() == tail.skip(1));
            assert(tail.skip(1).skip(0) =~= tail.skip(1));
            assert(ends_with(out.last(), tail.skip(1)));
        }
    } else {
        let lines = fill(ws, 0, Seq::empty(), Seq::empty(), 0, entry_prefix_width(bullet), tail_disp_spec(tail));
        lemma_fill_len(ws, 0, Seq::empty(), Seq::empty(), 0, entry_prefix_width(bullet), tail_disp_spec(tail));
        let lines2 = lines.update(lines.len() - 1, lines.last() + tail);
        let n = lines2.len() as int;
        let head: Seq<char> = if n - 1 == 0 {
            prefix
        } else {
            seq![' ', ' ']
        };
        assert(out.last() == head + lines2[n - 1]);
        assert(lines2[n - 1] == lines.last() + tail);
        let l = out.last();
        assert(l =~= (head + lines.last() + seq![' ']) + tail.skip(1));
        assert(l.skip(l.len() - tail.skip(1).len()) =~= tail.skip(1));
        assert(ends_with(out.last(), tail.skip(1)));
    }
}

} // verus!

verus! {

/// `a` and `b` joined by a space, either left out when empty.
pub open spec fn spaced(a: Seq<char>, b: Seq<char>) -> Seq<char> {
    if a.len() == 0 {
        b
    } else if b.len() == 0 {
        a
    } else {
        a + seq![' '] + b
    }
}

/// Joining a word in front of others.
proof fn lemma_join_prepend(w: Seq<char>, rest: Seq<Seq<char>>)
    ensures
        join_spaced(seq![w] + rest) == if rest.len() == 0 {
            w
        } else {
            w + seq![' '] + join_spaced(rest)
        },
    decreases rest.len(),
{
    let s = seq![w] + rest;
    assert(join_spaced(seq![w]) == w) by {
        assert(seq![w].len() == 1);
        assert(seq![w][0] == w);
    }
    if rest.len() == 0 {
        assert(s =~= seq![w]);
    } else if rest.len() == 1 {
        assert(s.drop_last() =~= seq![w]);
        assert(s.last() == rest[0]);
        assert(join_spaced(rest) == rest[0]);
    } else {
        lemma_join_prepend(w, rest.drop_last());
        assert(s.drop_last() =~= seq![w] + rest.drop_last());
        assert(s.last() == rest.last());
        assert(join_spaced(s) =~= w + seq![' '] + join_spaced(rest));
    }
}

/// Joining one more part at the end.
proof fn lemma_join_append(ls: Seq<Seq<char>>, x: Seq<char>)
    ensures
        join_spaced(ls.push(x)) == if ls.len() == 0 {
            x
        } else {
            join_spaced(ls) + seq![' '] + x
        },
{
    assert(ls.push(x).drop_last() =~= ls);
    if ls.len() == 0 {
        assert(ls.push(x)[0] == x);
    }
}

/// Words that are not empty join to a text that is not empty.
proof fn lemma_join_nonempty(ws: Seq<Seq<char>>)
    requires
        ws.len() > 0,
        forall|i: int| 0 <= i < ws.len() ==> (#[trigger] ws[i]).len() > 0,
    ensures
        join_spaced(ws).len() > 0,
    decreases ws.len(),
{
    if ws.len() > 1 {
        lemma_join_nonempty(ws.drop_last());
    }
}

/// The text that the closed lines and the open line stand for.
pub open spec fn filled_so_far(lines: Seq<Seq<char>>, cur: Seq<Seq<char>>) -> Seq<char> {
    if cur.len() > 0 {
        join_spaced(lines.push(join_spaced(cur)))
    } else {
        join_spaced(lines)
    }
}

/// The fill keeps every word, in order: its lines joined by spaces give
/// what was filled so far followed by the words still to place.
proof fn lemma_fill_keeps_words(
    ws: Seq<Seq<char>>,
    idx: int,
    lines: Seq<Seq<char>>,
    cur: Seq<Seq<char>>,
    cur_w: int,
    prefix_w: int,
    t_w: int,
)
    requires
        0 <= idx <= ws.len(),
        forall|i: int| 0 <= i < ws.len() ==> (#[trigger] ws[i]).len() > 0,
        lines.len() > 0 ==> cur.len() > 0,
        cur.len() > 0 ==> join_spaced(cur).len() > 0,
    ensures
        join_spaced(fill(ws, idx, lines, cur, cur_w, prefix_w, t_w)) == spaced(
            filled_so_far(lines, cur),
            join_spaced(ws.skip(idx)),
        ),
    decreases ws.len() - idx,
{
    let a = filled_so_far(lines, cur);
    if idx >= ws.len() {
        assert(ws.skip(idx) =~= Seq::<Seq<char>>::empty());
    } else {
        let w = ws[idx];
        let rest = join_spaced(ws.skip(idx + 1));
        lemma_join_prepend(w, ws.skip(idx + 1));
        assert(ws.skip(idx) =~= seq![w] + ws.skip(idx + 1));
        if idx + 1 < ws.len() {
            lemma_join_nonempty(ws.skip(idx + 1));
        } else {
            assert(ws.skip(idx + 1) =~= Seq::<Seq<char>>::empty());
        }
        // `join_spaced(ws.skip(idx))` is `spaced(w, rest)`.
        assert(join_spaced(ws.skip(idx)) == spaced(w, rest));
        if cur.len() == 0 {
            assert(lines.len() == 0);
            assert(seq![w].len() == 1);
            lemma_fill_keeps_words(ws, idx + 1, lines, seq![w], w.len() as int, prefix_w, t_w);
            lemma_join_append(lines, w);
            assert(a == Seq::<char>::empty());
        } else {
            let margin = if lines.len() == 0 {
                prefix_w
            } else {
                2
            };
            let reserved = if idx == ws.len() - 1 {
                t_w
            } else {
                0
            };
            lemma_join_append(cur, w);
            lemma_join_append(lines, join_spaced(cur));
            if cur_w + 1 + w.len() + reserved <= WIDTH - margin {
                lemma_fill_keeps_words(ws, idx + 1, lines, cur.push(w), cur_w + 1 + w.len(), prefix_w, t_w);
                lemma_join_append(lines, join_spaced(cur.push(w)));
                assert(filled_so_far(lines, cur.push(w)) =~= a + seq![' '] + w);
            } else {
                let l2 = lines.push(join_spaced(cur));
                lemma_fill_keeps_words(ws, idx + 1, l2, seq![w], w.len() as int, prefix_w, t_w);
                lemma_join_append(l2, w);
                assert(filled_so_far(l2, seq![w]) =~= a + seq![' '] + w);
            }
            assert(a.len() > 0);
            assert(spaced(a + seq![' '] + w, rest) =~= spaced(a, spaced(w, rest)));
        }
    }
}

/// Law: reflowing a description loses, adds and reorders no word: its
/// lines joined by spaces are its words joined by spaces.
pub proof fn lemma_reflow_keeps_words(ws: Seq<Seq<char>>, prefix_w: int, t_w: int)
    requires
        forall|i: int| 0 <= i < ws.len() ==> (#[trigger] ws[i]).len() > 0,
    ensures
        join_spaced(fill(ws, 0, Seq::empty(), Seq::empty(), 0, prefix_w, t_w)) == join_spaced(ws),
{
    lemma_fill_keeps_words(ws, 0, Seq::empty(), Seq::empty(), 0, prefix_w, t_w);
    assert(ws.skip(0) =~= ws);
    assert(filled_so_far(Seq::empty(), Seq::empty()) == Seq::<char>::empty());
}

} // verus!

verus! {

/// The columns before line `i` of an entry: the prefix's before the first,
/// two before the others.
pub open spec fn line_margin(i: int, prefix_w: int) -> int {
    if i == 0 {
        prefix_w
    } else {
        2
    }
}

/// Line `i` of `ls` fits: when it holds two or more words, it ends within
/// the width after its margin, the last line leaving `t_w` columns free.
pub open spec fn line_fits(ls: Seq<Seq<char>>, i: int, prefix_w: int, t_w: int) -> bool {
    ls[i].contains(' ') ==> ls[i].len() + line_margin(i, prefix_w) + (if i == ls.len() - 1 {
        t_w
    } else {
        0
    }) <= WIDTH
}

/// One word joins to itself.
proof fn lemma_join_one(w: Seq<char>)
    ensures
        join_spaced(seq![w]) == w,
{
    assert(seq![w][0] == w);
}

/// The fill's lines fit, given that the lines closed so far and the open
/// line do.
proof fn lemma_fill_fits(
    ws: Seq<Seq<char>>,
    idx: int,
    lines: Seq<Seq<char>>,
    cur: Seq<Seq<char>>,
    cur_w: int,
    prefix_w: int,
    t_w: int,
)
    requires
        0 <= idx <= ws.len(),
        t_w >= 0,
        forall|i: int| 0 <= i < ws.len() ==> !(#[trigger] ws[i]).contains(' '),
        lines.len() > 0 ==> cur.len() > 0,
        cur.len() > 0 ==> cur_w == join_spaced(cur).len(),
        cur.len() == 1 ==> !cur[0].contains(' '),
        cur.len() >= 2 ==> cur_w + line_margin(lines.len() as int, prefix_w) <= WIDTH,
        (cur.len() >= 2 && idx == ws.len()) ==> cur_w + line_margin(lines.len() as int, prefix_w) + t_w <= WIDTH,
        forall|i: int| 0 <= i < lines.len() ==> (#[trigger] lines[i]).contains(' ') ==> lines[i].len()
            + line_margin(i, prefix_w) <= WIDTH,
    ensures
        forall|i: int|
            0 <= i < fill(ws, idx, lines, cur, cur_w, prefix_w, t_w).len() ==> #[trigger] line_fits(
                fill(ws, idx, lines, cur, cur_w, prefix_w, t_w),
                i,
                prefix_w,
                t_w,
            ),
    decreases ws.len() - idx,
{
    let out = fill(ws, idx, lines, cur, cur_w, prefix_w, t_w);
    if idx >= ws.len() {
        if cur.len() > 0 {
            assert(out == lines.push(join_spaced(cur)));
            if cur.len() == 1 {
                lemma_join_one(cur[0]);
                assert(cur =~= seq![cur[0]]);
            }
            assert forall|i: int| 0 <= i < out.len() implies #[trigger] line_fits(out, i, prefix_w, t_w) by {
                if i < lines.len() {
                    assert(out[i] == lines[i]);
                }
            }
        } else {
            assert(out == lines);
            assert(lines.len() == 0);
        }
    } else {
        let w = ws[idx];
        lemma_join_one(w);
        if cur.len() == 0 {
            lemma_fill_fits(ws, idx + 1, lines, seq![w], w.len() as int, prefix_w, t_w);
            assert(out == fill(ws, idx + 1, lines, seq![w], w.len() as int, prefix_w, t_w));
        } else {
            let margin = line_margin(lines.len() as int, prefix_w);
            let reserved = if idx == ws.len() - 1 {
                t_w
            } else {
                0
            };
            lemma_join_append(cur, w);
            if cur_w + 1 + w.len() + reserved <= WIDTH - margin {
                assert(join_spaced(cur.push(w)).len() == cur_w + 1 + w.len());
                lemma_fill_fits(ws, idx + 1, lines, cur.push(w), cur_w + 1 + w.len(), prefix_w, t_w);
                assert(out == fill(ws, idx + 1, lines, cur.push(w), cur_w + 1 + w.len(), prefix_w, t_w));
            } else {
                let l2 = lines.push(join_spaced(cur));
                assert forall|i: int| 0 <= i < l2.len() && (#[trigger] l2[i]).contains(' ') implies l2[i].len()
                    + line_margin(i, prefix_w) <= WIDTH by {
                    if i < lines.len() {
                        assert(l2[i] == lines[i]);
                    } else if cur.len() == 1 {
                        lemma_join_one(cur[0]);
                        assert(cur =~= seq![cur[0]]);
                    }
                }
                lemma_fill_fits(ws, idx + 1, l2, seq![w], w.len() as int, prefix_w, t_w);
                assert(out == fill(ws, idx + 1, l2, seq![w], w.len() as int, prefix_w, t_w));
            }
        }
    }
}

/// Law: the reflow fills to the width: every line of two or more words
/// ends within the width after its prefix or indent, and the last such line
/// leaves room for the commit links. (Words are measured by their length;
/// a single word longer than the width stays on a line of its own.)
pub proof fn lemma_reflow_fits_width(ws: Seq<Seq<char>>, prefix_w: int, t_w: int)
    requires
        t_w >= 0,
        forall|i: int| 0 <= i < ws.len() ==> !(#[trigger] ws[i]).contains(' '),
    ensures
        forall|i: int|
            0 <= i < fill(ws, 0, Seq::empty(), Seq::empty(), 0, prefix_w, t_w).len() ==> #[trigger] line_fits(
                fill(ws, 0, Seq::empty(), Seq::empty(), 0, prefix_w, t_w),
                i,
                prefix_w,
                t_w,
            ),
{
    lemma_fill_fits(ws, 0, Seq::empty(), Seq::empty(), 0, prefix_w, t_w);
}

/// The length of the first word of a line: the characters before its
/// first space.
pub open spec fn lead_len(s: Seq<char>) -> nat
    decreases s.len(),
{
    if s.len() == 0 || s[0] == ' ' {
        0
    } else {
        1 + lead_len(s.drop_first())
    }
}

/// The break after line `i` of `ls` is needed: the first word of the next
/// line, one space before it, would not fit at the end of line `i` (and
/// when that word is the entry's last, the commit links after it would
/// not).
pub open spec fn break_needed(ls: Seq<Seq<char>>, i: int, prefix_w: int, t_w: int) -> bool {
    ls[i].len() + line_margin(i, prefix_w) + 1 + lead_len(ls[i + 1]) + (if i + 1 == ls.len() - 1
        && !ls[i + 1].contains(' ') {
        t_w
    } else {
        0
    }) > WIDTH
}

/// A word without spaces, then nothing or a space: the first word is the
/// word.
proof fn lemma_lead_len(w: Seq<char>, t: Seq<char>)
    requires
        !w.contains(' '),
        t.len() == 0 || t[0] == ' ',
    ensures
        lead_len(w + t) == w.len(),
    decreases w.len(),
{
    if w.len() == 0 {
        assert(w + t =~= t);
    } else {
        assert(w[0] != ' ');
        assert((w + t).drop_first() =~= w.drop_first() + t);
        assert(!w.drop_first().contains(' ')) by {
            if w.drop_first().contains(' ') {
                let k = choose|k: int| 0 <= k < w.drop_first().len() && w.drop_first()[k] == ' ';
                assert(w[k + 1] == ' ');
            }
        }
        lemma_lead_len(w.drop_first(), t);
    }
}

/// The first word of words joined by spaces is the first of them.
proof fn lemma_lead_len_join(cur: Seq<Seq<char>>)
    requires
        cur.len() > 0,
        !cur[0].contains(' '),
    ensures
        lead_len(join_spaced(cur)) == cur[0].len(),
{
    lemma_join_prepend(cur[0], cur.drop_first());
    assert(seq![cur[0]] + cur.drop_first() =~= cur);
    if cur.len() == 1 {
        lemma_lead_len(cur[0], Seq::empty());
        assert(cur[0] + Seq::<char>::empty() =~= cur[0]);
    } else {
        let t = seq![' '] + join_spaced(cur.drop_first());
        assert(cur[0] + seq![' '] + join_spaced(cur.drop_first()) =~= cur[0] + t);
        lemma_lead_len(cur[0], t);
    }
}

/// Words joined by spaces hold a space exactly when there are two or more.
proof fn lemma_join_has_space(cur: Seq<Seq<char>>)
    requires
        cur.len() > 0,
        forall|i: int| 0 <= i < cur.len() ==> !(#[trigger] cur[i]).contains(' '),
    ensures
        join_spaced(cur).contains(' ') == (cur.len() >= 2),
{
    if cur.len() == 1 {
        assert(join_spaced(cur) == cur[0]);
    } else {
        let j = join_spaced(cur);
        let a = join_spaced(cur.drop_last());
        assert(j == a + seq![' '] + cur.last());
        assert(j[a.len() as int] == ' ');
    }
}

/// Every break of the fill is needed, given that the breaks between the
/// closed lines are, and that the last closed line could not take the
/// first word of the open line.
proof fn lemma_fill_breaks_needed(
    ws: Seq<Seq<char>>,
    idx: int,
    lines: Seq<Seq<char>>,
    cur: Seq<Seq<char>>,
    cur_w: int,
    prefix_w: int,
    t_w: int,
)
    requires
        0 <= idx <= ws.len(),
        forall|i: int| 0 <= i < ws.len() ==> !(#[trigger] ws[i]).contains(' '),
        cur.len() <= idx,
        cur == ws.subrange(idx - cur.len(), idx),
        lines.len() > 0 ==> cur.len() > 0,
        cur.len() > 0 ==> cur_w == join_spaced(cur).len(),
        forall|i: int|
            0 <= i < lines.len() - 1 ==> (#[trigger] lines[i]).len() + line_margin(i, prefix_w) + 1 + lead_len(
                lines[i + 1],
            ) > WIDTH,
        lines.len() > 0 ==> lines.last().len() + line_margin(lines.len() - 1, prefix_w) + 1 + cur[0].len() + (
        if idx - cur.len() == ws.len() - 1 {
            t_w
        } else {
            0
        }) > WIDTH,
    ensures
        forall|i: int|
            0 <= i < fill(ws, idx, lines, cur, cur_w, prefix_w, t_w).len() - 1 ==> #[trigger] break_needed(
                fill(ws, idx, lines, cur, cur_w, prefix_w, t_w),
                i,
                prefix_w,
                t_w,
            ),
    decreases ws.len() - idx,
{
    let out = fill(ws, idx, lines, cur, cur_w, prefix_w, t_w);
    if idx >= ws.len() {
        if cur.len() > 0 {
            assert(out == lines.push(join_spaced(cur)));
            assert forall|k: int| 0 <= k < cur.len() implies !(#[trigger] cur[k]).contains(' ') by {
                assert(cur[k] == ws[idx - cur.len() + k]);
            }
            lemma_lead_len_join(cur);
            lemma_join_has_space(cur);
            assert forall|i: int| 0 <= i < out.len() - 1 implies #[trigger] break_needed(out, i, prefix_w, t_w) by {
                assert(out[i] == lines[i]);
                if i < lines.len() - 1 {
                    assert(out[i + 1] == lines[i + 1]);
                } else {
                    assert(out[i + 1] == join_spaced(cur));
                }
            }
        } else {
            assert(out == lines);
        }
    } else {
        let w = ws[idx];
        if cur.len() == 0 {
            assert(seq![w] == ws.subrange(idx, idx + 1));
            lemma_fill_breaks_needed(ws, idx + 1, lines, seq![w], w.len() as int, prefix_w, t_w);
            assert(out == fill(ws, idx + 1, lines, seq![w], w.len() as int, prefix_w, t_w));
        } else {
            let margin = line_margin(lines.len() as int, prefix_w);
            let reserved = if idx == ws.len() - 1 {
                t_w
            } else {
                0
            };
            lemma_join_append(cur, w);
            assert(cur.push(w) == ws.subrange(idx + 1 - (cur.len() + 1), idx + 1));
            if cur_w + 1 + w.len() + reserved <= WIDTH - margin {
                assert(cur.push(w)[0] == cur[0]);
                lemma_fill_breaks_needed(ws, idx + 1, lines, cur.push(w), cur_w + 1 + w.len(), prefix_w, t_w);
                assert(out == fill(ws, idx + 1, lines, cur.push(w), cur_w + 1 + w.len(), prefix_w, t_w));
            } else {
                let l2 = lines.push(join_spaced(cur));
                assert(cur[0] == ws[idx - cur.len()]);
                lemma_lead_len_join(cur);
                assert(seq![w] == ws.subrange(idx, idx + 1));
                assert forall|i: int| 0 <= i < l2.len() - 1 implies (#[trigger] l2[i]).len() + line_margin(
                    i,
                    prefix_w,
                ) + 1 + lead_len(l2[i + 1]) > WIDTH by {
                    assert(l2[i] == lines[i]);
                    if i < lines.len() - 1 {
                        assert(l2[i + 1] == lines[i + 1]);
                    } else {
                        assert(l2[i + 1] == join_spaced(cur));
                    }
                }
                lemma_fill_breaks_needed(ws, idx + 1, l2, seq![w], w.len() as int, prefix_w, t_w);
                assert(out == fill(ws, idx + 1, l2, seq![w], w.len() as int, prefix_w, t_w));
            }
        }
    }
}

/// Law: the reflow breaks a line only where it must: the first word of
/// each line but the first would not fit, after a space, at the end of the
/// line before it (the entry's last word counting the commit links after
/// it), so no line can be merged up.
pub proof fn lemma_reflow_breaks_needed(ws: Seq<Seq<char>>, prefix_w: int, t_w: int)
    requires
        forall|i: int| 0 <= i < ws.len() ==> !(#[trigger] ws[i]).contains(' '),
    ensures
        forall|i: int|
            0 <= i < fill(ws, 0, Seq::empty(), Seq::empty(), 0, prefix_w, t_w).len() - 1 ==> #[trigger] break_needed(
                fill(ws, 0, Seq::empty(), Seq::empty(), 0, prefix_w, t_w),
                i,
                prefix_w,
                t_w,
            ),
{
    assert(Seq::<Seq<char>>::empty() == ws.subrange(0, 0));
    lemma_fill_breaks_needed(ws, 0, Seq::empty(), Seq::empty(), 0, prefix_w, t_w);
}

/// Law: a reflowed entry has at least one line.
pub proof fn lemma_entry_has_lines(bullet: Seq<char>, conts: Seq<Seq<char>>)
    ensures
        entry_lines(bullet, conts).len() >= 1,
{
    let prefix = split_prefix_spec(bullet).0;
    let body = entry_body(bullet, conts);
    let tail = build_tail_spec(link_texts(true, body, 0));
    let ws = words(strip_hash_links_spec(body));
    if ws.len() > 0 {
        lemma_fill_len(ws, 0, Seq::empty(), Seq::empty(), 0, entry_prefix_width(bullet), tail_disp_spec(tail));
    }
}

/// Whether `h` is one whole commit link.
pub open spec fn whole_link(h: Seq<char>) -> bool {
    hash_link_end(h, 0) == Some(h.len() as int)
}

/// Whether `g` holds no `[`, so no link starts in it.
pub open spec fn no_bracket(g: Seq<char>) -> bool {
    forall|i: int| 0 <= i < g.len() ==> g[i] != '['
}

/// Searching for `c` inside a copy of `t` that stands at `off` in `s` finds
/// the same place, as long as it is found within the copy.
proof fn lemma_find_char_shift(s: Seq<char>, t: Seq<char>, off: int, j: int, c: char)
    requires
        0 <= off,
        off + t.len() <= s.len(),
        s.subrange(off, off + t.len() as int) == t,
        0 <= j <= t.len(),
    ensures
        (find_char_from(t, j, c) < t.len() || find_char_from(s, off + j, c) < off + t.len()) ==> find_char_from(
            s,
            off + j,
            c,
        ) == off + find_char_from(t, j, c),
    decreases t.len() - j,
{
    lemma_find_char(s, off + j, c);
    lemma_find_char(t, j, c);
    if j < t.len() {
        assert(t[j] == s[off + j]);
        if t[j] != c {
            lemma_find_char_shift(s, t, off, j + 1, c);
        }
    }
}

/// The same for a run of hex digits.
proof fn lemma_hex_run_shift(s: Seq<char>, t: Seq<char>, off: int, j: int)
    requires
        0 <= off,
        off + t.len() <= s.len(),
        s.subrange(off, off + t.len() as int) == t,
        0 <= j <= t.len(),
    ensures
        (hex_run_end(t, j) < t.len() || hex_run_end(s, off + j) < off + t.len()) ==> hex_run_end(s, off + j) == off
            + hex_run_end(t, j),
    decreases t.len() - j,
{
    lemma_hex_run(s, off + j);
    lemma_hex_run(t, j);
    if j < t.len() {
        assert(t[j] == s[off + j]);
        if is_hex(t[j]) {
            lemma_hex_run_shift(s, t, off, j + 1);
        }
    }
}

/// A commit link found at `i` in `t`, ending within `t`, is found at
/// `off + i` in `s` where `t` stands at `off`.
proof fn lemma_hash_link_shift(s: Seq<char>, t: Seq<char>, off: int, i: int)
    requires
        0 <= off,
        off + t.len() <= s.len(),
        s.subrange(off, off + t.len() as int) == t,
        0 <= i < t.len(),
    ensures
        match hash_link_end(t, i) {
            Some(e) => e <= t.len() ==> hash_link_end(s, off + i) == Some(off + e),
            None => true,
        },
{
    assert(t[i] == s[off + i]);
    if t[i] == '[' {
        if i + 1 < t.len() {
            assert(t[i + 1] == s[off + i + 1]);
        }
        let jt = if i + 1 < t.len() && t[i + 1] == '`' {
            i + 2
        } else {
            i + 1
        };
        if jt <= t.len() {
            lemma_hex_run_shift(s, t, off, jt);
            lemma_hex_run(t, jt);
            let h = hex_run_end(t, jt);
            if h < t.len() {
                assert(t[h] == s[off + h]);
                let k = if t[h] == '`' {
                    h + 1
                } else {
                    h
                };
                if k + 1 < t.len() {
                    assert(t[k] == s[off + k]);
                    assert(t[k + 1] == s[off + k + 1]);
                    lemma_find_char_shift(s, t, off, k + 2, ')');
                } else if k < t.len() {
                    assert(t[k] == s[off + k]);
                    lemma_find_char(s, off + k + 2, ')');
                }
            }
            lemma_hex_run(s, off + jt);
            lemma_find_char(s, off + jt, ')');
        }
    }
}

/// Plain text before `pos + g.len()` holds no link start.
proof fn lemma_skip_plain(s: Seq<char>, pos: int, g: Seq<char>)
    requires
        0 <= pos,
        pos + g.len() <= s.len(),
        s.subrange(pos, pos + g.len() as int) == g,
        no_bracket(g),
    ensures
        first_link_from(true, s, pos) == first_link_from(true, s, pos + g.len()),
    decreases g.len(),
{
    if g.len() > 0 {
        assert(s[pos] == g[0]);
        assert(s.subrange(pos + 1, pos + 1 + g.drop_first().len()) =~= g.drop_first());
        lemma_skip_plain(s, pos + 1, g.drop_first());
    }
}

/// The links from `pos` on, when plain text and then a whole link stand
/// there: that link, then the links after it.
proof fn lemma_scan_one(s: Seq<char>, pos: int, g: Seq<char>, h: Seq<char>)
    requires
        0 <= pos,
        pos + g.len() + h.len() <= s.len(),
        s.subrange(pos, pos + g.len() as int) == g,
        s.subrange(pos + g.len(), pos + g.len() + h.len()) == h,
        no_bracket(g),
        whole_link(h),
    ensures
        link_texts(true, s, pos) == seq![h] + link_texts(true, s, pos + g.len() + h.len()),
{
    lemma_skip_plain(s, pos, g);
    let a = pos + g.len();
    assert(h.len() > 0);
    lemma_hash_link_shift(s, h, a, 0);
    assert(first_link_from(true, s, a) == Some((a, a + h.len())));
}

/// No links at all from `pos` on when only plain text follows.
proof fn lemma_scan_none(s: Seq<char>, pos: int)
    requires
        0 <= pos <= s.len(),
        no_bracket(s.skip(pos)),
    ensures
        link_texts(true, s, pos) == Seq::<Seq<char>>::empty(),
{
    assert(s.subrange(pos, pos + s.skip(pos).len()) =~= s.skip(pos));
    lemma_skip_plain(s, pos, s.skip(pos));
}

/// Where `a` and then `b` follow `pos` in `s`: `a` stands at `pos`, and `b`
/// is what follows it.
proof fn lemma_skip_split(s: Seq<char>, pos: int, a: Seq<char>, b: Seq<char>)
    requires
        0 <= pos <= s.len(),
        s.skip(pos) == a + b,
    ensures
        pos + a.len() <= s.len(),
        s.subrange(pos, pos + a.len()) == a,
        s.skip(pos + a.len()) == b,
{
    assert(s.skip(pos).len() == a.len() + b.len());
    assert forall|i: int| 0 <= i < a.len() implies s[pos + i] == a[i] by {
        assert(s.skip(pos)[i] == s[pos + i]);
        assert((a + b)[i] == a[i]);
    }
    assert forall|i: int| 0 <= i < b.len() implies s[pos + a.len() + i] == b[i] by {
        assert(s.skip(pos)[a.len() + i] == s[pos + a.len() + i]);
        assert((a + b)[a.len() + i] == b[i]);
    }
    assert(s.subrange(pos, pos + a.len()) =~= a);
    assert(s.skip(pos + a.len()) =~= b);
}

/// Links joined by `, ` start with the first, then `, ` and the others.
proof fn lemma_join_comma_front(hs: Seq<Seq<char>>)
    requires
        hs.len() >= 2,
    ensures
        join_comma(hs) == hs[0] + seq![',', ' '] + join_comma(hs.drop_first()),
    decreases hs.len(),
{
    if hs.len() == 2 {
        assert(hs.drop_last() =~= seq![hs[0]]);
        assert(hs.drop_first() =~= seq![hs[1]]);
        assert(join_comma(seq![hs[0]]) == hs[0]);
        assert(join_comma(seq![hs[1]]) == hs[1]);
        assert(join_comma(hs) =~= hs[0] + seq![',', ' '] + join_comma(hs.drop_first()));
    } else {
        lemma_join_comma_front(hs.drop_last());
        assert(hs.drop_last().drop_first() =~= hs.drop_first().drop_last());
        assert(hs.drop_first().last() == hs.last());
        assert(hs.drop_last()[0] == hs[0]);
        assert(join_comma(hs) =~= hs[0] + seq![',', ' '] + join_comma(hs.drop_first()));
    }
}

/// Scanning whole links joined by `, `, followed by plain text, finds those
/// links in order.
proof fn lemma_scan_joined(s: Seq<char>, pos: int, hs: Seq<Seq<char>>, r: Seq<char>)
    requires
        0 <= pos,
        hs.len() >= 1,
        forall|i: int| 0 <= i < hs.len() ==> whole_link(#[trigger] hs[i]),
        s.skip(pos) == join_comma(hs) + r,
        pos <= s.len(),
        no_bracket(r),
    ensures
        link_texts(true, s, pos) == hs,
    decreases hs.len(),
{
    let h = hs[0];
    let e: Seq<char> = Seq::empty();
    assert(whole_link(h));
    assert(s.subrange(pos, pos) =~= e);
    if hs.len() == 1 {
        assert(join_comma(hs) == h);
        lemma_skip_split(s, pos, h, r);
        lemma_scan_one(s, pos, e, h);
        lemma_scan_none(s, pos + h.len());
        assert(seq![h] + Seq::<Seq<char>>::empty() =~= hs);
    } else {
        lemma_join_comma_front(hs);
        let rest = hs.drop_first();
        let sep = seq![',', ' '];
        assert(s.skip(pos) =~= h + (sep + (join_comma(rest) + r)));
        lemma_skip_split(s, pos, h, sep + (join_comma(rest) + r));
        lemma_scan_one(s, pos, e, h);
        let p1 = pos + h.len();
        lemma_skip_split(s, p1, sep, join_comma(rest) + r);
        lemma_skip_plain(s, p1, sep);
        assert forall|i: int| 0 <= i < rest.len() implies whole_link(#[trigger] rest[i]) by {
            assert(rest[i] == hs[i + 1]);
        }
        lemma_scan_joined(s, p1 + 2, rest, r);
        assert(link_texts(true, s, p1) == link_texts(true, s, p1 + 2));
        assert(seq![h] + rest =~= hs);
    }
}

/// Law: the commit links found in the tail built from whole commit links
/// are those links, all of them, in order; so the tail of a reflowed entry
/// carries every commit link of the entry.
pub proof fn lemma_tail_links(hs: Seq<Seq<char>>)
    requires
        forall|i: int| 0 <= i < hs.len() ==> whole_link(#[trigger] hs[i]),
    ensures
        link_texts(true, build_tail_spec(hs), 0) == hs,
{
    let t = build_tail_spec(hs);
    if hs.len() == 0 {
        assert(t.len() == 0);
    } else if hs.len() == 1 {
        let h = hs[0];
        assert(whole_link(h));
        assert(t.subrange(0, 3) =~= em_dash());
        assert(t.subrange(3, (3 + h.len()) as int) =~= h);
        lemma_scan_one(t, 0, em_dash(), h);
        assert(t.skip((3 + h.len()) as int) =~= Seq::<char>::empty());
        lemma_scan_none(t, (3 + h.len()) as int);
        assert(seq![h] + Seq::<Seq<char>>::empty() =~= hs);
    } else {
        let pre = em_dash() + seq!['('];
        assert(t.subrange(0, 4) =~= pre);
        lemma_skip_plain(t, 0, pre);
        assert(t.skip(4) =~= join_comma(hs) + seq![')']);
        lemma_scan_joined(t, 4, hs, seq![')']);
        assert(link_texts(true, t, 0) == link_texts(true, t, 4));
    }
}

/// A commit link found in a text is, on its own, one whole commit link.
proof fn lemma_found_link_whole(s: Seq<char>, a: int, e: int)
    requires
        0 <= a,
        hash_link_end(s, a) == Some(e),
    ensures
        a < e <= s.len(),
        whole_link(s.subrange(a, e)),
{
    let t = s.subrange(a, e);
    let js = if a + 1 < s.len() && s[a + 1] == '`' {
        a + 2
    } else {
        a + 1
    };
    lemma_hex_run(s, js);
    let h = hex_run_end(s, js);
    let k = if h < s.len() && s[h] == '`' {
        h + 1
    } else {
        h
    };
    lemma_find_char(s, k + 2, ')');
    let p = find_char_from(s, k + 2, ')');
    assert(e == p + 1);
    assert(t.len() == e - a);
    assert(t[0] == s[a]);
    assert(t[1] == s[a + 1]);
    lemma_hex_run_shift(s, t, a, js - a);
    assert(hex_run_end(t, js - a) == h - a);
    assert(t[h - a] == s[h]);
    assert(t[k - a] == s[k]);
    assert(t[k - a + 1] == s[k + 1]);
    lemma_find_char_shift(s, t, a, k + 2 - a, ')');
    assert(find_char_from(t, k + 2 - a, ')') == p - a);
}

/// The links found from `pos` on are whole commit links.
proof fn lemma_found_links_whole(s: Seq<char>, pos: int)
    requires
        0 <= pos,
    ensures
        forall|i: int| 0 <= i < link_texts(true, s, pos).len() ==> whole_link(#[trigger] link_texts(true, s, pos)[i]),
    decreases s.len() - pos,
{
    if pos <= s.len() {
        lemma_first_link(true, s, pos);
        match first_link_from(true, s, pos) {
            Some((a, e)) => {
                lemma_found_link_whole(s, a, e);
                lemma_found_links_whole(s, e);
                let l = link_texts(true, s, pos);
                assert(l == seq![s.subrange(a, e)] + link_texts(true, s, e));
                assert forall|i: int| 0 <= i < l.len() implies whole_link(#[trigger] l[i]) by {
                    if i > 0 {
                        assert(l[i] == link_texts(true, s, e)[i - 1]);
                    }
                }
            },
            None => {},
        }
    }
}

/// Law: the tail of a reflowed entry carries every commit link of the
/// entry, in order: the commit links found in it are exactly those found in
/// the entry's text.
pub proof fn lemma_entry_tail_links(bullet: Seq<char>, conts: Seq<Seq<char>>)
    ensures
        link_texts(true, build_tail_spec(link_texts(true, entry_body(bullet, conts), 0)), 0) == link_texts(
            true,
            entry_body(bullet, conts),
            0,
        ),
{
    lemma_found_links_whole(entry_body(bullet, conts), 0);
    lemma_tail_links(link_texts(true, entry_body(bullet, conts), 0));
}

} // verus!
