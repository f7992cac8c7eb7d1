//! Character-sequence helpers shared by the library.
use vstd::prelude::*;

verus! {

/// The characters of `s`, in order.
pub fn chars_of(s: &str) -> (out: Vec<char>)
    ensures
        out@ == s@,
{
    let mut out: Vec<char> = Vec::new();
    for c in it: s.chars()
        invariant
            out@ == it.seq().take(it.index() as int),
            it.seq() == s@,
    {
        out.push(c);
    }
    out
}

/// Builds a `String` holding exactly the characters of `chars`.
#[verifier::external_body]
pub(crate) fn string_of(chars: &[char]) -> (s: String)
    ensures
        s@ == chars@,
{
    chars.iter().collect()
}

} // verus!

verus! {

/// The character of a decimal digit.
pub open spec fn digit_char(d: nat) -> char {
    ((48 + d) as u32) as char
}

/// The decimal representation of `n`, without leading zeros.
pub open spec fn decimal(n: nat) -> Seq<char>
    decreases n,
{
    if n < 10 {
        seq![digit_char(n)]
    } else {
        decimal(n / 10).push(digit_char(n % 10))
    }
}

/// Appends the decimal representation of `n` to `out`.
pub fn push_decimal(out: &mut Vec<char>, n: u64)
    ensures
        final(out)@ == old(out)@ + decimal(n as nat),
    decreases n,
{
    if n >= 10 {
        push_decimal(out, n / 10);
    }
    let d: u8 = (n % 10) as u8;
    let c: char = (48u8 + d) as char;
    assert(c == digit_char((n % 10) as nat));
    out.push(c);
    proof {
        if n >= 10 {
            assert(decimal(n as nat) == decimal((n / 10) as nat).push(digit_char((n % 10) as nat)));
        }
    }
    assert(out@ =~= old(out)@ + decimal(n as nat));
}

} // verus!

verus! {

/// What `str::to_lowercase` returns for a string: its Unicode lowercase.
pub uninterp spec fn lowercase(s: Seq<char>) -> Seq<char>;

/// Whether every character is ASCII.
pub open spec fn all_ascii(s: Seq<char>) -> bool {
    forall|i: int| 0 <= i < s.len() ==> (s[i] as u32) < 128
}

/// The ASCII lowercase of a character: `A`..`Z` become `a`..`z`, the rest
/// stay.
pub open spec fn ascii_lower(c: char) -> char {
    if 'A' <= c && c <= 'Z' {
        ((c as u32) + 32) as char
    } else {
        c
    }
}

/// The ASCII lowercase of a string, character by character.
pub open spec fn ascii_lowercase(s: Seq<char>) -> Seq<char> {
    s.map_values(|c: char| ascii_lower(c))
}

/// Calls `str::to_lowercase`. The claim is that the result is a function of
/// the argument and that an all-ASCII string is lowercased character by
/// character; the Unicode case tables beyond ASCII are not restated.
#[verifier::external_body]
pub(crate) fn to_lowercase(s: &str) -> (r: String)
    ensures
        r@ == lowercase(s@),
        all_ascii(s@) ==> r@ == ascii_lowercase(s@),
{
    s.to_lowercase()
}

/// Whether two character sequences are equal.
pub fn chars_eq(a: &[char], b: &[char]) -> (eq: bool)
    ensures
        eq == (a@ == b@),
{
    if a.len() != b.len() {
        return false;
    }
    let mut i: usize = 0;
    while i < a.len()
        invariant
            i <= a@.len(),
            a@.len() == b@.len(),
            forall|j: int| 0 <= j < i ==> a@[j] == b@[j],
        decreases a@.len() - i,
    {
        if a[i] != b[i] {
            return false;
        }
        i = i + 1;
    }
    assert(a@ =~= b@);
    true
}

/// Whether two strings are equal.
pub fn str_eq(a: &str, b: &str) -> (eq: bool)
    ensures
        eq == (a@ == b@),
{
    let x = chars_of(a);
    let y = chars_of(b);
    chars_eq(x.as_slice(), y.as_slice())
}

} // verus!

verus! {

/// Unicode white space (the `White_Space` property), as tested by
/// `char::is_whitespace` and matched by `\s`.
pub open spec fn is_ws(c: char) -> bool {
    let u = c as u32;
    (0x09 <= u && u <= 0x0d) || u == 0x20 || u == 0x85 || u == 0xa0 || u == 0x1680 || (0x2000 <= u
        && u <= 0x200a) || u == 0x2028 || u == 0x2029 || u == 0x202f || u == 0x205f || u == 0x3000
}

/// Whether `c` is white space.
pub fn char_is_ws(c: char) -> (b: bool)
    ensures
        b == is_ws(c),
{
    let u = c as u32;
    (0x09 <= u && u <= 0x0d) || u == 0x20 || u == 0x85 || u == 0xa0 || u == 0x1680 || (0x2000 <= u
        && u <= 0x200a) || u == 0x2028 || u == 0x2029 || u == 0x202f || u == 0x205f || u == 0x3000
}

/// The first index at or after `i` that does not hold white space.
pub open spec fn skip_ws(s: Seq<char>, i: int) -> int
    decreases s.len() - i,
{
    if 0 <= i < s.len() && is_ws(s[i]) {
        skip_ws(s, i + 1)
    } else {
        i
    }
}

/// The first index at or after `i` that holds white space, or the end.
pub open spec fn skip_word(s: Seq<char>, i: int) -> int
    decreases s.len() - i,
{
    if 0 <= i < s.len() && !is_ws(s[i]) {
        skip_word(s, i + 1)
    } else {
        i
    }
}

/// The start of the run of white space that ends at `j`.
pub open spec fn back_ws(s: Seq<char>, j: int) -> int
    decreases j,
{
    if 0 < j <= s.len() && is_ws(s[j - 1]) {
        back_ws(s, j - 1)
    } else {
        j
    }
}

/// `s` without leading white space.
pub open spec fn trim_start(s: Seq<char>) -> Seq<char> {
    s.subrange(skip_ws(s, 0), s.len() as int)
}

/// `s` without trailing white space.
pub open spec fn trim_end(s: Seq<char>) -> Seq<char> {
    s.subrange(0, back_ws(s, s.len() as int))
}

/// `s` without leading and trailing white space.
pub open spec fn trim(s: Seq<char>) -> Seq<char> {
    trim_end(trim_start(s))
}

/// The white-space separated words of `s` from index `i` on.
pub open spec fn words_from(s: Seq<char>, i: int) -> Seq<Seq<char>>
    decreases s.len() - i,
{
    let a = skip_ws(s, i);
    if a < i || a >= s.len() {
        Seq::empty()
    } else {
        let b = skip_word(s, a);
        if b <= a || b > s.len() {
            Seq::empty()
        } else {
            seq![s.subrange(a, b)] + words_from(s, b)
        }
    }
}

/// The white-space separated words of `s`.
pub open spec fn words(s: Seq<char>) -> Seq<Seq<char>> {
    words_from(s, 0)
}

/// Words joined by single spaces.
pub open spec fn join_spaced(w: Seq<Seq<char>>) -> Seq<char>
    decreases w.len(),
{
    if w.len() == 0 {
        Seq::empty()
    } else if w.len() == 1 {
        w[0]
    } else {
        join_spaced(w.drop_last()) + seq![' '] + w.last()
    }
}

/// Whether `s` begins with `p`.
pub open spec fn starts_with(s: Seq<char>, p: Seq<char>) -> bool {
    p.len() <= s.len() && s.subrange(0, p.len() as int) == p
}

pub proof fn lemma_skip_ws_bounds(s: Seq<char>, i: int)
    requires
        0 <= i <= s.len(),
    ensures
        i <= skip_ws(s, i) <= s.len(),
        skip_ws(s, i) < s.len() ==> !is_ws(s[skip_ws(s, i)]),
        forall|k: int| i <= k < skip_ws(s, i) ==> is_ws(#[trigger] s[k]),
    decreases s.len() - i,
{
    if i < s.len() && is_ws(s[i]) {
        lemma_skip_ws_bounds(s, i + 1);
    }
}

pub proof fn lemma_skip_word_bounds(s: Seq<char>, i: int)
    requires
        0 <= i <= s.len(),
    ensures
        i <= skip_word(s, i) <= s.len(),
        skip_word(s, i) < s.len() ==> is_ws(s[skip_word(s, i)]),
        forall|k: int| i <= k < skip_word(s, i) ==> !is_ws(#[trigger] s[k]),
    decreases s.len() - i,
{
    if i < s.len() && !is_ws(s[i]) {
        lemma_skip_word_bounds(s, i + 1);
    }
}

pub proof fn lemma_back_ws_bounds(s: Seq<char>, j: int)
    requires
        0 <= j <= s.len(),
    ensures
        0 <= back_ws(s, j) <= j,
        back_ws(s, j) > 0 ==> !is_ws(s[back_ws(s, j) - 1]),
        forall|k: int| back_ws(s, j) <= k < j ==> is_ws(#[trigger] s[k]),
    decreases j,
{
    if j > 0 && is_ws(s[j - 1]) {
        lemma_back_ws_bounds(s, j - 1);
    }
}

/// The index of the first non-white-space character at or after `i`.
pub fn skip_ws_exec(s: &[char], i: usize) -> (r: usize)
    requires
        i <= s@.len(),
    ensures
        r == skip_ws(s@, i as int),
        i <= r <= s@.len(),
{
    let mut k = i;
    while k < s.len() && char_is_ws(s[k])
        invariant
            i <= k <= s@.len(),
            skip_ws(s@, k as int) == skip_ws(s@, i as int),
        decreases s@.len() - k,
    {
        k = k + 1;
    }
    k
}

/// The index just past the word that starts at `i`.
pub fn skip_word_exec(s: &[char], i: usize) -> (r: usize)
    requires
        i <= s@.len(),
    ensures
        r == skip_word(s@, i as int),
        i <= r <= s@.len(),
{
    let mut k = i;
    while k < s.len() && !char_is_ws(s[k])
        invariant
            i <= k <= s@.len(),
            skip_word(s@, k as int) == skip_word(s@, i as int),
        decreases s@.len() - k,
    {
        k = k + 1;
    }
    k
}

/// The start of the run of white space that ends at `j`.
pub fn back_ws_exec(s: &[char], j: usize) -> (r: usize)
    requires
        j <= s@.len(),
    ensures
        r == back_ws(s@, j as int),
        r <= j,
{
    let mut k = j;
    while k > 0 && char_is_ws(s[k - 1])
        invariant
            k <= j,
            j <= s@.len(),
            back_ws(s@, k as int) == back_ws(s@, j as int),
        decreases k,
    {
        k = k - 1;
    }
    k
}

/// The characters `s[from..to]`.
pub fn slice_chars(s: &[char], from: usize, to: usize) -> (out: Vec<char>)
    requires
        from <= to <= s@.len(),
    ensures
        out@ == s@.subrange(from as int, to as int),
{
    let mut out: Vec<char> = Vec::new();
    let mut k = from;
    while k < to
        invariant
            from <= k <= to,
            to <= s@.len(),
            out@ == s@.subrange(from as int, k as int),
        decreases to - k,
    {
        out.push(s[k]);
        k = k + 1;
        assert(out@ =~= s@.subrange(from as int, k as int));
    }
    out
}

/// Appends `s[from..to]` to `out`.
pub fn append_range(out: &mut Vec<char>, s: &[char], from: usize, to: usize)
    requires
        from <= to <= s@.len(),
    ensures
        final(out)@ == old(out)@ + s@.subrange(from as int, to as int),
{
    let mut k = from;
    while k < to
        invariant
            from <= k <= to,
            to <= s@.len(),
            out@ == old(out)@ + s@.subrange(from as int, k as int),
        decreases to - k,
    {
        out.push(s[k]);
        k = k + 1;
        assert(out@ =~= old(out)@ + s@.subrange(from as int, k as int));
    }
}

/// Appends all of `s` to `out`.
pub fn append_all(out: &mut Vec<char>, s: &[char])
    ensures
        final(out)@ == old(out)@ + s@,
{
    append_range(out, s, 0, s.len());
    assert(s@.subrange(0, s@.len() as int) =~= s@);
}

/// `s` without leading and trailing white space.
pub fn trim_exec(s: &[char]) -> (out: Vec<char>)
    ensures
        out@ == trim(s@),
{
    let a = skip_ws_exec(s, 0);
    let t = slice_chars(s, a, s.len());
    let b = back_ws_exec(t.as_slice(), t.len());
    slice_chars(t.as_slice(), 0, b)
}

/// `s` without leading white space.
pub fn trim_start_exec(s: &[char]) -> (out: Vec<char>)
    ensures
        out@ == trim_start(s@),
{
    let a = skip_ws_exec(s, 0);
    slice_chars(s, a, s.len())
}

/// `s` without trailing white space.
pub fn trim_end_exec(s: &[char]) -> (out: Vec<char>)
    ensures
        out@ == trim_end(s@),
{
    let b = back_ws_exec(s, s.len());
    slice_chars(s, 0, b)
}

/// Whether `s` begins with `p`.
pub fn starts_with_exec(s: &[char], p: &[char]) -> (b: bool)
    ensures
        b == starts_with(s@, p@),
{
    if p.len() > s.len() {
        return false;
    }
    let mut i: usize = 0;
    while i < p.len()
        invariant
            i <= p@.len(),
            p@.len() <= s@.len(),
            forall|j: int| 0 <= j < i ==> s@[j] == p@[j],
        decreases p@.len() - i,
    {
        if s[i] != p[i] {
            assert(s@.subrange(0, p@.len() as int)[i as int] != p@[i as int]);
            return false;
        }
        i = i + 1;
    }
    assert(s@.subrange(0, p@.len() as int) =~= p@);
    true
}

/// The white-space separated words of `s`.
pub fn words_exec(s: &[char]) -> (out: Vec<Vec<char>>)
    ensures
        out@.len() == words(s@).len(),
        forall|i: int| 0 <= i < out@.len() ==> #[trigger] out@[i]@ == words(s@)[i],
{
    let mut out: Vec<Vec<char>> = Vec::new();
    let mut pos: usize = 0;
    while pos < s.len()
        invariant
            pos <= s@.len(),
            words(s@) == out@.map_values(|v: Vec<char>| v@) + words_from(s@, pos as int),
        decreases s@.len() - pos,
    {
        let a = skip_ws_exec(s, pos);
        if a >= s.len() {
            proof {
                lemma_skip_ws_bounds(s@, pos as int);
                assert(words_from(s@, pos as int) == Seq::<Seq<char>>::empty());
            }
            pos = s.len();
            assert(words_from(s@, pos as int) == Seq::<Seq<char>>::empty());
        } else {
        proof {
            lemma_skip_ws_bounds(s@, pos as int);
            lemma_skip_word_bounds(s@, a as int + 1);
        }
        let b = skip_word_exec(s, a);
        proof {
            lemma_skip_word_bounds(s@, a as int);
            assert(b > a);
            assert(words_from(s@, pos as int) == seq![s@.subrange(a as int, b as int)] + words_from(s@, b as int));
        }
        let w = slice_chars(s, a, b);
        let ghost before = out@.map_values(|v: Vec<char>| v@);
        out.push(w);
        assert(out@.map_values(|v: Vec<char>| v@) =~= before.push(w@));
        assert(before + words_from(s@, pos as int) =~= before.push(w@) + words_from(s@, b as int));
        pos = b;
        }
    }
    proof {
        if pos >= s@.len() {
            assert(words_from(s@, pos as int) == Seq::<Seq<char>>::empty());
        }
        let m = out@.map_values(|v: Vec<char>| v@);
        assert(m + Seq::<Seq<char>>::empty() =~= m);
        assert(words(s@) =~= m);
    }
    out
}

} // verus!

verus! {

/// Appends the characters of `s` to `out`.
pub fn push_str(out: &mut Vec<char>, s: &str)
    ensures
        final(out)@ == old(out)@ + s@,
{
    let cs = chars_of(s);
    append_all(out, cs.as_slice());
}

/// The first index at or after `i` at which `p` occurs in `s`.
pub open spec fn find_from(s: Seq<char>, p: Seq<char>, i: int) -> Option<int>
    decreases s.len() - i,
{
    if i < 0 || i + p.len() > s.len() {
        None
    } else if s.subrange(i, i + p.len()) =~= p {
        Some(i)
    } else {
        find_from(s, p, i + 1)
    }
}

/// Whether `p` occurs in `s`.
pub open spec fn contains(s: Seq<char>, p: Seq<char>) -> bool {
    find_from(s, p, 0) is Some
}

/// An occurrence of `p` at `k`, at or after `i`, is found, at `k` or before.
pub proof fn lemma_find_from_finds(s: Seq<char>, p: Seq<char>, i: int, k: int)
    requires
        0 <= i <= k,
        k + p.len() <= s.len(),
        s.subrange(k, k + p.len()) == p,
    ensures
        find_from(s, p, i) matches Some(j) && i <= j <= k,
    decreases k - i,
{
    if !(s.subrange(i, i + p.len()) =~= p) {
        lemma_find_from_finds(s, p, i + 1, k);
    }
}

/// What `find_from` finds is an occurrence, and none lies before it.
pub proof fn lemma_find_from_found(s: Seq<char>, p: Seq<char>, i: int)
    requires
        0 <= i,
    ensures
        find_from(s, p, i) matches Some(j) ==> i <= j && j + p.len() <= s.len() && s.subrange(j, j + p.len()) == p,
        find_from(s, p, i) matches Some(j) ==> forall|k: int| i <= k < j ==> !(#[trigger] s.subrange(k, k + p.len()) =~= p),
        find_from(s, p, i) is None ==> forall|k: int| i <= k && k + p.len() <= s.len() ==> !(#[trigger] s.subrange(k, k + p.len()) =~= p),
    decreases s.len() - i,
{
    if i + p.len() > s.len() {
    } else if s.subrange(i, i + p.len()) =~= p {
    } else {
        lemma_find_from_found(s, p, i + 1);
    }
}

/// An occurrence in a prefix is still found, at the same place, once more
/// characters follow.
pub proof fn lemma_find_from_append(s: Seq<char>, t: Seq<char>, p: Seq<char>, i: int)
    requires
        0 <= i,
        find_from(s, p, i) is Some,
    ensures
        find_from(s + t, p, i) == find_from(s, p, i),
    decreases s.len() - i,
{
    let st = s + t;
    if i + p.len() <= s.len() {
        assert(st.subrange(i, i + p.len()) =~= s.subrange(i, i + p.len()));
        if !(s.subrange(i, i + p.len()) =~= p) {
            lemma_find_from_append(s, t, p, i + 1);
        }
    }
}

/// Whether `p` occurs in `s` at `i`.
pub fn matches_at(s: &[char], p: &[char], i: usize) -> (b: bool)
    requires
        i + p@.len() <= s@.len(),
    ensures
        b == (s@.subrange(i as int, i + p@.len()) =~= p@),
{
    let n: usize = s.len();
    let mut k: usize = 0;
    while k < p.len()
        invariant
            n == s@.len(),
            k <= p@.len(),
            i + p@.len() <= s@.len(),
            forall|m: int| 0 <= m < k ==> s@[i + m] == p@[m],
        decreases p@.len() - k,
    {
        if s[i + k] != p[k] {
            assert(s@.subrange(i as int, i + p@.len())[k as int] != p@[k as int]);
            return false;
        }
        k = k + 1;
    }
    assert(s@.subrange(i as int, i + p@.len()) =~= p@);
    true
}

/// The first index at which `p` occurs in `s`.
pub fn find_seq(s: &[char], p: &[char]) -> (r: Option<usize>)
    ensures
        match r {
            Some(i) => find_from(s@, p@, 0) == Some(i as int),
            None => find_from(s@, p@, 0) is None,
        },
{
    if p.len() > s.len() {
        return None;
    }
    let last: usize = s.len() - p.len();
    let mut i: usize = 0;
    loop
        invariant
            last + p@.len() == s@.len(),
            i <= last,
            find_from(s@, p@, 0) == find_from(s@, p@, i as int),
        decreases last - i,
    {
        if matches_at(s, p, i) {
            return Some(i);
        }
        if i == last {
            assert(find_from(s@, p@, i + 1) is None);
            return None;
        }
        i = i + 1;
    }
}

/// Whether `p` occurs in `s`.
pub fn contains_seq(s: &[char], p: &[char]) -> (b: bool)
    ensures
        b == contains(s@, p@),
{
    find_seq(s, p).is_some()
}

/// The parts joined, with `sep` between neighbours.
pub open spec fn join_with(parts: Seq<Seq<char>>, sep: Seq<char>) -> Seq<char>
    decreases parts.len(),
{
    if parts.len() == 0 {
        Seq::empty()
    } else if parts.len() == 1 {
        parts[0]
    } else {
        join_with(parts.drop_last(), sep) + sep + parts.last()
    }
}

} // verus!
