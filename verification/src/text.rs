//! Text primitives over sequences of characters, with the meaning that
//! Rust's `str` methods give them (`lines`, `split_whitespace`, `trim`,
//! `split_once`, ...), stated as spec functions and implemented by loops.
use vstd::prelude::*;

verus! {

/// Unicode `White_Space`, the class that `char::is_whitespace` tests.
pub open spec fn is_ws(c: char) -> bool {
    ||| c == '\t' || c == '\n' || c == '\u{0B}' || c == '\u{0C}' || c == '\r' || c == ' '
    ||| c == '\u{85}' || c == '\u{A0}' || c == '\u{1680}'
    ||| ('\u{2000}' as u32) <= (c as u32) && (c as u32) <= ('\u{200A}' as u32)
    ||| c == '\u{2028}' || c == '\u{2029}' || c == '\u{202F}' || c == '\u{205F}'
    ||| c == '\u{3000}'
}

pub fn is_whitespace(c: char) -> (b: bool)
    ensures
        b == is_ws(c),
{
    c == '\t' || c == '\n' || c == '\u{0B}' || c == '\u{0C}' || c == '\r' || c == ' '
        || c == '\u{85}' || c == '\u{A0}' || c == '\u{1680}'
        || (('\u{2000}' as u32) <= (c as u32) && (c as u32) <= ('\u{200A}' as u32))
        || c == '\u{2028}' || c == '\u{2029}' || c == '\u{202F}' || c == '\u{205F}'
        || c == '\u{3000}'
}

/// Index of the first `c` in `s` at or after `i`, or `s.len()` where there is none.
pub open spec fn next_char(s: Seq<char>, i: int, c: char) -> int
    decreases s.len() - i,
{
    if i < 0 || i >= s.len() {
        s.len() as int
    } else if s[i] == c {
        i
    } else {
        next_char(s, i + 1, c)
    }
}

/// A line without its `\r`, where the line ending was `\r\n`.
pub open spec fn strip_cr(line: Seq<char>) -> Seq<char> {
    if line.len() > 0 && line.last() == '\r' {
        line.drop_last()
    } else {
        line
    }
}

/// The lines of `s` from index `i` on, as `str::lines` yields them: split at
/// `\n`, a `\r` before the `\n` dropped, no empty line after a final `\n`.
pub open spec fn lines_from(s: Seq<char>, i: int) -> Seq<Seq<char>>
    decreases s.len() - i,
{
    if i < 0 || i >= s.len() {
        Seq::empty()
    } else {
        let j = next_char(s, i, '\n');
        proof {
            lemma_next_char_bounds(s, i, '\n');
        }
        if j >= s.len() {
            seq![s.subrange(i, s.len() as int)]
        } else {
            seq![strip_cr(s.subrange(i, j))] + lines_from(s, j + 1)
        }
    }
}

pub open spec fn lines(s: Seq<char>) -> Seq<Seq<char>> {
    lines_from(s, 0)
}

pub proof fn lemma_next_char_bounds(s: Seq<char>, i: int, c: char)
    requires
        0 <= i,
    ensures
        i <= next_char(s, i, c) <= s.len() || (i > s.len() && next_char(s, i, c) == s.len()),
        next_char(s, i, c) < s.len() ==> s[next_char(s, i, c)] == c,
    decreases s.len() - i,
{
    if i < s.len() && s[i] != c {
        lemma_next_char_bounds(s, i + 1, c);
    }
}

/// Position of the first `c` in `s[start..]`, or `s.len()`.
pub fn find_char_from(s: &Vec<char>, start: usize, c: char) -> (j: usize)
    requires
        start <= s@.len(),
    ensures
        j as int == next_char(s@, start as int, c),
        start <= j <= s@.len(),
        j < s@.len() ==> s@[j as int] == c,
{
    let mut j = start;
    while j < s.len() && s[j] != c
        invariant
            start <= j <= s@.len(),
            next_char(s@, start as int, c) == next_char(s@, j as int, c),
        decreases s@.len() - j,
    {
        j = j + 1;
    }
    j
}

pub fn copy_range(s: &Vec<char>, from: usize, to: usize) -> (r: Vec<char>)
    requires
        from <= to <= s@.len(),
    ensures
        r@ == s@.subrange(from as int, to as int),
{
    let mut r: Vec<char> = Vec::new();
    let mut k = from;
    while k < to
        invariant
            from <= k <= to <= s@.len(),
            r@ == s@.subrange(from as int, k as int),
        decreases to - k,
    {
        r.push(s[k]);
        k = k + 1;
    }
    r
}

/// `str::lines`.
pub fn split_lines(s: &Vec<char>) -> (r: Vec<Vec<char>>)
    ensures
        r@.map_values(|l: Vec<char>| l@) == lines(s@),
{
    let mut r: Vec<Vec<char>> = Vec::new();
    let mut i: usize = 0;
    while i < s.len()
        invariant
            i <= s@.len(),
            lines(s@) == r@.map_values(|l: Vec<char>| l@) + lines_from(s@, i as int),
        decreases s@.len() - i,
    {
        let j = find_char_from(s, i, '\n');
        let ghost before = r@.map_values(|l: Vec<char>| l@);
        if j == s.len() {
            let line = copy_range(s, i, j);
            r.push(line);
            assert(r@.map_values(|l: Vec<char>| l@) == before.push(s@.subrange(i as int, j as int)));
            assert(lines_from(s@, j as int) == Seq::<Seq<char>>::empty());
            i = j;
        } else {
            let mut line = copy_range(s, i, j);
            if line.len() > 0 && line[line.len() - 1] == '\r' {
                line.pop();
            }
            r.push(line);
            assert(r@.map_values(|l: Vec<char>| l@) == before.push(strip_cr(s@.subrange(i as int, j as int))));
            i = j + 1;
        }
    }
    r
}


/// First index at or after `i` that holds no whitespace, or `s.len()`.
pub open spec fn skip_ws(s: Seq<char>, i: int) -> int
    decreases s.len() - i,
{
    if i < 0 || i >= s.len() {
        s.len() as int
    } else if is_ws(s[i]) {
        skip_ws(s, i + 1)
    } else {
        i
    }
}

/// First index at or after `i` that holds whitespace, or `s.len()`.
pub open spec fn skip_word(s: Seq<char>, i: int) -> int
    decreases s.len() - i,
{
    if i < 0 || i >= s.len() {
        s.len() as int
    } else if !is_ws(s[i]) {
        skip_word(s, i + 1)
    } else {
        i
    }
}

pub proof fn lemma_skip_bounds(s: Seq<char>, i: int)
    requires
        0 <= i <= s.len(),
    ensures
        i <= skip_ws(s, i) <= s.len(),
        i <= skip_word(s, i) <= s.len(),
        skip_ws(s, i) < s.len() ==> !is_ws(s[skip_ws(s, i)]),
        i < s.len() && !is_ws(s[i]) ==> i < skip_word(s, i),
    decreases s.len() - i,
{
    if i < s.len() {
        lemma_skip_bounds(s, i + 1);
    }
}

/// The whitespace-separated words of `s` from index `i` on (`str::split_whitespace`).
pub open spec fn words_from(s: Seq<char>, i: int) -> Seq<Seq<char>>
    decreases s.len() - i,
{
    if i < 0 || i >= s.len() {
        Seq::empty()
    } else {
        let a = skip_ws(s, i);
        proof {
            lemma_skip_bounds(s, i);
        }
        if a >= s.len() {
            Seq::empty()
        } else {
            let b = skip_word(s, a);
            proof {
                lemma_skip_bounds(s, a);
            }
            seq![s.subrange(a, b)] + words_from(s, b)
        }
    }
}

pub open spec fn words(s: Seq<char>) -> Seq<Seq<char>> {
    words_from(s, 0)
}

/// End of `s[..j]` once trailing whitespace is dropped.
pub open spec fn trim_back(s: Seq<char>, j: int) -> int
    decreases j,
{
    if j > 0 && j <= s.len() && is_ws(s[j - 1]) {
        trim_back(s, j - 1)
    } else {
        j
    }
}

/// `str::trim`: `s` without leading and trailing whitespace.
pub open spec fn trim(s: Seq<char>) -> Seq<char> {
    let a = skip_ws(s, 0);
    let b = trim_back(s, s.len() as int);
    if a < b {
        s.subrange(a, b)
    } else {
        Seq::empty()
    }
}

pub fn trim_chars(s: &Vec<char>) -> (r: Vec<char>)
    ensures
        r@ == trim(s@),
{
    let mut a: usize = 0;
    while a < s.len() && is_whitespace(s[a])
        invariant
            a <= s@.len(),
            skip_ws(s@, 0) == skip_ws(s@, a as int),
        decreases s@.len() - a,
    {
        a = a + 1;
    }
    let mut b: usize = s.len();
    while b > 0 && is_whitespace(s[b - 1])
        invariant
            b <= s@.len(),
            trim_back(s@, s@.len() as int) == trim_back(s@, b as int),
        decreases b,
    {
        b = b - 1;
    }
    if a < b {
        copy_range(s, a, b)
    } else {
        Vec::new()
    }
}

/// `str::split_whitespace`.
pub fn split_words(s: &Vec<char>) -> (r: Vec<Vec<char>>)
    ensures
        r@.map_values(|w: Vec<char>| w@) == words(s@),
{
    let mut r: Vec<Vec<char>> = Vec::new();
    let mut i: usize = 0;
    while i < s.len()
        invariant
            i <= s@.len(),
            words(s@) == r@.map_values(|w: Vec<char>| w@) + words_from(s@, i as int),
        decreases s@.len() - i,
    {
        let ghost i0 = i as int;
        proof {
            lemma_skip_bounds(s@, i0);
        }
        let mut a = i;
        while a < s.len() && is_whitespace(s[a])
            invariant
                i0 <= a <= s@.len(),
                skip_ws(s@, i0) == skip_ws(s@, a as int),
            decreases s@.len() - a,
        {
            a = a + 1;
        }
        if a == s.len() {
            assert(words_from(s@, i0) == Seq::<Seq<char>>::empty());
            i = a;
        } else {
            proof {
                lemma_skip_bounds(s@, a as int);
            }
            let mut b = a;
            while b < s.len() && !is_whitespace(s[b])
                invariant
                    a <= b <= s@.len(),
                    skip_word(s@, a as int) == skip_word(s@, b as int),
                decreases s@.len() - b,
            {
                b = b + 1;
            }
            let ghost before = r@.map_values(|w: Vec<char>| w@);
            let w = copy_range(s, a, b);
            r.push(w);
            assert(r@.map_values(|w: Vec<char>| w@) == before.push(s@.subrange(a as int, b as int)));
            i = b;
        }
    }
    r
}

/// `str::split_once` with a character delimiter.
pub open spec fn split_once(s: Seq<char>, c: char) -> Option<(Seq<char>, Seq<char>)> {
    let j = next_char(s, 0, c);
    if j < s.len() {
        Some((s.subrange(0, j), s.subrange(j + 1, s.len() as int)))
    } else {
        None
    }
}

pub fn split_once_char(s: &Vec<char>, c: char) -> (r: Option<(Vec<char>, Vec<char>)>)
    ensures
        match r {
            Some((a, b)) => split_once(s@, c) == Some((a@, b@)),
            None => split_once(s@, c) is None,
        },
{
    let j = find_char_from(s, 0, c);
    if j < s.len() {
        Some((copy_range(s, 0, j), copy_range(s, j + 1, s.len())))
    } else {
        None
    }
}

pub open spec fn starts_with(s: Seq<char>, p: Seq<char>) -> bool {
    p.len() <= s.len() && s.subrange(0, p.len() as int) == p
}

pub open spec fn ends_with(s: Seq<char>, p: Seq<char>) -> bool {
    p.len() <= s.len() && s.subrange(s.len() - p.len(), s.len() as int) == p
}

/// Whether `p` occurs in `s` at offset `at`.
pub fn matches_at(s: &Vec<char>, at: usize, p: &Vec<char>) -> (b: bool)
    requires
        at <= s@.len(),
    ensures
        b == (at + p@.len() <= s@.len() && s@.subrange(at as int, at + p@.len()) == p@),
{
    if p.len() > s.len() - at {
        return false;
    }
    let mut k: usize = 0;
    while k < p.len()
        invariant
            at + p@.len() <= s@.len(),
            s@.len() == s.len(),
            k <= p@.len(),
            forall|m: int| 0 <= m < k ==> s@[at + m] == p@[m],
        decreases p@.len() - k,
    {
        if s[at + k] != p[k] {
            assert(s@.subrange(at as int, at + p@.len())[k as int] != p@[k as int]);
            return false;
        }
        k = k + 1;
    }
    assert(s@.subrange(at as int, at + p@.len()) =~= p@);
    true
}

pub fn has_prefix(s: &Vec<char>, p: &Vec<char>) -> (b: bool)
    ensures
        b == starts_with(s@, p@),
{
    matches_at(s, 0, p)
}

pub fn has_suffix(s: &Vec<char>, p: &Vec<char>) -> (b: bool)
    ensures
        b == ends_with(s@, p@),
{
    if p.len() > s.len() {
        false
    } else {
        matches_at(s, s.len() - p.len(), p)
    }
}

pub fn same_chars(s: &Vec<char>, p: &Vec<char>) -> (b: bool)
    ensures
        b == (s@ == p@),
{
    if s.len() != p.len() {
        return false;
    }
    let r = matches_at(s, 0, p);
    assert(s@ =~= s@.subrange(0, p@.len() as int));
    r
}


/// The characters of `s`, in order.
pub fn chars_of(s: &str) -> (r: Vec<char>)
    ensures
        r@ == s@,
{
    let mut r: Vec<char> = Vec::new();
    for c in it: s.chars()
        invariant
            r@ == it.seq().take(it.index() as int),
            it.seq() == s@,
    {
        r.push(c);
    }
    r
}

/// `String::from_iter` over characters: the string holding `v`'s characters.
#[verifier::external_body]
pub(crate) fn string_from_chars(v: &Vec<char>) -> (r: String)
    ensures
        r@ == v@,
{
    v.iter().collect()
}


/// `list` joined with `sep` between neighbours (`[T]::join`).
pub open spec fn join(list: Seq<Seq<char>>, sep: Seq<char>) -> Seq<char>
    decreases list.len(),
{
    if list.len() == 0 {
        Seq::empty()
    } else if list.len() == 1 {
        list[0]
    } else {
        join(list.drop_last(), sep) + sep + list.last()
    }
}

pub open spec fn views(v: Seq<Vec<char>>) -> Seq<Seq<char>> {
    v.map_values(|l: Vec<char>| l@)
}

/// `list[from..]` joined with `sep`.
pub fn join_from(list: &Vec<Vec<char>>, from: usize, sep: &Vec<char>) -> (r: Vec<char>)
    requires
        from <= list@.len(),
    ensures
        r@ == join(views(list@).subrange(from as int, list@.len() as int), sep@),
{
    let mut r: Vec<char> = Vec::new();
    let mut i = from;
    let ghost all = views(list@);
    while i < list.len()
        invariant
            from <= i <= list@.len(),
            all == views(list@),
            r@ == join(all.subrange(from as int, i as int), sep@),
        decreases list@.len() - i,
    {
        if i > from {
            let mut k: usize = 0;
            while k < sep.len()
                invariant
                    k <= sep@.len(),
                    r@ == join(all.subrange(from as int, i as int), sep@) + sep@.subrange(0, k as int),
                decreases sep@.len() - k,
            {
                r.push(sep[k]);
                k = k + 1;
            }
        }
        let line = &list[i];
        let mut k: usize = 0;
        let ghost base = r@;
        while k < line.len()
            invariant
                k <= line@.len(),
                r@ == base + line@.subrange(0, k as int),
            decreases line@.len() - k,
        {
            r.push(line[k]);
            k = k + 1;
        }
        proof {
            let next = all.subrange(from as int, i + 1);
            assert(next.drop_last() =~= all.subrange(from as int, i as int));
            assert(next.last() == line@);
            assert(line@.subrange(0, line@.len() as int) =~= line@);
            assert(sep@.subrange(0, sep@.len() as int) =~= sep@);
            if i == from {
                assert(next.len() == 1);
                assert(r@ =~= line@);
            } else {
                assert(r@ =~= join(all.subrange(from as int, i as int), sep@) + sep@ + line@);
            }
        }
        i = i + 1;
    }
    r
}

/// The code of `c` after ASCII lower-casing.
pub open spec fn lower_code(c: char) -> u32 {
    if 65 <= (c as u32) && (c as u32) <= 90 {
        (c as u32 + 32) as u32
    } else {
        c as u32
    }
}

/// `s` lower-cases, character by character in ASCII, to `name`.
///
/// For the header names the proxy drops (`host`, `connection`,
/// `transfer-encoding`, `authorization`) this is what `s.to_lowercase() == name`
/// computes: the only character outside ASCII whose lower case is ASCII text
/// is the Kelvin sign, which lower-cases to `k`, a letter none of them holds.
/// It is not so for a name that holds `k`.
pub open spec fn lowercases_to(s: Seq<char>, name: Seq<char>) -> bool {
    s.len() == name.len() && forall|i: int| 0 <= i < s.len() ==> lower_code(#[trigger] s[i]) == name[i] as u32
}

pub fn lowercase_equals(s: &Vec<char>, name: &Vec<char>) -> (b: bool)
    ensures
        b == lowercases_to(s@, name@),
{
    if s.len() != name.len() {
        return false;
    }
    let mut i: usize = 0;
    while i < s.len()
        invariant
            s@.len() == name@.len(),
            i <= s@.len(),
            forall|m: int| 0 <= m < i ==> lower_code(#[trigger] s@[m]) == name@[m] as u32,
        decreases s@.len() - i,
    {
        let c = s[i] as u32;
        let l = if 65 <= c && c <= 90 { c + 32 } else { c };
        if l != name[i] as u32 {
            return false;
        }
        i = i + 1;
    }
    true
}

pub open spec fn digit(d: nat) -> char {
    ((48 + d) as u8) as char
}

/// Decimal notation of `n`, as `Display` writes an unsigned integer.
pub open spec fn decimal(n: nat) -> Seq<char>
    decreases n,
{
    if n < 10 {
        seq![digit(n)]
    } else {
        decimal(n / 10).push(digit(n % 10))
    }
}

pub fn decimal_chars(n: u64) -> (r: Vec<char>)
    ensures
        r@ == decimal(n as nat),
    decreases n,
{
    let d = (48 + n % 10) as u8;
    if n < 10 {
        let mut r: Vec<char> = Vec::new();
        r.push(d as char);
        r
    } else {
        let mut r = decimal_chars(n / 10);
        r.push(d as char);
        r
    }
}

/// Index of the first occurrence of `p` in `s` at or after `i`, or -1.
pub open spec fn find_from(s: Seq<char>, p: Seq<char>, i: int) -> int
    decreases s.len() + 1 - i,
{
    if i < 0 || i + p.len() > s.len() {
        -1
    } else if s.subrange(i, i + p.len()) == p {
        i
    } else {
        find_from(s, p, i + 1)
    }
}

pub fn find_sub(s: &Vec<char>, p: &Vec<char>, from: usize) -> (r: Option<usize>)
    requires
        from <= s@.len(),
    ensures
        match r {
            Some(k) => find_from(s@, p@, from as int) == k as int && from <= k && k + p@.len() <= s@.len(),
            None => find_from(s@, p@, from as int) == -1,
        },
{
    let mut i = from;
    while i <= s.len()
        invariant
            from <= i,
            i <= s@.len() + 1,
            s@.len() == s.len(),
            find_from(s@, p@, from as int) == find_from(s@, p@, i as int),
        decreases s@.len() + 1 - i,
    {
        if matches_at(s, i, p) {
            return Some(i);
        }
        if p.len() > s.len() - i {
            return None;
        }
        if i == s.len() {
            assert(s@.subrange(i as int, i as int) =~= p@);
            return None;
        }
        i = i + 1;
    }
    None
}

/// The text of `line` between the first `marker` and the next one (or the end),
/// trimmed: `line.split(marker).nth(1).map(str::trim)`.
pub open spec fn after_marker(line: Seq<char>, marker: Seq<char>) -> Option<Seq<char>> {
    let k1 = find_from(line, marker, 0);
    if k1 < 0 {
        None
    } else {
        let st = k1 + marker.len();
        let k2 = find_from(line, marker, st);
        let end = if k2 < 0 { line.len() as int } else { k2 };
        Some(trim(line.subrange(st, end)))
    }
}

} // verus!
