//! Character-sequence helpers shared by the rendering and parsing modules:
//! building strings, decimal digits, Unicode white space, trimming,
//! token scanning, line splitting and unsigned integer parsing.

use vstd::prelude::*;

verus! {

// ---------------------------------------------------------------------------
// Building strings
// ---------------------------------------------------------------------------

/// Appends one character to a `String` (std `String::push`).
#[verifier::external_body]
pub(crate) fn push_char(s: &mut String, c: char)
    ensures
        final(s)@ == old(s)@.push(c),
{
    s.push(c)
}

/// Appends a string slice to a `String`.
pub(crate) fn push_str(s: &mut String, t: &str)
    ensures
        final(s)@ == old(s)@ + t@,
{
    s.append(t);
}

/// The characters of `s`, in order.
pub fn chars_of(s: &str) -> (v: Vec<char>)
    ensures
        v@ == s@,
{
    let mut v: Vec<char> = Vec::new();
    for c in it: s.chars()
        invariant
            v@ == it.seq().take(it.index() as int),
            it.seq() == s@,
    {
        v.push(c);
    }
    v
}

/// Appends the characters of `v` to `s`.
pub(crate) fn push_chars(s: &mut String, v: &[char])
    ensures
        final(s)@ == old(s)@ + v@,
{
    let mut i: usize = 0;
    while i < v.len()
        invariant
            i <= v.len(),
            s@ == old(s)@ + v@.take(i as int),
        decreases v.len() - i,
    {
        push_char(s, v[i]);
        assert(v@.take(i + 1) =~= v@.take(i as int).push(v@[i as int]));
        i += 1;
    }
    assert(v@.take(v.len() as int) =~= v@);
}

/// A `String` holding exactly the characters of `v`.
pub fn string_from_chars(v: &[char]) -> (s: String)
    ensures
        s@ == v@,
{
    let mut s = String::new();
    push_chars(&mut s, v);
    assert(s@ =~= v@);
    s
}

/// `n` copies of `c`.
pub open spec fn repeat_char(c: char, n: nat) -> Seq<char> {
    Seq::new(n, |_i: int| c)
}

/// Appends `n` copies of `c` to `s`.
pub(crate) fn push_repeat(s: &mut String, c: char, n: usize)
    ensures
        final(s)@ == old(s)@ + repeat_char(c, n as nat),
{
    let mut i: usize = 0;
    while i < n
        invariant
            i <= n,
            s@ == old(s)@ + repeat_char(c, i as nat),
        decreases n - i,
    {
        push_char(s, c);
        assert(repeat_char(c, (i + 1) as nat) =~= repeat_char(c, i as nat).push(c));
        i += 1;
    }
}

// ---------------------------------------------------------------------------
// Decimal digits
// ---------------------------------------------------------------------------

/// The ASCII digit for `d < 10`.
pub open spec fn digit_char(d: nat) -> char {
    ((48 + d) as u32) as char
}

/// Decimal representation of `n`, without leading zeros ("0" for zero).
pub open spec fn decimal(n: nat) -> Seq<char>
    decreases n,
{
    if n < 10 {
        seq![digit_char(n)]
    } else {
        decimal(n / 10).push(digit_char(n % 10))
    }
}

/// `s` left-padded with '0' to at least `width` characters (the `{:0w}` format).
pub open spec fn zero_pad(s: Seq<char>, width: nat) -> Seq<char> {
    if s.len() >= width {
        s
    } else {
        repeat_char('0', (width - s.len()) as nat) + s
    }
}

pub(crate) fn digit(d: u64) -> (c: char)
    requires
        d < 10,
    ensures
        c == digit_char(d as nat),
{
    let b: u8 = 48u8 + (d as u8);
    let c = b as char;
    assert(c == digit_char(d as nat)) by {
        assert((b as u32) == 48 + d);
    }
    c
}

pub proof fn lemma_decimal_len(n: nat)
    ensures
        decimal(n).len() >= 1,
        n < 10 <==> decimal(n).len() == 1,
        n < 100 ==> decimal(n).len() <= 2,
        n < 1000 ==> decimal(n).len() <= 3,
        n < 10000 ==> decimal(n).len() <= 4,
    decreases n,
{
    if n >= 10 {
        lemma_decimal_len(n / 10);
    }
}

/// Appends the decimal representation of `n`.
pub(crate) fn push_decimal(s: &mut String, n: u64)
    ensures
        final(s)@ == old(s)@ + decimal(n as nat),
    decreases n,
{
    if n >= 10 {
        push_decimal(s, n / 10);
    }
    push_char(s, digit(n % 10));
    assert(decimal(n as nat) == if n < 10 {
        seq![digit_char(n as nat)]
    } else {
        decimal((n / 10) as nat).push(digit_char((n % 10) as nat))
    });
}

/// Appends the decimal representation of `n`, zero-padded to `width` characters.
pub(crate) fn push_decimal_padded(s: &mut String, n: u64, width: usize)
    ensures
        final(s)@ == old(s)@ + zero_pad(decimal(n as nat), width as nat),
{
    let mut digits = String::new();
    push_decimal(&mut digits, n);
    let len = digits.as_str().unicode_len();
    if len < width {
        push_repeat(s, '0', width - len);
    }
    push_str(s, digits.as_str());
    assert(s@ =~= old(s)@ + zero_pad(decimal(n as nat), width as nat));
}


// ---------------------------------------------------------------------------
// White space, trimming and tokens
// ---------------------------------------------------------------------------

/// The Unicode `White_Space` property (what `char::is_whitespace` tests).
pub open spec fn is_white_space(c: char) -> bool {
    let u = c as u32;
    (0x09 <= u <= 0x0D) || u == 0x20 || u == 0x85 || u == 0xA0 || u == 0x1680 || (0x2000 <= u
        <= 0x200A) || u == 0x2028 || u == 0x2029 || u == 0x202F || u == 0x205F || u == 0x3000
}

pub fn white_space(c: char) -> (b: bool)
    ensures
        b == is_white_space(c),
{
    let u = c as u32;
    (0x09 <= u && u <= 0x0D) || u == 0x20 || u == 0x85 || u == 0xA0 || u == 0x1680 || (0x2000 <= u
        && u <= 0x200A) || u == 0x2028 || u == 0x2029 || u == 0x202F || u == 0x205F || u == 0x3000
}

/// First position at or after `i` that is not white space (or the end).
pub open spec fn skip_ws(s: Seq<char>, i: int) -> int
    decreases s.len() - i,
{
    if 0 <= i < s.len() && is_white_space(s[i]) {
        skip_ws(s, i + 1)
    } else {
        i
    }
}

/// First position at or after `i` that is white space (or the end).
pub open spec fn skip_non_ws(s: Seq<char>, i: int) -> int
    decreases s.len() - i,
{
    if 0 <= i < s.len() && !is_white_space(s[i]) {
        skip_non_ws(s, i + 1)
    } else {
        i
    }
}

/// Last position `k <= j` such that `s[k..j]` is all white space (scanning backwards).
pub open spec fn rskip_ws(s: Seq<char>, j: int) -> int
    decreases j,
{
    if 0 < j <= s.len() && is_white_space(s[j - 1]) {
        rskip_ws(s, j - 1)
    } else {
        j
    }
}

/// `s` without leading and trailing white space (`str::trim`).
pub open spec fn trim(s: Seq<char>) -> Seq<char> {
    let a = skip_ws(s, 0);
    let b = rskip_ws(s, s.len() as int);
    if a < b {
        s.subrange(a, b)
    } else {
        Seq::<char>::empty()
    }
}

/// The first white-space separated word of `s`, if any (`split_whitespace().next()`).
pub open spec fn first_word(s: Seq<char>) -> Option<Seq<char>> {
    let a = skip_ws(s, 0);
    if a < s.len() {
        Some(s.subrange(a, skip_non_ws(s, a)))
    } else {
        None
    }
}

pub proof fn lemma_skip_ws_bounds(s: Seq<char>, i: int)
    requires
        0 <= i <= s.len(),
    ensures
        i <= skip_ws(s, i) <= s.len(),
        skip_ws(s, i) < s.len() ==> !is_white_space(s[skip_ws(s, i)]),
        forall|k: int| i <= k < skip_ws(s, i) ==> is_white_space(#[trigger] s[k]),
    decreases s.len() - i,
{
    if i < s.len() && is_white_space(s[i]) {
        lemma_skip_ws_bounds(s, i + 1);
    }
}

pub proof fn lemma_skip_non_ws_bounds(s: Seq<char>, i: int)
    requires
        0 <= i <= s.len(),
    ensures
        i <= skip_non_ws(s, i) <= s.len(),
        forall|k: int| i <= k < skip_non_ws(s, i) ==> !is_white_space(#[trigger] s[k]),
    decreases s.len() - i,
{
    if i < s.len() && !is_white_space(s[i]) {
        lemma_skip_non_ws_bounds(s, i + 1);
    }
}

pub proof fn lemma_rskip_ws_bounds(s: Seq<char>, j: int)
    requires
        0 <= j <= s.len(),
    ensures
        0 <= rskip_ws(s, j) <= j,
        rskip_ws(s, j) > 0 ==> !is_white_space(s[rskip_ws(s, j) - 1]),
        forall|k: int| rskip_ws(s, j) <= k < j ==> is_white_space(#[trigger] s[k]),
    decreases j,
{
    if 0 < j && is_white_space(s[j - 1]) {
        lemma_rskip_ws_bounds(s, j - 1);
    }
}

fn skip_ws_exec(v: &[char], i: usize) -> (r: usize)
    requires
        i <= v@.len(),
    ensures
        r == skip_ws(v@, i as int),
        i <= r <= v@.len(),
{
    proof {
        lemma_skip_ws_bounds(v@, i as int);
    }
    let mut k = i;
    while k < v.len() && white_space(v[k])
        invariant
            i <= k <= v@.len(),
            skip_ws(v@, k as int) == skip_ws(v@, i as int),
        decreases v.len() - k,
    {
        k += 1;
    }
    k
}

fn skip_non_ws_exec(v: &[char], i: usize) -> (r: usize)
    requires
        i <= v@.len(),
    ensures
        r == skip_non_ws(v@, i as int),
        i <= r <= v@.len(),
{
    proof {
        lemma_skip_non_ws_bounds(v@, i as int);
    }
    let mut k = i;
    while k < v.len() && !white_space(v[k])
        invariant
            i <= k <= v@.len(),
            skip_non_ws(v@, k as int) == skip_non_ws(v@, i as int),
        decreases v.len() - k,
    {
        k += 1;
    }
    k
}

/// The characters `v[a..b]`.
pub(crate) fn slice_chars(v: &[char], a: usize, b: usize) -> (r: Vec<char>)
    requires
        a <= b <= v@.len(),
    ensures
        r@ == v@.subrange(a as int, b as int),
{
    let mut r: Vec<char> = Vec::new();
    let mut k = a;
    while k < b
        invariant
            a <= k <= b <= v@.len(),
            r@ == v@.subrange(a as int, k as int),
        decreases b - k,
    {
        r.push(v[k]);
        assert(v@.subrange(a as int, k + 1) =~= v@.subrange(a as int, k as int).push(v@[k as int]));
        k += 1;
    }
    r
}

/// `v` without leading and trailing white space.
pub fn trim_chars(v: &[char]) -> (r: Vec<char>)
    ensures
        r@ == trim(v@),
{
    let a = skip_ws_exec(v, 0);
    let mut b = v.len();
    proof {
        lemma_rskip_ws_bounds(v@, v@.len() as int);
    }
    while b > 0 && white_space(v[b - 1])
        invariant
            b <= v@.len(),
            rskip_ws(v@, b as int) == rskip_ws(v@, v@.len() as int),
        decreases b,
    {
        b -= 1;
    }
    if a < b {
        slice_chars(v, a, b)
    } else {
        Vec::new()
    }
}

/// The first white-space separated word of `v`, if any.
pub fn first_word_chars(v: &[char]) -> (r: Option<Vec<char>>)
    ensures
        r matches Some(w) ==> first_word(v@) == Some(w@),
        r is None ==> first_word(v@) is None,
{
    let a = skip_ws_exec(v, 0);
    if a < v.len() {
        let b = skip_non_ws_exec(v, a);
        Some(slice_chars(v, a, b))
    } else {
        None
    }
}

/// Position of the first `c` in `s` at or after `i`, or the end of `s`.
pub open spec fn find_char(s: Seq<char>, c: char, i: int) -> int
    decreases s.len() - i,
{
    if 0 <= i < s.len() && s[i] != c {
        find_char(s, c, i + 1)
    } else {
        i
    }
}

pub proof fn lemma_find_char_bounds(s: Seq<char>, c: char, i: int)
    requires
        0 <= i <= s.len(),
    ensures
        i <= find_char(s, c, i) <= s.len(),
        find_char(s, c, i) < s.len() ==> s[find_char(s, c, i)] == c,
        forall|k: int| i <= k < find_char(s, c, i) ==> #[trigger] s[k] != c,
    decreases s.len() - i,
{
    if i < s.len() && s[i] != c {
        lemma_find_char_bounds(s, c, i + 1);
    }
}

pub fn find_char_exec(v: &[char], c: char, i: usize) -> (r: usize)
    requires
        i <= v@.len(),
    ensures
        r == find_char(v@, c, i as int),
        i <= r <= v@.len(),
{
    proof {
        lemma_find_char_bounds(v@, c, i as int);
    }
    let mut k = i;
    while k < v.len() && v[k] != c
        invariant
            i <= k <= v@.len(),
            find_char(v@, c, k as int) == find_char(v@, c, i as int),
        decreases v.len() - k,
    {
        k += 1;
    }
    k
}

/// `s` split at the first `c` (`str::split_once`).
pub open spec fn split_once(s: Seq<char>, c: char) -> Option<(Seq<char>, Seq<char>)> {
    let k = find_char(s, c, 0);
    if k < s.len() {
        Some((s.take(k), s.skip(k + 1)))
    } else {
        None
    }
}

pub fn split_once_chars(v: &[char], c: char) -> (r: Option<(Vec<char>, Vec<char>)>)
    ensures
        r matches Some(p) ==> split_once(v@, c) == Some((p.0@, p.1@)),
        r is None ==> split_once(v@, c) is None,
{
    let k = find_char_exec(v, c, 0);
    if k < v.len() {
        let a = slice_chars(v, 0, k);
        let b = slice_chars(v, k + 1, v.len());
        assert(a@ =~= v@.take(k as int));
        assert(b@ =~= v@.skip(k + 1));
        Some((a, b))
    } else {
        None
    }
}

/// `pat` occurs in `s` starting at position `i`.
pub open spec fn occurs_at(s: Seq<char>, pat: Seq<char>, i: int) -> bool {
    0 <= i && i + pat.len() <= s.len() && s.subrange(i, i + pat.len()) == pat
}

/// `pat` occurs somewhere in `s` (`str::contains`).
pub open spec fn contains_seq(s: Seq<char>, pat: Seq<char>) -> bool {
    exists|i: int| occurs_at(s, pat, i)
}

/// Whether two character sequences are equal.
pub fn chars_eq(a: &[char], b: &[char]) -> (r: bool)
    ensures
        r == (a@ == b@),
{
    if a.len() != b.len() {
        return false;
    }
    let mut i: usize = 0;
    while i < a.len()
        invariant
            i <= a@.len(),
            a@.len() == b@.len(),
            forall|k: int| 0 <= k < i ==> a@[k] == b@[k],
        decreases a.len() - i,
    {
        if a[i] != b[i] {
            return false;
        }
        i += 1;
    }
    assert(a@ =~= b@);
    true
}

/// Whether `pat` occurs in `s`.
pub fn contains_chars(s: &[char], pat: &[char]) -> (r: bool)
    ensures
        r == contains_seq(s@, pat@),
{
    if pat.len() > s.len() {
        return false;
    }
    if pat.len() == 0 {
        assert(s@.subrange(0, 0) =~= pat@);
        assert(occurs_at(s@, pat@, 0));
        return true;
    }
    let plen = pat.len();
    let last = s.len() - plen;
    let mut i: usize = 0;
    while i <= last
        invariant
            1 <= pat@.len() <= s@.len(),
            plen == pat@.len(),
            last == s@.len() - pat@.len(),
            i <= last + 1,
            last + plen == s.len(),
            forall|k: int| 0 <= k < i ==> !occurs_at(s@, pat@, k),
        decreases last + 1 - i,
    {
        let end = i + plen;
        let window = slice_chars(s, i, end);
        if chars_eq(window.as_slice(), pat) {
            assert(occurs_at(s@, pat@, i as int));
            return true;
        }
        i += 1;
    }
    assert forall|k: int| !occurs_at(s@, pat@, k) by {
        if 0 <= k && k + pat@.len() <= s@.len() {
            assert(k < i);
        }
    }
    false
}

// ---------------------------------------------------------------------------
// Lines
// ---------------------------------------------------------------------------

/// `s` cut at every `sep` (the separators dropped; always at least one piece).
pub open spec fn split_on(s: Seq<char>, sep: char) -> Seq<Seq<char>>
    decreases s.len(),
{
    if s.len() == 0 {
        seq![Seq::<char>::empty()]
    } else {
        let prev = split_on(s.drop_last(), sep);
        if s.last() == sep {
            prev.push(Seq::<char>::empty())
        } else {
            prev.drop_last().push(prev.last().push(s.last()))
        }
    }
}

/// `s` cut at every '\n'.
pub open spec fn split_lines(s: Seq<char>) -> Seq<Seq<char>> {
    split_on(s, '\n')
}

pub proof fn lemma_split_on_nonempty(s: Seq<char>, sep: char)
    ensures
        split_on(s, sep).len() >= 1,
    decreases s.len(),
{
    if s.len() > 0 {
        lemma_split_on_nonempty(s.drop_last(), sep);
    }
}

pub proof fn lemma_split_lines_nonempty(s: Seq<char>)
    ensures
        split_lines(s).len() >= 1,
{
    lemma_split_on_nonempty(s, '\n');
}

/// The `sep`-separated pieces of `v`.
pub fn split_on_chars(v: &[char], sep: char) -> (r: Vec<Vec<char>>)
    ensures
        r@.len() == split_on(v@, sep).len(),
        forall|i: int| 0 <= i < r@.len() ==> (#[trigger] r@[i])@ == split_on(v@, sep)[i],
{
    let mut done: Vec<Vec<char>> = Vec::new();
    let mut cur: Vec<char> = Vec::new();
    let mut i: usize = 0;
    assert(v@.take(0) =~= Seq::<char>::empty());
    while i < v.len()
        invariant
            i <= v@.len(),
            done@.len() + 1 == split_on(v@.take(i as int), sep).len(),
            forall|k: int| 0 <= k < done@.len() ==> (#[trigger] done@[k])@ == split_on(
                v@.take(i as int),
                sep,
            )[k],
            cur@ == split_on(v@.take(i as int), sep).last(),
        decreases v.len() - i,
    {
        let c = v[i];
        proof {
            assert(v@.take(i + 1).drop_last() =~= v@.take(i as int));
            assert(v@.take(i + 1).last() == c);
            lemma_split_on_nonempty(v@.take(i as int), sep);
        }
        if c == sep {
            let line = cur;
            done.push(line);
            cur = Vec::new();
        } else {
            cur.push(c);
        }
        i += 1;
    }
    assert(v@.take(v.len() as int) =~= v@);
    done.push(cur);
    done
}

/// The '\n'-separated pieces of `v`.
pub fn lines_of(v: &[char]) -> (r: Vec<Vec<char>>)
    ensures
        r@.len() == split_lines(v@).len(),
        forall|i: int| 0 <= i < r@.len() ==> (#[trigger] r@[i])@ == split_lines(v@)[i],
{
    split_on_chars(v, '\n')
}

// ---------------------------------------------------------------------------
// Words
// ---------------------------------------------------------------------------

/// The white-space separated words of `s[i..]` (`split_whitespace`).
pub open spec fn words_from(s: Seq<char>, i: int) -> Seq<Seq<char>>
    decreases s.len() - i,
{
    if 0 <= i <= s.len() {
        let a = skip_ws(s, i);
        proof {
            lemma_skip_ws_bounds(s, i);
        }
        if a < s.len() {
            let b = skip_non_ws(s, a);
            proof {
                lemma_skip_non_ws_bounds(s, a + 1);
            }
            seq![s.subrange(a, b)] + words_from(s, b)
        } else {
            Seq::<Seq<char>>::empty()
        }
    } else {
        Seq::<Seq<char>>::empty()
    }
}

/// The white-space separated words of `s` (`str::split_whitespace`).
pub open spec fn words(s: Seq<char>) -> Seq<Seq<char>> {
    words_from(s, 0)
}

/// The `n`-th word of `v` (counting from 0), if it has that many.
pub fn nth_word(v: &[char], n: usize) -> (r: Option<Vec<char>>)
    ensures
        r matches Some(w) ==> n < words(v@).len() && w@ == words(v@)[n as int],
        r is None ==> n >= words(v@).len(),
{
    let mut i: usize = 0;
    let mut count: usize = 0;
    assert(words(v@).skip(0) =~= words(v@));
    loop
        invariant
            i <= v@.len(),
            count <= n,
            count <= words(v@).len(),
            words_from(v@, i as int) =~= words(v@).skip(count as int),
        decreases v@.len() - i,
    {
        let a = skip_ws_exec(v, i);
        if a >= v.len() {
            assert(words_from(v@, i as int).len() == 0);
            return None;
        }
        let b = skip_non_ws_exec(v, a);
        proof {
            lemma_skip_non_ws_bounds(v@, a as int);
            assert(words_from(v@, i as int) == seq![v@.subrange(a as int, b as int)] + words_from(
                v@,
                b as int,
            ));
            assert(words_from(v@, i as int)[0] == v@.subrange(a as int, b as int));
            assert(count < words(v@).len());
            assert(words(v@).skip(count as int)[0] == words(v@)[count as int]);
            assert(words(v@).skip(count + 1) =~= words(v@).skip(count as int).drop_first());
            assert(words_from(v@, i as int).drop_first() =~= words_from(v@, b as int));
        }
        if count == n {
            return Some(slice_chars(v, a, b));
        }
        count += 1;
        i = b;
    }
}

// ---------------------------------------------------------------------------
// Ordering and searching
// ---------------------------------------------------------------------------

/// Lexicographic order of character sequences by code point (the order of `str`'s `Ord`,
/// which compares UTF-8 bytes, agrees with it).
pub open spec fn lex_lt(a: Seq<char>, b: Seq<char>) -> bool
    decreases a.len(),
{
    if a.len() == 0 {
        b.len() > 0
    } else if b.len() == 0 {
        false
    } else if a[0] != b[0] {
        a[0] < b[0]
    } else {
        lex_lt(a.drop_first(), b.drop_first())
    }
}

/// `lex_lt` is transitive.
pub proof fn lemma_lex_lt_trans(a: Seq<char>, b: Seq<char>, c: Seq<char>)
    requires
        lex_lt(a, b),
        lex_lt(b, c),
    ensures
        lex_lt(a, c),
    decreases a.len(),
{
    if a.len() > 0 && a[0] == b[0] && b[0] == c[0] {
        lemma_lex_lt_trans(a.drop_first(), b.drop_first(), c.drop_first());
    }
}

/// `lex_lt` is a strict order: never both ways, and total on distinct sequences.
pub proof fn lemma_lex_lt_strict(a: Seq<char>, b: Seq<char>)
    ensures
        lex_lt(a, b) ==> !lex_lt(b, a),
        a != b ==> lex_lt(a, b) || lex_lt(b, a),
        !lex_lt(a, a),
    decreases a.len(),
{
    if a.len() > 0 && b.len() > 0 && a[0] == b[0] {
        lemma_lex_lt_strict(a.drop_first(), b.drop_first());
        if a != b {
            assert(a.drop_first() != b.drop_first()) by {
                if a.drop_first() == b.drop_first() {
                    assert forall|k: int| 0 <= k < a.len() implies a[k] == b[k] by {
                        if k > 0 {
                            assert(a[k] == a.drop_first()[k - 1]);
                            assert(b[k] == b.drop_first()[k - 1]);
                        }
                    }
                    assert(a =~= b);
                }
            }
        }
    }
    if a.len() > 0 {
        lemma_lex_lt_strict(a.drop_first(), a.drop_first());
    }
    if a.len() == 0 && b.len() == 0 {
        assert(a =~= b);
    }
    if a.len() > 0 && b.len() > 0 && a[0] != b[0] {
        assert(a[0] < b[0] || b[0] < a[0]);
    }
}

/// Whether `a` comes strictly before `b` in lexicographic order.
pub fn chars_lt(a: &[char], b: &[char]) -> (r: bool)
    ensures
        r == lex_lt(a@, b@),
{
    let mut i: usize = 0;
    assert(a@.skip(0) =~= a@);
    assert(b@.skip(0) =~= b@);
    while i < a.len() && i < b.len() && a[i] == b[i]
        invariant
            i <= a@.len(),
            i <= b@.len(),
            lex_lt(a@.skip(i as int), b@.skip(i as int)) == lex_lt(a@, b@),
        decreases a.len() - i,
    {
        assert(a@.skip(i as int).drop_first() =~= a@.skip(i + 1));
        assert(b@.skip(i as int).drop_first() =~= b@.skip(i + 1));
        i += 1;
    }
    if i == a.len() {
        i < b.len()
    } else if i == b.len() {
        false
    } else {
        a[i] < b[i]
    }
}

/// Index of the last `c` in `s`, or -1.
pub open spec fn last_index_of(s: Seq<char>, c: char) -> int
    decreases s.len(),
{
    if s.len() == 0 {
        -1
    } else if s.last() == c {
        s.len() - 1
    } else {
        last_index_of(s.drop_last(), c)
    }
}

pub proof fn lemma_last_index_of(s: Seq<char>, c: char)
    ensures
        -1 <= last_index_of(s, c) < s.len(),
        last_index_of(s, c) >= 0 ==> s[last_index_of(s, c)] == c,
        forall|k: int| last_index_of(s, c) < k < s.len() ==> #[trigger] s[k] != c,
    decreases s.len(),
{
    if s.len() > 0 && s.last() != c {
        lemma_last_index_of(s.drop_last(), c);
        assert forall|k: int| last_index_of(s, c) < k < s.len() implies #[trigger] s[k] != c by {
            if k < s.len() - 1 {
                assert(s[k] == s.drop_last()[k]);
            }
        }
    }
}

/// Index of the last `c` in `v` (`str::rfind`), if any.
pub fn rfind_char(v: &[char], c: char) -> (r: Option<usize>)
    ensures
        r matches Some(k) ==> k == last_index_of(v@, c),
        r is None ==> last_index_of(v@, c) == -1,
{
    let mut j = v.len();
    assert(v@.take(j as int) =~= v@);
    while j > 0
        invariant
            j <= v@.len(),
            last_index_of(v@.take(j as int), c) == last_index_of(v@, c),
        decreases j,
    {
        assert(v@.take(j as int).drop_last() =~= v@.take(j - 1));
        if v[j - 1] == c {
            return Some(j - 1);
        }
        j -= 1;
    }
    None
}

// ---------------------------------------------------------------------------
// Unsigned integers
// ---------------------------------------------------------------------------

pub open spec fn is_ascii_digit(c: char) -> bool {
    48 <= (c as u32) <= 57
}

pub open spec fn all_ascii_digits(s: Seq<char>) -> bool {
    forall|i: int| 0 <= i < s.len() ==> is_ascii_digit(#[trigger] s[i])
}

/// Value of a numeral of ASCII digits.
pub open spec fn numeral_value(s: Seq<char>) -> nat
    decreases s.len(),
{
    if s.len() == 0 {
        0
    } else {
        numeral_value(s.drop_last()) * 10 + ((s.last() as u32) - 48) as nat
    }
}

/// `str::parse::<u64>`: an optional '+' and one or more ASCII digits whose value fits in 64 bits.
pub open spec fn parse_u64_spec(s: Seq<char>) -> Option<u64> {
    let body = if s.len() > 0 && s[0] == '+' {
        s.skip(1)
    } else {
        s
    };
    if body.len() > 0 && all_ascii_digits(body) && numeral_value(body) <= u64::MAX {
        Some(numeral_value(body) as u64)
    } else {
        None
    }
}

proof fn lemma_numeral_monotone(s: Seq<char>, j: int, k: int)
    requires
        0 <= j <= k <= s.len(),
        all_ascii_digits(s),
    ensures
        numeral_value(s.take(j)) <= numeral_value(s.take(k)),
    decreases k - j,
{
    if j < k {
        lemma_numeral_monotone(s, j, k - 1);
        assert(s.take(k).drop_last() =~= s.take(k - 1));
    }
}

proof fn lemma_overflow_step(acc: u64, d: u64)
    requires
        d <= 9,
    ensures
        acc > (u64::MAX - d) / 10 ==> acc * 10 + d > u64::MAX,
        acc <= (u64::MAX - d) / 10 ==> acc * 10 + d <= u64::MAX,
{
    assert(acc > (u64::MAX - d) / 10 ==> acc * 10 + d > u64::MAX) by (nonlinear_arith)
        requires d <= 9;
    assert(acc <= (u64::MAX - d) / 10 ==> acc * 10 + d <= u64::MAX) by (nonlinear_arith)
        requires d <= 9;
}

/// Value of an all-digit numeral, or `None` when it does not fit in 64 bits.
fn numeral_checked(b: &[char]) -> (r: Option<u64>)
    requires
        all_ascii_digits(b@),
    ensures
        r matches Some(x) ==> x == numeral_value(b@),
        r is None <==> numeral_value(b@) > u64::MAX,
{
    let mut acc: u64 = 0;
    let mut i: usize = 0;
    assert(b@.take(0) =~= Seq::<char>::empty());
    while i < b.len()
        invariant
            i <= b@.len(),
            all_ascii_digits(b@),
            acc == numeral_value(b@.take(i as int)),
        decreases b.len() - i,
    {
        assert(is_ascii_digit(b@[i as int]));
        let d = (b[i] as u32 - 48) as u64;
        assert(b@.take(i + 1).drop_last() =~= b@.take(i as int));
        assert(b@.take(i + 1).last() == b@[i as int]);
        proof {
            lemma_overflow_step(acc, d);
        }
        if acc > (u64::MAX - d) / 10 {
            proof {
                lemma_numeral_monotone(b@, i + 1, b@.len() as int);
                assert(b@.take(b@.len() as int) =~= b@);
            }
            return None;
        }
        acc = acc * 10 + d;
        i += 1;
    }
    assert(b@.take(b@.len() as int) =~= b@);
    Some(acc)
}

fn all_digits_exec(b: &[char]) -> (r: bool)
    ensures
        r == all_ascii_digits(b@),
{
    let mut k: usize = 0;
    while k < b.len()
        invariant
            k <= b@.len(),
            forall|j: int| 0 <= j < k ==> is_ascii_digit(#[trigger] b@[j]),
        decreases b.len() - k,
    {
        let u = b[k] as u32;
        if u < 48 || u > 57 {
            assert(!is_ascii_digit(b@[k as int]));
            return false;
        }
        k += 1;
    }
    true
}

/// Parses an unsigned 64-bit decimal number the way `str::parse::<u64>` does.
pub fn parse_u64(v: &[char]) -> (r: Option<u64>)
    ensures
        r == parse_u64_spec(v@),
{
    let start: usize = if v.len() > 0 && v[0] == '+' {
        1
    } else {
        0
    };
    let body = slice_chars(v, start, v.len());
    assert(body@ =~= (if v@.len() > 0 && v@[0] == '+' {
        v@.skip(1)
    } else {
        v@
    }));
    if body.len() == 0 {
        return None;
    }
    if !all_digits_exec(body.as_slice()) {
        return None;
    }
    numeral_checked(body.as_slice())
}

} // verus!
