//! Character-level reading of text: whitespace, trimming, searching and splitting.
//!
//! Every routine here works on a range `lo..hi` of a character vector, and states its result
//! over the subsequence of that range, so that callers can cut a long text into pieces without
//! copying it.

use vstd::prelude::*;

verus! {

/// The characters with the Unicode `White_Space` property, which is what `char::is_whitespace`
/// tests and what `str::trim` and `str::split_whitespace` cut on.
pub open spec fn is_white(c: char) -> bool {
    let u = c as u32;
    ||| 0x09 <= u && u <= 0x0d
    ||| u == 0x20
    ||| u == 0x85
    ||| u == 0xa0
    ||| u == 0x1680
    ||| 0x2000 <= u && u <= 0x200a
    ||| u == 0x2028
    ||| u == 0x2029
    ||| u == 0x202f
    ||| u == 0x205f
    ||| u == 0x3000
}

pub fn char_is_white(c: char) -> (b: bool)
    ensures
        b == is_white(c),
{
    let u = c as u32;
    (0x09 <= u && u <= 0x0d) || u == 0x20 || u == 0x85 || u == 0xa0 || u == 0x1680 || (0x2000
        <= u && u <= 0x200a) || u == 0x2028 || u == 0x2029 || u == 0x202f || u == 0x205f || u
        == 0x3000
}

/// The characters of a string, in order.
pub fn chars_of(s: &str) -> (v: Vec<char>)
    ensures
        v@ == s@,
{
    let mut v: Vec<char> = Vec::new();
    for c in it: s.chars()
        invariant
            v@ == it.seq().take(it.index()),
            it.seq() == s@,
    {
        v.push(c);
    }
    v
}

/// `s` with its leading whitespace removed.
pub open spec fn trim_start(s: Seq<char>) -> Seq<char>
    decreases s.len(),
{
    if s.len() > 0 && is_white(s[0]) {
        trim_start(s.drop_first())
    } else {
        s
    }
}

/// `s` with its trailing whitespace removed.
pub open spec fn trim_end(s: Seq<char>) -> Seq<char>
    decreases s.len(),
{
    if s.len() > 0 && is_white(s.last()) {
        trim_end(s.drop_last())
    } else {
        s
    }
}

/// `s` with whitespace removed at both ends, as `str::trim` gives it.
pub open spec fn trimmed(s: Seq<char>) -> Seq<char> {
    trim_end(trim_start(s))
}

/// The range of `c[lo..hi]` that is left once whitespace is cut from both ends.
pub fn trim_range(c: &Vec<char>, lo: usize, hi: usize) -> (r: (usize, usize))
    requires
        lo <= hi <= c@.len(),
    ensures
        lo <= r.0 <= r.1 <= hi,
        c@.subrange(r.0 as int, r.1 as int) == trimmed(c@.subrange(lo as int, hi as int)),
{
    let mut a = lo;
    while a < hi && char_is_white(c[a])
        invariant
            lo <= a <= hi <= c@.len(),
            trim_start(c@.subrange(lo as int, hi as int)) == trim_start(
                c@.subrange(a as int, hi as int),
            ),
        decreases hi - a,
    {
        assert(c@.subrange(a as int, hi as int).drop_first() =~= c@.subrange(
            a + 1,
            hi as int,
        ));
        a = a + 1;
    }
    let mut b = hi;
    while b > a && char_is_white(c[b - 1])
        invariant
            lo <= a <= b <= hi <= c@.len(),
            trim_end(c@.subrange(a as int, hi as int)) == trim_end(c@.subrange(a as int, b as int)),
        decreases b - a,
    {
        assert(c@.subrange(a as int, b as int).drop_last() =~= c@.subrange(
            a as int,
            b - 1,
        ));
        b = b - 1;
    }
    (a, b)
}

/// `i` is the first position of `s` that holds `ch`.
pub open spec fn first_at(s: Seq<char>, ch: char, i: int) -> bool {
    &&& 0 <= i < s.len()
    &&& s[i] == ch
    &&& forall|j: int| 0 <= j < i ==> s[j] != ch
}

/// The first position of `ch` in `s`, as `str::find` with a `char` pattern gives it.
pub open spec fn find_char(s: Seq<char>, ch: char) -> Option<int> {
    if exists|i: int| first_at(s, ch, i) {
        Some(choose|i: int| first_at(s, ch, i))
    } else {
        None
    }
}

pub proof fn lemma_find_char_at(s: Seq<char>, ch: char, i: int)
    requires
        first_at(s, ch, i),
    ensures
        find_char(s, ch) == Some(i),
{
    let k = choose|k: int| first_at(s, ch, k);
    assert(first_at(s, ch, k));
    if k < i {
        assert(s[k] != ch);
    } else if i < k {
        assert(s[i] != ch);
    }
}

pub proof fn lemma_find_char_none(s: Seq<char>, ch: char)
    requires
        forall|j: int| 0 <= j < s.len() ==> s[j] != ch,
    ensures
        find_char(s, ch) is None,
{
}

/// The first position of `ch` in `c[lo..hi]`, counted from the start of `c`.
pub fn find_in(c: &Vec<char>, lo: usize, hi: usize, ch: char) -> (r: Option<usize>)
    requires
        lo <= hi <= c@.len(),
    ensures
        match r {
            Some(p) => lo <= p < hi && find_char(c@.subrange(lo as int, hi as int), ch) == Some(
                p - lo,
            ),
            None => find_char(c@.subrange(lo as int, hi as int), ch) is None,
        },
{
    let mut i = lo;
    while i < hi
        invariant
            lo <= i <= hi <= c@.len(),
            forall|j: int| lo <= j < i ==> c@[j] != ch,
        decreases hi - i,
    {
        if c[i] == ch {
            proof {
                let s = c@.subrange(lo as int, hi as int);
                assert(first_at(s, ch, i - lo));
                lemma_find_char_at(s, ch, i - lo);
            }
            return Some(i);
        }
        i = i + 1;
    }
    proof {
        lemma_find_char_none(c@.subrange(lo as int, hi as int), ch);
    }
    None
}

/// The pieces of `s` between occurrences of `sep`, as `str::split` with a `char` pattern gives
/// them: one more piece than there are separators, empty pieces included.
pub open spec fn split_char(s: Seq<char>, sep: char) -> Seq<Seq<char>>
    decreases s.len(),
{
    match find_char(s, sep) {
        Some(i) => if 0 <= i < s.len() {
            seq![s.take(i)] + split_char(s.skip(i + 1), sep)
        } else {
            seq![s]
        },
        None => seq![s],
    }
}

/// The texts that a list of ranges of `c` covers.
pub open spec fn pieces(c: Seq<char>, ranges: Seq<(usize, usize)>) -> Seq<Seq<char>> {
    ranges.map_values(|r: (usize, usize)| c.subrange(r.0 as int, r.1 as int))
}

/// Every range lies inside `lo..hi`.
pub open spec fn ranges_within(ranges: Seq<(usize, usize)>, lo: int, hi: int) -> bool {
    forall|k: int| 0 <= k < ranges.len() ==> lo <= #[trigger] ranges[k].0 <= ranges[k].1 <= hi
}

/// The ranges of the pieces of `c[lo..hi]` between occurrences of `sep`.
pub fn split_in(c: &Vec<char>, lo: usize, hi: usize, sep: char) -> (r: Vec<(usize, usize)>)
    requires
        lo <= hi <= c@.len(),
    ensures
        ranges_within(r@, lo as int, hi as int),
        pieces(c@, r@) == split_char(c@.subrange(lo as int, hi as int), sep),
{
    let mut out: Vec<(usize, usize)> = Vec::new();
    let mut start = lo;
    let mut i = lo;
    while i < hi
        invariant
            lo <= start <= i <= hi <= c@.len(),
            forall|j: int| start <= j < i ==> c@[j] != sep,
            ranges_within(out@, lo as int, hi as int),
            pieces(c@, out@) + split_char(c@.subrange(start as int, hi as int), sep) == split_char(
                c@.subrange(lo as int, hi as int),
                sep,
            ),
        decreases hi - i,
    {
        if c[i] == sep {
            proof {
                let s = c@.subrange(start as int, hi as int);
                assert(first_at(s, sep, i - start));
                lemma_find_char_at(s, sep, i - start);
                assert(s.take(i - start) =~= c@.subrange(start as int, i as int));
                assert(s.skip(i - start + 1) =~= c@.subrange(i + 1, hi as int));
                assert(pieces(c@, out@.push((start, i))) =~= pieces(c@, out@).push(
                    c@.subrange(start as int, i as int),
                ));
                assert(pieces(c@, out@) + split_char(s, sep) =~= pieces(c@, out@.push((start, i)))
                    + split_char(c@.subrange(i + 1, hi as int), sep));
            }
            out.push((start, i));
            start = i + 1;
        }
        i = i + 1;
    }
    proof {
        let s = c@.subrange(start as int, hi as int);
        lemma_find_char_none(s, sep);
        assert(pieces(c@, out@.push((start, hi))) =~= pieces(c@, out@) + seq![s]);
    }
    out.push((start, hi));
    out
}


/// `i` is the first position of `s` that holds whitespace.
pub open spec fn first_white_at(s: Seq<char>, i: int) -> bool {
    &&& 0 <= i < s.len()
    &&& is_white(s[i])
    &&& forall|j: int| 0 <= j < i ==> !is_white(s[j])
}

/// The length of the run of non-whitespace characters that `s` starts with.
pub open spec fn token_len(s: Seq<char>) -> int {
    if exists|i: int| first_white_at(s, i) {
        choose|i: int| first_white_at(s, i)
    } else {
        s.len() as int
    }
}

pub proof fn lemma_token_len_at(s: Seq<char>, i: int)
    requires
        first_white_at(s, i),
    ensures
        token_len(s) == i,
{
    let k = choose|k: int| first_white_at(s, k);
    assert(first_white_at(s, k));
    if k < i {
        assert(!is_white(s[k]));
    } else if i < k {
        assert(!is_white(s[i]));
    }
}

/// The non-empty runs of non-whitespace characters of `s`, in order, as
/// `str::split_whitespace` gives them.
pub open spec fn words(s: Seq<char>) -> Seq<Seq<char>>
    decreases s.len(),
{
    if s.len() == 0 {
        seq![]
    } else if is_white(s[0]) {
        words(s.drop_first())
    } else {
        let k = token_len(s);
        if 0 < k <= s.len() {
            seq![s.take(k)] + words(s.skip(k))
        } else {
            seq![s]
        }
    }
}

/// The ranges of the whitespace-separated words of `c[lo..hi]`.
pub fn words_in(c: &Vec<char>, lo: usize, hi: usize) -> (r: Vec<(usize, usize)>)
    requires
        lo <= hi <= c@.len(),
    ensures
        ranges_within(r@, lo as int, hi as int),
        pieces(c@, r@) == words(c@.subrange(lo as int, hi as int)),
{
    let mut out: Vec<(usize, usize)> = Vec::new();
    let mut i = lo;
    while i < hi
        invariant
            lo <= i <= hi <= c@.len(),
            ranges_within(out@, lo as int, hi as int),
            pieces(c@, out@) + words(c@.subrange(i as int, hi as int)) == words(
                c@.subrange(lo as int, hi as int),
            ),
        decreases hi - i,
    {
        if char_is_white(c[i]) {
            assert(c@.subrange(i as int, hi as int).drop_first() =~= c@.subrange(
                i + 1,
                hi as int,
            ));
            i = i + 1;
        } else {
            let mut j = i + 1;
            while j < hi && !char_is_white(c[j])
                invariant
                    i < j <= hi <= c@.len(),
                    forall|m: int| i <= m < j ==> !is_white(c@[m]),
                decreases hi - j,
            {
                j = j + 1;
            }
            proof {
                let s = c@.subrange(i as int, hi as int);
                if j < hi {
                    assert(first_white_at(s, j - i));
                    lemma_token_len_at(s, j - i);
                } else {
                    assert(!exists|m: int| first_white_at(s, m));
                }
                assert(token_len(s) == j - i);
                assert(s.take(j - i) =~= c@.subrange(i as int, j as int));
                assert(s.skip(j - i) =~= c@.subrange(j as int, hi as int));
                assert(pieces(c@, out@.push((i, j))) =~= pieces(c@, out@).push(
                    c@.subrange(i as int, j as int),
                ));
                assert(pieces(c@, out@) + words(s) =~= pieces(c@, out@.push((i, j))) + words(
                    c@.subrange(j as int, hi as int),
                ));
            }
            out.push((i, j));
            i = j;
        }
    }
    out
}

/// A copy of the characters `c[lo..hi]`.
pub fn copy_range(c: &Vec<char>, lo: usize, hi: usize) -> (t: Vec<char>)
    requires
        lo <= hi <= c@.len(),
    ensures
        t@ == c@.subrange(lo as int, hi as int),
{
    let mut t: Vec<char> = Vec::new();
    let mut i = lo;
    while i < hi
        invariant
            lo <= i <= hi <= c@.len(),
            t@ == c@.subrange(lo as int, i as int),
        decreases hi - i,
    {
        t.push(c[i]);
        i = i + 1;
    }
    t
}

pub open spec fn is_digit(c: char) -> bool {
    '0' <= c && c <= '9'
}

/// The number of decimal digits in `s` from position `i` on, up to the first other character.
pub open spec fn digit_run(s: Seq<char>, i: int) -> int
    decreases s.len() - i,
{
    if 0 <= i < s.len() && is_digit(s[i]) {
        1 + digit_run(s, i + 1)
    } else {
        0
    }
}

/// `s[k..]` is empty, or is an exponent: `e` or `E`, an optional sign, and one or more digits.
pub open spec fn exponent_tail(s: Seq<char>, k: int) -> bool {
    ||| k == s.len()
    ||| {
        &&& 0 <= k < s.len()
        &&& (s[k] == 'e' || s[k] == 'E')
        &&& {
            let p = if k + 1 < s.len() && (s[k + 1] == '+' || s[k + 1] == '-') {
                k + 2
            } else {
                k + 1
            };
            digit_run(s, p) > 0 && p + digit_run(s, p) == s.len()
        }
    }
}

/// `s[i..]` is a decimal number: `Digit+`, `Digit+ '.' Digit*` or `Digit* '.' Digit+`,
/// followed by an optional exponent.
pub open spec fn number_from(s: Seq<char>, i: int) -> bool {
    let a = digit_run(s, i);
    let j = i + a;
    if 0 <= j < s.len() && s[j] == '.' {
        let b = digit_run(s, j + 1);
        a + b > 0 && exponent_tail(s, j + 1 + b)
    } else {
        a > 0 && exponent_tail(s, j)
    }
}

/// `c` is the character `w`, or the ASCII upper-case form of the lower-case letter `w`.
pub open spec fn same_letter(c: char, w: char) -> bool {
    ||| c == w
    ||| 'A' <= c && c <= 'Z' && (c as u32) + 32 == (w as u32)
}

/// `s` spells the lower-case word `w`, in any mix of ASCII cases.
pub open spec fn spells(s: Seq<char>, w: Seq<char>) -> bool {
    &&& s.len() == w.len()
    &&& forall|k: int| 0 <= k < s.len() ==> same_letter(#[trigger] s[k], w[k])
}

/// `s` is a text that `str::parse::<f64>` accepts. Its documentation gives the grammar,
/// matched after ASCII lower-casing:
/// `Sign? ( 'inf' | 'infinity' | 'nan' | Number )`, `Number ::= ( Digit+ | Digit+ '.' Digit* |
/// Digit* '.' Digit+ ) Exp?`, `Exp ::= 'e' Sign? Digit+`, `Sign ::= [+-]`, `Digit ::= [0-9]`.
pub open spec fn is_float_text(s: Seq<char>) -> bool {
    let i: int = if s.len() > 0 && (s[0] == '+' || s[0] == '-') {
        1
    } else {
        0
    };
    let b = s.skip(i);
    ||| spells(b, seq!['i', 'n', 'f'])
    ||| spells(b, seq!['i', 'n', 'f', 'i', 'n', 'i', 't', 'y'])
    ||| spells(b, seq!['n', 'a', 'n'])
    ||| number_from(s, i)
}

fn is_digit_char(c: char) -> (b: bool)
    ensures
        b == is_digit(c),
{
    '0' <= c && c <= '9'
}

/// The end of the run of digits of `t` that starts at `i`.
fn digits_end(t: &Vec<char>, i: usize) -> (j: usize)
    requires
        i <= t@.len(),
    ensures
        j == i + digit_run(t@, i as int),
        i <= j <= t@.len(),
{
    let mut j = i;
    while j < t.len() && is_digit_char(t[j])
        invariant
            i <= j <= t@.len(),
            digit_run(t@, i as int) == (j - i) + digit_run(t@, j as int),
        decreases t@.len() - j,
    {
        j = j + 1;
    }
    j
}

fn same_letter_char(c: char, w: char) -> (b: bool)
    ensures
        b == same_letter(c, w),
{
    c == w || ('A' <= c && c <= 'Z' && (c as u32) + 32 == (w as u32))
}

/// Whether `t[i..]` spells `w` in any mix of ASCII cases.
fn spells_from(t: &Vec<char>, i: usize, w: &Vec<char>) -> (b: bool)
    requires
        i <= t@.len(),
    ensures
        b == spells(t@.skip(i as int), w@),
{
    let n = t.len();
    if n - i != w.len() {
        return false;
    }
    let mut k: usize = 0;
    while k < w.len()
        invariant
            n == t@.len(),
            i <= t@.len(),
            t@.len() - i == w@.len(),
            k <= w@.len(),
            forall|m: int| 0 <= m < k ==> same_letter(#[trigger] t@.skip(i as int)[m], w@[m]),
        decreases w@.len() - k,
    {
        assert(i + k < n);
        if !same_letter_char(t[i + k], w[k]) {
            assert(t@.skip(i as int)[k as int] == t@[i + k]);
            return false;
        }
        assert(t@.skip(i as int)[k as int] == t@[i + k]);
        k = k + 1;
    }
    true
}

/// Whether `t` is a text that `str::parse::<f64>` accepts.
pub fn float_text(t: &Vec<char>) -> (b: bool)
    ensures
        b == is_float_text(t@),
{
    let n = t.len();
    let i: usize = if n > 0 && (t[0] == '+' || t[0] == '-') {
        1
    } else {
        0
    };
    let inf = vec!['i', 'n', 'f'];
    let infinity = vec!['i', 'n', 'f', 'i', 'n', 'i', 't', 'y'];
    let nan = vec!['n', 'a', 'n'];
    assert(inf@ =~= seq!['i', 'n', 'f']);
    assert(infinity@ =~= seq!['i', 'n', 'f', 'i', 'n', 'i', 't', 'y']);
    assert(nan@ =~= seq!['n', 'a', 'n']);
    if spells_from(t, i, &inf) || spells_from(t, i, &infinity) || spells_from(t, i, &nan) {
        return true;
    }
    let j = digits_end(t, i);
    let a = j - i;
    let k: usize;
    let has_digits: bool;
    if j < n && t[j] == '.' {
        let e = digits_end(t, j + 1);
        has_digits = a + (e - (j + 1)) > 0;
        k = e;
    } else {
        has_digits = a > 0;
        k = j;
    }
    if !has_digits {
        return false;
    }
    if k == n {
        return true;
    }
    if !(t[k] == 'e' || t[k] == 'E') {
        return false;
    }
    let p: usize = if k + 1 < n && (t[k + 1] == '+' || t[k + 1] == '-') {
        k + 2
    } else {
        k + 1
    };
    let q = digits_end(t, p);
    q > p && q == n
}

/// The number of bytes that UTF-8 takes for a character.
pub open spec fn utf8_width(c: char) -> int {
    let u = c as u32;
    if u < 0x80 {
        1
    } else if u < 0x800 {
        2
    } else if u < 0x10000 {
        3
    } else {
        4
    }
}

/// An optional position moved by `d`.
pub open spec fn shift(o: Option<int>, d: int) -> Option<int> {
    match o {
        Some(i) => Some(i + d),
        None => None,
    }
}

/// The number of characters of `s` whose UTF-8 encoding takes exactly `b` bytes, if byte `b`
/// of `s` is a character boundary within it; `None` where `b` falls inside a character or past
/// the end.
pub open spec fn char_index_at_byte(s: Seq<char>, b: int) -> Option<int>
    decreases s.len(),
{
    if b == 0 {
        Some(0)
    } else if b < 0 || s.len() == 0 {
        None
    } else {
        shift(char_index_at_byte(s.drop_first(), b - utf8_width(s[0])), 1)
    }
}

fn char_width(c: char) -> (w: usize)
    ensures
        w == utf8_width(c),
{
    let u = c as u32;
    if u < 0x80 {
        1
    } else if u < 0x800 {
        2
    } else if u < 0x10000 {
        3
    } else {
        4
    }
}

/// The character index at which byte `b` of the UTF-8 encoding of `t` starts a character.
pub fn char_index_at(t: &Vec<char>, b: usize) -> (r: Option<usize>)
    ensures
        match r {
            Some(k) => char_index_at_byte(t@, b as int) == Some(k as int) && k <= t@.len(),
            None => char_index_at_byte(t@, b as int) is None,
        },
{
    let mut k: usize = 0;
    let mut rem: usize = b;
    assert(t@.skip(0) =~= t@);
    while rem > 0 && k < t.len()
        invariant
            k <= t@.len(),
            rem <= b,
            char_index_at_byte(t@, b as int) == shift(
                char_index_at_byte(t@.skip(k as int), rem as int),
                k as int,
            ),
        decreases t@.len() - k,
    {
        let w = char_width(t[k]);
        assert(t@.skip(k as int).drop_first() =~= t@.skip(k + 1));
        assert(t@.skip(k as int)[0] == t@[k as int]);
        if w > rem {
            assert(char_index_at_byte(t@.skip(k + 1), rem - w) is None);
            return None;
        }
        rem = rem - w;
        k = k + 1;
    }
    if rem == 0 {
        Some(k)
    } else {
        None
    }
}

pub proof fn lemma_char_index_range(s: Seq<char>, b: int)
    requires
        char_index_at_byte(s, b) is Some,
    ensures
        0 <= char_index_at_byte(s, b)->0 <= s.len(),
    decreases s.len(),
{
    if b != 0 {
        lemma_char_index_range(s.drop_first(), b - utf8_width(s[0]));
    }
}

/// A later byte boundary is at a later character.
pub proof fn lemma_char_index_monotone(s: Seq<char>, b1: int, b2: int)
    requires
        0 <= b1 <= b2,
        char_index_at_byte(s, b1) is Some,
        char_index_at_byte(s, b2) is Some,
    ensures
        0 <= char_index_at_byte(s, b1)->0 <= char_index_at_byte(s, b2)->0 <= s.len(),
    decreases s.len(),
{
    lemma_char_index_range(s, b1);
    lemma_char_index_range(s, b2);
    if b1 != 0 {
        let w = utf8_width(s[0]);
        lemma_char_index_monotone(s.drop_first(), b1 - w, b2 - w);
    }
}

pub proof fn lemma_find_char_some(s: Seq<char>, ch: char)
    requires
        find_char(s, ch) is Some,
    ensures
        first_at(s, ch, find_char(s, ch)->0),
{
}

/// Splitting two texts joined by the separator gives the pieces of the first, then those of
/// the second.
pub proof fn lemma_split_char_join(a: Seq<char>, b: Seq<char>, sep: char)
    ensures
        split_char(a + seq![sep] + b, sep) == split_char(a, sep) + split_char(b, sep),
    decreases a.len(),
{
    let s = a + seq![sep] + b;
    match find_char(a, sep) {
        Some(i) => {
            lemma_find_char_some(a, sep);
            assert(first_at(s, sep, i));
            lemma_find_char_at(s, sep, i);
            assert(s.take(i) =~= a.take(i));
            assert(s.skip(i + 1) =~= a.skip(i + 1) + seq![sep] + b);
            lemma_split_char_join(a.skip(i + 1), b, sep);
            assert(split_char(a, sep) == seq![a.take(i)] + split_char(a.skip(i + 1), sep));
            assert(split_char(s, sep) =~= split_char(a, sep) + split_char(b, sep));
        },
        None => {
            assert forall|j: int| 0 <= j < a.len() implies a[j] != sep by {
                if a[j] == sep {
                    lemma_first_occurrence(a, sep, j);
                }
            }
            assert(first_at(s, sep, a.len() as int));
            lemma_find_char_at(s, sep, a.len() as int);
            assert(s.take(a.len() as int) =~= a);
            assert(s.skip((a.len() + 1) as int) =~= b);
            assert(split_char(s, sep) =~= split_char(a, sep) + split_char(b, sep));
        },
    }
}

/// An occurrence of `ch` means there is a first one.
pub proof fn lemma_first_occurrence(s: Seq<char>, ch: char, j: int)
    requires
        0 <= j < s.len(),
        s[j] == ch,
    ensures
        exists|f: int| first_at(s, ch, f),
    decreases j,
{
    if exists|m: int| 0 <= m < j && s[m] == ch {
        let m = choose|m: int| 0 <= m < j && s[m] == ch;
        lemma_first_occurrence(s, ch, m);
    } else {
        assert(first_at(s, ch, j));
    }
}

proof fn lemma_trim_start_shape(s: Seq<char>)
    ensures
        trim_start(s).len() == 0 || !is_white(trim_start(s)[0]),
        trim_start(s).len() <= s.len(),
        trim_start(s) == s.skip(s.len() - trim_start(s).len()),
    decreases s.len(),
{
    if s.len() > 0 && is_white(s[0]) {
        lemma_trim_start_shape(s.drop_first());
        assert(s.drop_first().skip(s.drop_first().len() - trim_start(s).len()) =~= s.skip(
            s.len() - trim_start(s).len(),
        ));
    } else {
        assert(s.skip(0) =~= s);
    }
}

/// Every character is ASCII.
pub open spec fn is_ascii_text(s: Seq<char>) -> bool {
    forall|i: int| 0 <= i < s.len() ==> (#[trigger] s[i] as u32) < 0x80
}

/// Trimming an ASCII text leaves an ASCII text.
pub proof fn lemma_trimmed_ascii(s: Seq<char>)
    requires
        is_ascii_text(s),
    ensures
        is_ascii_text(trimmed(s)),
{
    let z = trim_start(s);
    lemma_trim_start_shape(s);
    lemma_trim_end_shape(z);
    let y = trimmed(s);
    assert forall|i: int| 0 <= i < y.len() implies (#[trigger] y[i] as u32) < 0x80 by {
        assert(y[i] == z[i]);
        assert(z[i] == s[s.len() - z.len() + i]);
    }
}

proof fn lemma_trim_end_shape(s: Seq<char>)
    ensures
        trim_end(s).len() <= s.len(),
        trim_end(s) == s.take(trim_end(s).len() as int),
        trim_end(s).len() == 0 || !is_white(trim_end(s).last()),
    decreases s.len(),
{
    if s.len() > 0 && is_white(s.last()) {
        lemma_trim_end_shape(s.drop_last());
        assert(s.drop_last().take(trim_end(s).len() as int) =~= s.take(trim_end(s).len() as int));
    } else {
        assert(s.take(s.len() as int) =~= s);
    }
}

/// Trimming a trimmed text changes nothing.
pub proof fn lemma_trimmed_idempotent(s: Seq<char>)
    ensures
        trimmed(trimmed(s)) == trimmed(s),
{
    let z = trim_start(s);
    let y = trim_end(z);
    lemma_trim_start_shape(s);
    lemma_trim_end_shape(z);
    if y.len() > 0 {
        assert(y[0] == z[0]);
    }
    assert(trim_start(y) == y);
    assert(trim_end(y) == y);
}

/// A word: non-empty, without whitespace.
pub open spec fn is_word(w: Seq<char>) -> bool {
    w.len() > 0 && forall|i: int| 0 <= i < w.len() ==> !is_white(#[trigger] w[i])
}

/// A single word splits into itself.
pub proof fn lemma_words_word(w: Seq<char>)
    requires
        is_word(w),
    ensures
        words(w) == seq![w],
{
    assert(!exists|i: int| first_white_at(w, i));
    assert(token_len(w) == w.len());
    assert(w.take(w.len() as int) =~= w);
    assert(w.skip(w.len() as int) =~= Seq::<char>::empty());
    assert(words(Seq::<char>::empty()) == Seq::<Seq<char>>::empty());
    assert(seq![w] + Seq::<Seq<char>>::empty() =~= seq![w]);
}

/// A word followed by whitespace and more text: the word, then the words of the rest.
pub proof fn lemma_words_cons(w: Seq<char>, c: char, rest: Seq<char>)
    requires
        is_word(w),
        is_white(c),
    ensures
        words(w + seq![c] + rest) == seq![w] + words(rest),
{
    let s = w + seq![c] + rest;
    assert(s[0] == w[0]);
    assert forall|j: int| 0 <= j < w.len() implies !is_white(s[j]) by {
        assert(s[j] == w[j]);
    }
    assert(s[w.len() as int] == c);
    assert(first_white_at(s, w.len() as int));
    lemma_token_len_at(s, w.len() as int);
    assert(s.take(w.len() as int) =~= w);
    let t = s.skip(w.len() as int);
    assert(t =~= seq![c] + rest);
    assert(t[0] == c);
    assert(t.drop_first() =~= rest);
    assert(words(t) == words(t.drop_first()));
    assert(!is_white(s[0]));
    assert(words(s) == seq![s.take(w.len() as int)] + words(t));
}

/// The first `k` characters of a text, all ASCII, take `k` bytes: byte `k` is the boundary
/// after character `k`.
pub proof fn lemma_ascii_prefix_bytes(s: Seq<char>, k: int)
    requires
        0 <= k <= s.len(),
        forall|i: int| 0 <= i < k ==> (#[trigger] s[i] as u32) < 0x80,
    ensures
        char_index_at_byte(s, k) == Some(k),
    decreases k,
{
    if k > 0 {
        let d = s.drop_first();
        assert(utf8_width(s[0]) == 1);
        assert forall|i: int| 0 <= i < k - 1 implies (#[trigger] d[i] as u32) < 0x80 by {
            assert(d[i] == s[i + 1]);
        }
        lemma_ascii_prefix_bytes(d, k - 1);
    }
}

/// Every character is a decimal digit.
pub open spec fn all_digits(s: Seq<char>) -> bool {
    forall|i: int| 0 <= i < s.len() ==> is_digit(#[trigger] s[i])
}

proof fn lemma_digit_run_of_digits(s: Seq<char>, i: int, e: int)
    requires
        0 <= i <= e <= s.len(),
        forall|k: int| i <= k < e ==> is_digit(#[trigger] s[k]),
        e == s.len() || !is_digit(s[e]),
    ensures
        digit_run(s, i) == e - i,
    decreases e - i,
{
    if i < e {
        lemma_digit_run_of_digits(s, i + 1, e);
    }
}

/// A run of one or more digits is a number; so is one with a decimal point, where there is at
/// least one digit on either side of it.
pub proof fn law_digits_are_numbers(a: Seq<char>, b: Seq<char>)
    requires
        all_digits(a),
        all_digits(b),
    ensures
        a.len() > 0 ==> is_float_text(a),
        a.len() + b.len() > 0 ==> is_float_text(a + seq!['.'] + b),
{
    if a.len() > 0 {
        lemma_digit_run_of_digits(a, 0, a.len() as int);
        assert(is_digit(a[0]));
        assert(a.skip(0) =~= a);
        assert(number_from(a, 0));
    }
    let s = a + seq!['.'] + b;
    let n = a.len() as int;
    assert forall|k: int| 0 <= k < n implies is_digit(#[trigger] s[k]) by {
        assert(s[k] == a[k]);
    }
    assert(s[n] == '.');
    lemma_digit_run_of_digits(s, 0, n);
    assert forall|k: int| n + 1 <= k < s.len() implies is_digit(#[trigger] s[k]) by {
        assert(s[k] == b[k - n - 1]);
    }
    lemma_digit_run_of_digits(s, n + 1, s.len() as int);
    if a.len() + b.len() > 0 {
        if s[0] == '+' || s[0] == '-' {
            assert(n == 0);
        }
        assert(s.skip(0) =~= s);
        assert(number_from(s, 0));
    }
}

proof fn lemma_digit_run_shift(c: char, s: Seq<char>, i: int)
    requires
        0 <= i <= s.len(),
    ensures
        digit_run(seq![c] + s, i + 1) == digit_run(s, i),
    decreases s.len() - i,
{
    let t = seq![c] + s;
    if i < s.len() {
        assert(t[i + 1] == s[i]);
        lemma_digit_run_shift(c, s, i + 1);
    }
}

/// A sign in front of a number that has none is still a number, and a sign in front of a
/// text that is no number does not make it one.
pub proof fn law_sign_keeps_number(sign: char, s: Seq<char>)
    requires
        sign == '+' || sign == '-',
        s.len() > 0,
        s[0] != '+' && s[0] != '-',
    ensures
        is_float_text(seq![sign] + s) == is_float_text(s),
{
    let t = seq![sign] + s;
    assert(t.skip(1) =~= s);
    assert(s.skip(0) =~= s);
    lemma_digit_run_shift(sign, s, 0);
    let a = digit_run(s, 0);
    lemma_digit_run_bounds2(s, 0);
    let j = a;
    if j < s.len() && s[j] == '.' {
        assert(t[j + 1] == '.');
        lemma_digit_run_shift(sign, s, j + 1);
        let b = digit_run(s, j + 1);
        lemma_digit_run_bounds2(s, j + 1);
        lemma_exponent_shift(sign, s, j + 1 + b);
    } else {
        if j < s.len() {
            assert(t[j + 1] == s[j]);
        }
        lemma_exponent_shift(sign, s, j);
    }
}

proof fn lemma_digit_run_bounds2(s: Seq<char>, i: int)
    requires
        0 <= i <= s.len(),
    ensures
        0 <= digit_run(s, i) <= s.len() - i,
    decreases s.len() - i,
{
    if i < s.len() && is_digit(s[i]) {
        lemma_digit_run_bounds2(s, i + 1);
    }
}

proof fn lemma_exponent_shift(c: char, s: Seq<char>, k: int)
    requires
        0 <= k <= s.len(),
    ensures
        exponent_tail(seq![c] + s, k + 1) == exponent_tail(s, k),
{
    let t = seq![c] + s;
    if k < s.len() {
        assert(t[k + 1] == s[k]);
        if k + 1 < s.len() {
            assert(t[k + 2] == s[k + 1]);
        }
        let p = if k + 1 < s.len() && (s[k + 1] == '+' || s[k + 1] == '-') {
            k + 2
        } else {
            k + 1
        };
        if p <= s.len() {
            lemma_digit_run_shift(c, s, p);
        }
    }
}

} // verus!
