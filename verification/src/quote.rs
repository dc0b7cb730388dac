//! Real-time quotes from the `qt.gtimg.cn` feed: the request URL, and the reading of its
//! GBK-encoded reply, one `v_<code>="f0~f1~f2~..."` line per stock.
//!
//! A line yields a quote when it carries a name (field 1), a current price (field 3) and the
//! previous close (field 4), both prices being numbers; other lines are skipped, and never
//! affect their neighbours.

use vstd::prelude::*;
use crate::text::{
    chars_of, copy_range, find_char, find_in, first_at, float_text, is_float_text, is_white,
    lemma_find_char_at, lemma_find_char_none, lemma_split_char_join, lemma_trimmed_idempotent,
    pieces, ranges_within, split_char, split_in, trim_end, trim_range, trim_start, trimmed,
};

verus! {

/// One quote as the feed gives it. The prices are kept as the decimal texts of the feed; each
/// is a text that `str::parse::<f64>` accepts.
#[derive(Debug, Clone, PartialEq)]
pub struct Quote {
    /// The code with its market prefix, such as `sh600519`.
    pub code: String,
    pub name: String,
    /// The current price.
    pub price: String,
    /// The previous day's closing price.
    pub prev_close: String,
}

pub struct QuoteView {
    pub code: Seq<char>,
    pub name: Seq<char>,
    pub price: Seq<char>,
    pub prev_close: Seq<char>,
}

impl View for Quote {
    type V = QuoteView;

    open spec fn view(&self) -> QuoteView {
        QuoteView {
            code: self.code@,
            name: self.name@,
            price: self.price@,
            prev_close: self.prev_close@,
        }
    }
}

pub open spec fn quote_views(qs: Seq<Quote>) -> Seq<QuoteView> {
    qs.map_values(|q: Quote| q@)
}

pub open spec fn string_views(ss: Seq<String>) -> Seq<Seq<char>> {
    ss.map_values(|s: String| s@)
}

/// The feed's address, up to the list of codes.
pub open spec fn quote_endpoint() -> Seq<char> {
    "https://qt.gtimg.cn/q="@
}

/// The texts of `parts`, with `sep` between each two of them, as `[T]::join` gives it.
pub open spec fn joined(parts: Seq<Seq<char>>, sep: Seq<char>) -> Seq<char>
    decreases parts.len(),
{
    if parts.len() == 0 {
        seq![]
    } else if parts.len() == 1 {
        parts[0]
    } else {
        joined(parts.drop_last(), sep) + sep + parts.last()
    }
}

/// The URL that asks the feed for all `codes` at once: the endpoint, then the codes separated
/// by commas.
pub fn build_url(codes: &[String]) -> (url: String)
    ensures
        url@ == quote_endpoint() + joined(string_views(codes@), ","@),
{
    let mut url = String::from_str("https://qt.gtimg.cn/q=");
    let ghost parts = string_views(codes@);
    let mut i: usize = 0;
    while i < codes.len()
        invariant
            i <= codes@.len(),
            parts == string_views(codes@),
            url@ == quote_endpoint() + joined(parts.take(i as int), ","@),
        decreases codes@.len() - i,
    {
        let ghost before = url@;
        if i > 0 {
            url.append(",");
        }
        url.append(codes[i].as_str());
        proof {
            let t = parts.take(i + 1);
            assert(t.drop_last() =~= parts.take(i as int));
            assert(t.last() == codes@[i as int]@);
            if i == 0 {
                assert(joined(t, ","@) == t[0]);
                assert(joined(parts.take(0), ","@) =~= seq![]);
                assert(url@ =~= quote_endpoint() + joined(t, ","@));
            } else {
                assert(url@ =~= quote_endpoint() + (joined(parts.take(i as int), ","@) + ","@
                    + codes@[i as int]@));
            }
        }
        i = i + 1;
    }
    assert(parts.take(codes@.len() as int) =~= parts);
    url
}

/// The URL to ask for, or `None` where there is nothing to ask for: an empty watchlist sends
/// no request at all.
pub fn quote_request_url(codes: &[String]) -> (r: Option<String>)
    ensures
        codes@.len() == 0 ==> r is None,
        codes@.len() > 0 ==> (r matches Some(url) && url@ == quote_endpoint() + joined(
            string_views(codes@),
            ","@,
        )),
{
    if codes.len() == 0 {
        None
    } else {
        Some(build_url(codes))
    }
}

/// The quote that the fields of a payload give, for a stock of code `code`: field 1 is the
/// name, 3 the current price, 4 the previous close, each with surrounding whitespace cut.
pub open spec fn quote_from_fields(code: Seq<char>, f: Seq<Seq<char>>) -> Option<QuoteView> {
    if f.len() >= 5 && trimmed(f[1]).len() > 0 && is_float_text(trimmed(f[3])) && is_float_text(
        trimmed(f[4]),
    ) {
        Some(
            QuoteView {
                code,
                name: trimmed(f[1]),
                price: trimmed(f[3]),
                prev_close: trimmed(f[4]),
            },
        )
    } else {
        None
    }
}

/// The quote of one line of the feed's reply, if the line is a well-formed quote line:
/// after trimming it starts with `v_`, the code runs up to the first `=`, and the payload is
/// what stands between the next two `"`, split at `~`.
pub open spec fn spec_parse_line(line: Seq<char>) -> Option<QuoteView> {
    let l = trimmed(line);
    if l.len() >= 2 && l[0] == 'v' && l[1] == '_' {
        match find_char(l, '=') {
            Some(eq) => {
                let rest = l.skip(eq + 1);
                match find_char(rest, '"') {
                    Some(q1) => {
                        let after = rest.skip(q1 + 1);
                        match find_char(after, '"') {
                            Some(q2) => quote_from_fields(
                                l.subrange(2, eq),
                                split_char(after.take(q2), '~'),
                            ),
                            None => None,
                        }
                    },
                    None => None,
                }
            },
            None => None,
        }
    } else {
        None
    }
}

/// The quotes of the lines, in order, each line that is no quote line being skipped.
pub open spec fn quotes_of_lines(lines: Seq<Seq<char>>) -> Seq<QuoteView>
    decreases lines.len(),
{
    if lines.len() == 0 {
        seq![]
    } else {
        let before = quotes_of_lines(lines.drop_last());
        match spec_parse_line(lines.last()) {
            Some(q) => before.push(q),
            None => before,
        }
    }
}

/// The quotes of a whole reply. The reply is cut at `\n`; a `\r` before it, and the empty
/// piece after a final `\n`, are of no account, since lines are trimmed and an empty line is
/// no quote line, so this is what reading the reply by `str::lines` gives.
pub open spec fn spec_parse_response(text: Seq<char>) -> Seq<QuoteView> {
    quotes_of_lines(split_char(text, '\n'))
}

proof fn lemma_find_past_prefix(s: Seq<char>, eq: int)
    requires
        s.len() >= 2,
        s[0] == 'v',
        s[1] == '_',
        find_char(s, '=') == Some(eq),
    ensures
        2 <= eq < s.len(),
{
    assert(first_at(s, '=', eq));
}

/// The quote of the line `c[lo..hi]` of `text`, whose characters are `c`.
fn parse_line_in(text: &str, c: &Vec<char>, lo: usize, hi: usize) -> (r: Option<Quote>)
    requires
        c@ == text@,
        lo <= hi <= c@.len(),
    ensures
        match r {
            Some(q) => spec_parse_line(c@.subrange(lo as int, hi as int)) == Some(q@),
            None => spec_parse_line(c@.subrange(lo as int, hi as int)) is None,
        },
{
    let ghost line = c@.subrange(lo as int, hi as int);
    let (a, b) = trim_range(c, lo, hi);
    let ghost l = c@.subrange(a as int, b as int);
    if b - a < 2 || c[a] != 'v' || c[a + 1] != '_' {
        return None;
    }
    let eq = match find_in(c, a, b, '=') {
        Some(p) => p,
        None => {
            return None;
        },
    };
    proof {
        lemma_find_past_prefix(l, eq - a);
        assert(l.skip(eq - a + 1) =~= c@.subrange(eq + 1, b as int));
        assert(l.subrange(2, eq - a) =~= c@.subrange(a + 2, eq as int));
    }
    let q1 = match find_in(c, eq + 1, b, '"') {
        Some(p) => p,
        None => {
            return None;
        },
    };
    let start = q1 + 1;
    proof {
        assert(c@.subrange(eq + 1, b as int).skip(q1 - (eq + 1) + 1) =~= c@.subrange(
            start as int,
            b as int,
        ));
    }
    let q2 = match find_in(c, start, b, '"') {
        Some(p) => p,
        None => {
            return None;
        },
    };
    proof {
        assert(c@.subrange(start as int, b as int).take(q2 - start) =~= c@.subrange(
            start as int,
            q2 as int,
        ));
    }
    let f = split_in(c, start, q2, '~');
    let ghost fs = pieces(c@, f@);
    if f.len() < 5 {
        return None;
    }
    let (n0, n1) = trim_range(c, f[1].0, f[1].1);
    let (p0, p1) = trim_range(c, f[3].0, f[3].1);
    let (r0, r1) = trim_range(c, f[4].0, f[4].1);
    assert(fs[1] == c@.subrange(f@[1].0 as int, f@[1].1 as int));
    assert(fs[3] == c@.subrange(f@[3].0 as int, f@[3].1 as int));
    assert(fs[4] == c@.subrange(f@[4].0 as int, f@[4].1 as int));
    let price_ok = float_text(&copy_range(c, p0, p1));
    let prev_ok = float_text(&copy_range(c, r0, r1));
    if n0 == n1 || !price_ok || !prev_ok {
        return None;
    }
    let code = String::from_str(text.substring_char(a + 2, eq));
    let name = String::from_str(text.substring_char(n0, n1));
    let price = String::from_str(text.substring_char(p0, p1));
    let prev_close = String::from_str(text.substring_char(r0, r1));
    Some(Quote { code, name, price, prev_close })
}

/// The quote of one line of the feed's reply, if it is a well-formed quote line.
pub fn parse_line(line: &str) -> (r: Option<Quote>)
    ensures
        match r {
            Some(q) => spec_parse_line(line@) == Some(q@),
            None => spec_parse_line(line@) is None,
        },
{
    let c = chars_of(line);
    assert(c@.subrange(0, c@.len() as int) =~= c@);
    parse_line_in(line, &c, 0, c.len())
}

/// The quotes of a whole reply (already decoded to text), in the order of its lines; lines
/// that are not well-formed quote lines are skipped.
pub fn parse_response(text: &str) -> (r: Vec<Quote>)
    ensures
        quote_views(r@) == spec_parse_response(text@),
{
    let c = chars_of(text);
    let n = c.len();
    let segs = split_in(&c, 0, n, '\n');
    assert(c@.subrange(0, n as int) =~= text@);
    let ghost lines = pieces(c@, segs@);
    let mut out: Vec<Quote> = Vec::new();
    let mut k: usize = 0;
    while k < segs.len()
        invariant
            n == c@.len(),
            c@ == text@,
            ranges_within(segs@, 0, n as int),
            lines == pieces(c@, segs@),
            lines == split_char(text@, '\n'),
            k <= segs@.len(),
            quote_views(out@) == quotes_of_lines(lines.take(k as int)),
        decreases segs@.len() - k,
    {
        let (lo, hi) = segs[k];
        assert(ranges_within(segs@, 0, n as int));
        assert(lo <= hi <= n) by {
            assert(0 <= segs@[k as int].0 <= segs@[k as int].1 <= n);
        }
        let q = parse_line_in(text, &c, lo, hi);
        proof {
            let t = lines.take(k + 1);
            assert(t.drop_last() =~= lines.take(k as int));
            assert(t.last() == c@.subrange(lo as int, hi as int));
        }
        match q {
            Some(q) => {
                out.push(q);
                assert(quote_views(out@) =~= quote_views(out@.drop_last()).push(q@));
                assert(out@.drop_last() =~= out@.take(out@.len() - 1));
            },
            None => {},
        }
        k = k + 1;
    }
    assert(lines.take(segs@.len() as int) =~= lines);
    out
}

/// What `encoding_rs` decodes a byte string to as GBK, BOM sniffing included.
pub uninterp spec fn gbk_text(bytes: Seq<u8>) -> Seq<char>;

/// Calls `encoding_rs::Encoding::decode` on `encoding_rs::GBK` and keeps the text. The
/// contract claims that the text is the decoding of the bytes, and that bytes that are all
/// ASCII decode to the same characters, as the crate documents of ASCII-compatible
/// encodings. The length bound keeps away the buffer-size overflow on which the crate panics.
#[verifier::external_body]
fn decode_gbk(bytes: &[u8]) -> (text: String)
    requires
        bytes@.len() <= usize::MAX / 4,
    ensures
        text@ == gbk_text(bytes@),
        (forall|i: int| 0 <= i < bytes@.len() ==> bytes@[i] < 0x80) ==> text@ == bytes@.map_values(
            |b: u8| b as char,
        ),
{
    let (text, _, _) = encoding_rs::GBK.decode(bytes);
    text.into_owned()
}

/// The quotes of a reply as the feed sends it, GBK-encoded.
pub fn decode_quotes(bytes: &[u8]) -> (r: Vec<Quote>)
    requires
        bytes@.len() <= usize::MAX / 4,
    ensures
        quote_views(r@) == spec_parse_response(gbk_text(bytes@)),
        (forall|i: int| 0 <= i < bytes@.len() ==> bytes@[i] < 0x80) ==> quote_views(r@)
            == spec_parse_response(bytes@.map_values(|b: u8| b as char)),
{
    let text = decode_gbk(bytes);
    parse_response(text.as_str())
}

proof fn lemma_quotes_of_lines_append(a: Seq<Seq<char>>, b: Seq<Seq<char>>)
    ensures
        quotes_of_lines(a + b) == quotes_of_lines(a) + quotes_of_lines(b),
    decreases b.len(),
{
    if b.len() == 0 {
        assert(a + b =~= a);
        assert(quotes_of_lines(a) + quotes_of_lines(b) =~= quotes_of_lines(a));
    } else {
        lemma_quotes_of_lines_append(a, b.drop_last());
        assert((a + b).drop_last() =~= a + b.drop_last());
        assert((a + b).last() == b.last());
        match spec_parse_line(b.last()) {
            Some(q) => {
                assert(quotes_of_lines(a + b) =~= quotes_of_lines(a) + quotes_of_lines(b));
            },
            None => {},
        }
    }
}

/// Each line of a reply is read on its own: the quotes of two replies joined by a line break
/// are the quotes of the first followed by those of the second, so a malformed line costs
/// only its own quote.
pub proof fn law_lines_read_independently(a: Seq<char>, b: Seq<char>)
    ensures
        spec_parse_response(a + seq!['\n'] + b) == spec_parse_response(a) + spec_parse_response(
            b,
        ),
{
    lemma_split_char_join(a, b, '\n');
    lemma_quotes_of_lines_append(split_char(a, '\n'), split_char(b, '\n'));
}

/// A quote that is read has a code and a non-empty name, and both of its prices are texts
/// that `str::parse::<f64>` accepts.
pub open spec fn well_formed_quote(q: QuoteView) -> bool {
    &&& q.name.len() > 0
    &&& is_float_text(q.price)
    &&& is_float_text(q.prev_close)
    &&& q.name == trimmed(q.name)
}

proof fn lemma_lines_well_formed(lines: Seq<Seq<char>>)
    ensures
        forall|i: int|
            0 <= i < quotes_of_lines(lines).len() ==> well_formed_quote(
                #[trigger] quotes_of_lines(lines)[i],
            ),
    decreases lines.len(),
{
    if lines.len() > 0 {
        let before = quotes_of_lines(lines.drop_last());
        lemma_lines_well_formed(lines.drop_last());
        match spec_parse_line(lines.last()) {
            Some(q) => {
                lemma_parsed_line_well_formed(lines.last());
                assert(quotes_of_lines(lines) == before.push(q));
                assert forall|i: int|
                    0 <= i < quotes_of_lines(lines).len() implies well_formed_quote(
                    #[trigger] quotes_of_lines(lines)[i],
                ) by {
                    if i < before.len() {
                        assert(quotes_of_lines(lines)[i] == before[i]);
                    }
                }
            },
            None => {},
        }
    }
}

proof fn lemma_parsed_line_well_formed(line: Seq<char>)
    requires
        spec_parse_line(line) is Some,
    ensures
        well_formed_quote(spec_parse_line(line)->0),
{
    let l = trimmed(line);
    let eq = find_char(l, '=')->0;
    let rest = l.skip(eq + 1);
    let q1 = find_char(rest, '"')->0;
    let after = rest.skip(q1 + 1);
    let q2 = find_char(after, '"')->0;
    let f = split_char(after.take(q2), '~');
    assert(spec_parse_line(line) == quote_from_fields(l.subrange(2, eq), f));
    lemma_trimmed_idempotent(f[1]);
}

/// Every quote of a reply is well formed.
pub proof fn law_quotes_well_formed(text: Seq<char>)
    ensures
        forall|i: int|
            0 <= i < spec_parse_response(text).len() ==> well_formed_quote(
                #[trigger] spec_parse_response(text)[i],
            ),
{
    lemma_lines_well_formed(split_char(text, '\n'));
}

/// `s` holds no `c`.
pub open spec fn free_of(s: Seq<char>, c: char) -> bool {
    forall|i: int| 0 <= i < s.len() ==> s[i] != c
}

/// No part holds `c`.
pub open spec fn all_free_of(parts: Seq<Seq<char>>, c: char) -> bool {
    forall|i: int| 0 <= i < parts.len() ==> free_of(#[trigger] parts[i], c)
}

/// Joining one more part appends the separator and the part: joining is `[T]::join`.
pub proof fn law_join_appends(parts: Seq<Seq<char>>, x: Seq<char>, sep: Seq<char>)
    requires
        parts.len() >= 1,
    ensures
        joined(parts.push(x), sep) == joined(parts, sep) + sep + x,
        joined(seq![x], sep) == x,
{
    assert(parts.push(x).drop_last() =~= parts);
}

/// Joined parts hold no character that neither the parts nor the separator hold.
pub proof fn lemma_joined_free_of(parts: Seq<Seq<char>>, sep: Seq<char>, c: char)
    requires
        all_free_of(parts, c),
        free_of(sep, c),
    ensures
        free_of(joined(parts, sep), c),
    decreases parts.len(),
{
    if parts.len() == 1 {
        assert(free_of(parts[0], c));
    } else if parts.len() > 1 {
        let before = parts.drop_last();
        assert forall|i: int| 0 <= i < before.len() implies free_of(#[trigger] before[i], c) by {
            assert(before[i] == parts[i]);
        }
        lemma_joined_free_of(before, sep, c);
        assert(free_of(parts[parts.len() - 1], c));
        let j = joined(parts, sep);
        assert(j == joined(before, sep) + sep + parts.last());
        assert forall|i: int| 0 <= i < j.len() implies j[i] != c by {
            let a = joined(before, sep);
            if i < a.len() {
                assert(j[i] == a[i]);
            } else if i < a.len() + sep.len() {
                assert(j[i] == sep[i - a.len()]);
            } else {
                assert(j[i] == parts.last()[i - a.len() - sep.len()]);
            }
        }
    }
}

/// Splitting what was joined with a one-character separator gives the parts back, where no
/// part holds the separator.
pub proof fn law_split_undoes_join(parts: Seq<Seq<char>>, sep: char)
    requires
        parts.len() >= 1,
        all_free_of(parts, sep),
    ensures
        split_char(joined(parts, seq![sep]), sep) == parts,
    decreases parts.len(),
{
    let last = parts.last();
    assert(free_of(parts[parts.len() - 1], sep));
    lemma_find_char_none(last, sep);
    assert(split_char(last, sep) == seq![last]);
    if parts.len() == 1 {
        assert(seq![parts[0]] =~= parts);
    } else {
        let before = parts.drop_last();
        assert forall|i: int| 0 <= i < before.len() implies free_of(#[trigger] before[i], sep) by {
            assert(before[i] == parts[i]);
        }
        law_split_undoes_join(before, sep);
        lemma_split_char_join(joined(before, seq![sep]), last, sep);
        assert(before + seq![last] =~= parts);
    }
}

/// The text after the endpoint of a request URL, split at commas, is the list of codes, where
/// no code holds a comma.
pub proof fn law_url_lists_codes(codes: Seq<Seq<char>>)
    requires
        codes.len() >= 1,
        all_free_of(codes, ','),
    ensures
        split_char(
            (quote_endpoint() + joined(codes, ","@)).skip(quote_endpoint().len() as int),
            ',',
        ) == codes,
{
    reveal_strlit(",");
    assert(","@ =~= seq![',']);
    assert((quote_endpoint() + joined(codes, ","@)).skip(quote_endpoint().len() as int)
        =~= joined(codes, ","@));
    law_split_undoes_join(codes, ',');
}

/// A quote line as the feed writes it: `v_<code>="<fields joined by ~>";`.
pub open spec fn quote_line(code: Seq<char>, fields: Seq<Seq<char>>) -> Seq<char> {
    seq!['v', '_'] + code + seq!['=', '"'] + joined(fields, seq!['~']) + seq!['"', ';']
}

proof fn lemma_written_line_shape(code: Seq<char>, p: Seq<char>)
    requires
        free_of(code, '='),
    ensures
        ({
            let line = seq!['v', '_'] + code + seq!['=', '"'] + p + seq!['"', ';'];
            &&& trimmed(line) == line
            &&& line.len() >= 2 && line[0] == 'v' && line[1] == '_'
            &&& find_char(line, '=') == Some(code.len() + 2int)
            &&& line.subrange(2, code.len() + 2int) == code
            &&& line.skip(code.len() + 3int) == seq!['"'] + p + seq!['"', ';']
        }),
{
    let line = seq!['v', '_'] + code + seq!['=', '"'] + p + seq!['"', ';'];
    let n = code.len() as int;
    assert(line[0] == 'v');
    assert(line[line.len() - 1] == ';');
    assert(!is_white('v'));
    assert(!is_white(';'));
    assert(trim_start(line) == line);
    assert(trim_end(line) == line);
    assert forall|j: int| 0 <= j < n + 2 implies line[j] != '=' by {
        if j >= 2 {
            assert(line[j] == code[j - 2]);
        }
    }
    assert(line[n + 2] == '=');
    assert(first_at(line, '=', n + 2));
    lemma_find_char_at(line, '=', n + 2);
    assert(line.subrange(2, n + 2) =~= code);
    assert(line.skip(n + 3) =~= seq!['"'] + p + seq!['"', ';']);
}

proof fn lemma_written_payload(p: Seq<char>)
    requires
        free_of(p, '"'),
    ensures
        ({
            let rest = seq!['"'] + p + seq!['"', ';'];
            &&& find_char(rest, '"') == Some(0int)
            &&& rest.skip(1) == p + seq!['"', ';']
            &&& find_char(p + seq!['"', ';'], '"') == Some(p.len() as int)
            &&& (p + seq!['"', ';']).take(p.len() as int) == p
        }),
{
    let rest = seq!['"'] + p + seq!['"', ';'];
    assert(first_at(rest, '"', 0));
    lemma_find_char_at(rest, '"', 0);
    let after = p + seq!['"', ';'];
    assert(rest.skip(1) =~= after);
    assert forall|j: int| 0 <= j < p.len() implies after[j] != '"' by {
        assert(after[j] == p[j]);
    }
    assert(first_at(after, '"', p.len() as int));
    lemma_find_char_at(after, '"', p.len() as int);
    assert(after.take(p.len() as int) =~= p);
}

proof fn lemma_written_line_single(code: Seq<char>, p: Seq<char>)
    requires
        free_of(code, '\n'),
        free_of(p, '\n'),
    ensures
        ({
            let line = seq!['v', '_'] + code + seq!['=', '"'] + p + seq!['"', ';'];
            split_char(line, '\n') == seq![line]
        }),
{
    let line = seq!['v', '_'] + code + seq!['=', '"'] + p + seq!['"', ';'];
    let n = code.len() as int;
    assert forall|j: int| 0 <= j < line.len() implies line[j] != '\n' by {
        if 2 <= j < n + 2 {
            assert(line[j] == code[j - 2]);
        } else if n + 4 <= j < n + 4 + p.len() {
            assert(line[j] == p[j - n - 4]);
        }
    }
    lemma_find_char_none(line, '\n');
}

/// Reading a line gives back what the feed wrote in it: the code between `v_` and `=`, the
/// name from field 1, the price from field 3 and the previous close from field 4, each
/// trimmed, whatever number of fields follows; a line with fewer than 5 fields, a blank name
/// or a price that is no number gives no quote. As the only line of a reply, it is the whole
/// reply's reading.
pub proof fn law_read_written_line(code: Seq<char>, fields: Seq<Seq<char>>)
    requires
        fields.len() >= 1,
        free_of(code, '='),
        free_of(code, '\n'),
        all_free_of(fields, '~'),
        all_free_of(fields, '"'),
        all_free_of(fields, '\n'),
    ensures
        spec_parse_line(quote_line(code, fields)) is Some <==> fields.len() >= 5 && trimmed(
            fields[1],
        ).len() > 0 && is_float_text(trimmed(fields[3])) && is_float_text(trimmed(fields[4])),
        spec_parse_line(quote_line(code, fields)) matches Some(q) ==> {
            &&& q.code == code
            &&& q.name == trimmed(fields[1])
            &&& q.price == trimmed(fields[3])
            &&& q.prev_close == trimmed(fields[4])
        },
        spec_parse_response(quote_line(code, fields)) == match spec_parse_line(
            quote_line(code, fields),
        ) {
            Some(q) => seq![q],
            None => Seq::<QuoteView>::empty(),
        },
{
    let p = joined(fields, seq!['~']);
    let line = quote_line(code, fields);
    lemma_written_line_shape(code, p);
    lemma_joined_free_of(fields, seq!['~'], '"');
    lemma_written_payload(p);
    law_split_undoes_join(fields, '~');
    assert(spec_parse_line(line) == quote_from_fields(code, fields));
    lemma_joined_free_of(fields, seq!['~'], '\n');
    lemma_written_line_single(code, p);
    let one = seq![line];
    assert(one.drop_last() =~= Seq::<Seq<char>>::empty());
    assert(one.last() == line);
    assert(quotes_of_lines(one.drop_last()) == Seq::<QuoteView>::empty());
    assert(spec_parse_response(line) == quotes_of_lines(one));
    match spec_parse_line(line) {
        Some(q) => {
            assert(Seq::<QuoteView>::empty().push(q) =~= seq![q]);
        },
        None => {},
    }
}

/// Fields after the fifth never change the quote of a line.
pub proof fn law_extra_fields_ignored(
    code: Seq<char>,
    fields: Seq<Seq<char>>,
    extra: Seq<Seq<char>>,
)
    requires
        fields.len() >= 5,
        free_of(code, '='),
        free_of(code, '\n'),
        all_free_of(fields + extra, '~'),
        all_free_of(fields + extra, '"'),
        all_free_of(fields + extra, '\n'),
    ensures
        spec_parse_line(quote_line(code, fields + extra)) == spec_parse_line(
            quote_line(code, fields),
        ),
{
    let all = fields + extra;
    assert forall|i: int| 0 <= i < fields.len() implies free_of(#[trigger] fields[i], '~')
        && free_of(fields[i], '"') && free_of(fields[i], '\n') by {
        assert(fields[i] == all[i]);
    }
    law_read_written_line(code, all);
    law_read_written_line(code, fields);
    assert(all[1] == fields[1]);
    assert(all[3] == fields[3]);
    assert(all[4] == fields[4]);
}

/// A line that, once trimmed, does not start with `v_`, or holds no `=`, gives no quote.
pub proof fn law_unmarked_line_skipped(line: Seq<char>)
    requires
        !(trimmed(line).len() >= 2 && trimmed(line)[0] == 'v' && trimmed(line)[1] == '_')
            || free_of(trimmed(line), '='),
    ensures
        spec_parse_line(line) is None,
{
    if free_of(trimmed(line), '=') {
        lemma_find_char_none(trimmed(line), '=');
    }
}

} // verus!
