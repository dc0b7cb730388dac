//! The intraday series of one stock, from the `web.ifzq.gtimg.cn` JSON reply.
//!
//! Each point of the series is a text such as `"0930 1199.00 969 116183100.00"`: the time,
//! the price, the volume so far (in lots of 100 shares) and the amount so far (in yuan).
//! Points that cannot be read are skipped; a reply that lacks the series altogether gives
//! `None`.

use vstd::prelude::*;
use crate::json::{
    as_items, as_text, json_as_array, json_as_str, json_contents, json_document, json_from_str,
    json_get, member, JsonNode,
};
use crate::text::{
    char_index_at, char_index_at_byte, chars_of, copy_range, float_text, is_float_text, is_white,
    is_word, lemma_ascii_prefix_bytes, lemma_char_index_monotone, lemma_words_cons,
    lemma_words_word, pieces, ranges_within, words, words_in,
};

verus! {

/// One point of the series. The numbers are kept as the texts of the reply.
#[derive(Debug, Clone, PartialEq)]
pub struct MinutePoint {
    /// The time as `HH:MM`, such as `09:30`.
    pub time: String,
    /// The price, a text that `str::parse::<f64>` accepts.
    pub price: String,
    /// The volume so far, where its text is a number; `None` where it is not.
    pub volume: Option<String>,
    /// The amount so far, where its text is a number; `None` where it is not.
    pub amount: Option<String>,
}

pub struct PointView {
    pub time: Seq<char>,
    pub price: Seq<char>,
    pub volume: Option<Seq<char>>,
    pub amount: Option<Seq<char>>,
}

pub open spec fn opt_view(o: Option<String>) -> Option<Seq<char>> {
    match o {
        Some(s) => Some(s@),
        None => None,
    }
}

impl View for MinutePoint {
    type V = PointView;

    open spec fn view(&self) -> PointView {
        PointView {
            time: self.time@,
            price: self.price@,
            volume: opt_view(self.volume),
            amount: opt_view(self.amount),
        }
    }
}

/// The intraday series of one stock.
#[derive(Debug, Clone, PartialEq)]
pub struct MinuteData {
    pub code: String,
    /// The trading day as the reply gives it, such as `20260626`; empty where it gives none.
    pub date: String,
    /// The previous close, the base line of the chart, where the reply gives it as a number.
    pub prev_close: Option<String>,
    pub points: Vec<MinutePoint>,
}

pub struct MinuteView {
    pub code: Seq<char>,
    pub date: Seq<char>,
    pub prev_close: Option<Seq<char>>,
    pub points: Seq<PointView>,
}

pub open spec fn point_views(ps: Seq<MinutePoint>) -> Seq<PointView> {
    ps.map_values(|p: MinutePoint| p@)
}

impl View for MinuteData {
    type V = MinuteView;

    open spec fn view(&self) -> MinuteView {
        MinuteView {
            code: self.code@,
            date: self.date@,
            prev_close: opt_view(self.prev_close),
            points: point_views(self.points@),
        }
    }
}

/// The feed's address, up to the code.
pub open spec fn minute_endpoint() -> Seq<char> {
    "https://web.ifzq.gtimg.cn/appstock/app/minute/query?code="@
}

/// The URL that asks for the intraday series of `code`.
pub fn minute_url(code: &str) -> (url: String)
    ensures
        url@ == minute_endpoint() + code@,
{
    let mut url = String::from_str("https://web.ifzq.gtimg.cn/appstock/app/minute/query?code=");
    url.append(code);
    url
}

pub open spec fn number_or_none(t: Seq<char>) -> Option<Seq<char>> {
    if is_float_text(t) {
        Some(t)
    } else {
        None
    }
}

/// The point that a text of the series gives: it needs at least four words, a time word whose
/// first four bytes split into `HH` and `MM` at character boundaries, and a price that is a
/// number. A time word that splits inside a character is a malformed point and is skipped.
pub open spec fn spec_parse_point(s: Seq<char>) -> Option<PointView> {
    let w = words(s);
    if w.len() >= 4 {
        let raw = w[0];
        match (char_index_at_byte(raw, 2), char_index_at_byte(raw, 4)) {
            (Some(i2), Some(i4)) => if is_float_text(w[1]) {
                Some(
                    PointView {
                        time: raw.take(i2) + seq![':'] + raw.subrange(i2, i4),
                        price: w[1],
                        volume: number_or_none(w[2]),
                        amount: number_or_none(w[3]),
                    },
                )
            } else {
                None
            },
            _ => None,
        }
    } else {
        None
    }
}

/// The points of the items of the series, in order; items that are no text, or no readable
/// point, are skipped.
pub open spec fn points_of(items: Seq<JsonNode>) -> Seq<PointView>
    decreases items.len(),
{
    if items.len() == 0 {
        seq![]
    } else {
        let before = points_of(items.drop_last());
        match as_text(items.last()) {
            Some(t) => match spec_parse_point(t) {
                Some(p) => before.push(p),
                None => before,
            },
            None => before,
        }
    }
}

/// The `date` member of the series node, as text; empty where it is missing or no text.
pub open spec fn date_of(inner: JsonNode) -> Seq<char> {
    match member(inner, "date"@) {
        Some(d) => match as_text(d) {
            Some(t) => t,
            None => seq![],
        },
        None => seq![],
    }
}

/// The previous close: item 4 of `qt.<code>` of the stock's node, where that is a text that is
/// a number.
pub open spec fn prev_close_of(node: JsonNode, code: Seq<char>) -> Option<Seq<char>> {
    match member(node, "qt"@) {
        Some(qt) => match member(qt, code) {
            Some(row) => match as_items(row) {
                Some(items) => if items.len() > 4 {
                    match as_text(items[4]) {
                        Some(t) => number_or_none(t),
                        None => None,
                    }
                } else {
                    None
                },
                None => None,
            },
            None => None,
        },
        None => None,
    }
}

/// The series of `code` in a JSON document: `data.<code>.data.data` must be an array;
/// `data.<code>.data.date` and `data.<code>.qt.<code>[4]` are read where they are present.
pub open spec fn minute_of_document(root: JsonNode, code: Seq<char>) -> Option<MinuteView> {
    match member(root, "data"@) {
        Some(d) => match member(d, code) {
            Some(node) => match member(node, "data"@) {
                Some(inner) => match member(inner, "data"@) {
                    Some(series) => match as_items(series) {
                        Some(items) => Some(
                            MinuteView {
                                code,
                                date: date_of(inner),
                                prev_close: prev_close_of(node, code),
                                points: points_of(items),
                            },
                        ),
                        None => None,
                    },
                    None => None,
                },
                None => None,
            },
            None => None,
        },
        None => None,
    }
}

/// The series of `code` in the reply `json`; `None` where the reply is no JSON document.
pub open spec fn spec_parse_minute(json: Seq<char>, code: Seq<char>) -> Option<MinuteView> {
    match json_document(json) {
        Some(root) => minute_of_document(root, code),
        None => None,
    }
}

/// Whether a text is a number, as `str::parse::<f64>` reads numbers.
fn text_is_number(t: &str) -> (b: bool)
    ensures
        b == is_float_text(t@),
{
    let c = chars_of(t);
    float_text(&c)
}

/// The point that one text of the series gives, if it is a readable point.
pub fn parse_point(s: &str) -> (r: Option<MinutePoint>)
    ensures
        match r {
            Some(p) => spec_parse_point(s@) == Some(p@),
            None => spec_parse_point(s@) is None,
        },
{
    let c = chars_of(s);
    let n = c.len();
    let w = words_in(&c, 0, n);
    assert(c@.subrange(0, n as int) =~= s@);
    let ghost ws = pieces(c@, w@);
    if w.len() < 4 {
        return None;
    }
    let (a0, b0) = w[0];
    let (a1, b1) = w[1];
    let (a2, b2) = w[2];
    let (a3, b3) = w[3];
    assert(ranges_within(w@, 0, n as int));
    assert(0 <= w@[0].0 <= w@[0].1 <= n);
    assert(0 <= w@[1].0 <= w@[1].1 <= n);
    assert(0 <= w@[2].0 <= w@[2].1 <= n);
    assert(0 <= w@[3].0 <= w@[3].1 <= n);
    assert(ws[0] == c@.subrange(a0 as int, b0 as int));
    assert(ws[1] == c@.subrange(a1 as int, b1 as int));
    assert(ws[2] == c@.subrange(a2 as int, b2 as int));
    assert(ws[3] == c@.subrange(a3 as int, b3 as int));
    let t0 = copy_range(&c, a0, b0);
    let i2 = match char_index_at(&t0, 2) {
        Some(i) => i,
        None => {
            return None;
        },
    };
    let i4 = match char_index_at(&t0, 4) {
        Some(i) => i,
        None => {
            return None;
        },
    };
    proof {
        lemma_char_index_monotone(t0@, 2, 4);
    }
    let t1 = copy_range(&c, a1, b1);
    if !float_text(&t1) {
        return None;
    }
    let t2 = copy_range(&c, a2, b2);
    let t3 = copy_range(&c, a3, b3);
    let volume = if float_text(&t2) {
        Some(String::from_str(s.substring_char(a2, b2)))
    } else {
        None
    };
    let amount = if float_text(&t3) {
        Some(String::from_str(s.substring_char(a3, b3)))
    } else {
        None
    };
    let mut time = String::from_str(s.substring_char(a0, a0 + i2));
    time.append(":");
    time.append(s.substring_char(a0 + i2, a0 + i4));
    proof {
        reveal_strlit(":");
        assert(t0@.take(i2 as int) =~= s@.subrange(a0 as int, a0 + i2));
        assert(t0@.subrange(i2 as int, i4 as int) =~= s@.subrange(a0 + i2, a0 + i4));
        assert(time@ =~= t0@.take(i2 as int) + seq![':'] + t0@.subrange(i2 as int, i4 as int));
    }
    let price = String::from_str(s.substring_char(a1, b1));
    Some(MinutePoint { time, price, volume, amount })
}

/// The intraday series of `code` in the feed's reply `json`; `None` where the reply is no JSON
/// document, or lacks `data.<code>.data.data` as an array.
pub fn parse_minute(json: &str, code: &str) -> (r: Option<MinuteData>)
    ensures
        match r {
            Some(m) => spec_parse_minute(json@, code@) == Some(m@),
            None => spec_parse_minute(json@, code@) is None,
        },
{
    match json_from_str(json) {
        Some(v) => minute_from_value(&v, code),
        None => None,
    }
}

/// The intraday series of `code` in a JSON document that `serde_json` has read.
pub fn minute_from_value(v: &serde_json::Value, code: &str) -> (r: Option<MinuteData>)
    ensures
        match r {
            Some(m) => minute_of_document(json_contents(*v), code@) == Some(m@),
            None => minute_of_document(json_contents(*v), code@) is None,
        },
{
    let d = match json_get(v, "data") {
        Some(x) => x,
        None => {
            return None;
        },
    };
    let node = match json_get(d, code) {
        Some(x) => x,
        None => {
            return None;
        },
    };
    let inner = match json_get(node, "data") {
        Some(x) => x,
        None => {
            return None;
        },
    };
    let series = match json_get(inner, "data") {
        Some(x) => x,
        None => {
            return None;
        },
    };
    let items = match json_as_array(series) {
        Some(a) => a,
        None => {
            return None;
        },
    };
    let date = match json_get(inner, "date") {
        Some(x) => match json_as_str(x) {
            Some(t) => String::from_str(t),
            None => String::new(),
        },
        None => String::new(),
    };
    let prev_close = match json_get(node, "qt") {
        Some(qt) => match json_get(qt, code) {
            Some(row) => match json_as_array(row) {
                Some(a) => if a.len() > 4 {
                    match json_as_str(&a[4]) {
                        Some(t) => if text_is_number(t) {
                            Some(String::from_str(t))
                        } else {
                            None
                        },
                        None => None,
                    }
                } else {
                    None
                },
                None => None,
            },
            None => None,
        },
        None => None,
    };
    let ghost model = as_items(json_contents(*series))->0;
    let mut points: Vec<MinutePoint> = Vec::new();
    let mut k: usize = 0;
    while k < items.len()
        invariant
            k <= items@.len(),
            items@.len() == model.len(),
            forall|i: int|
                0 <= i < items@.len() ==> json_contents(#[trigger] items@[i])
                    == model[i],
            point_views(points@) == points_of(model.take(k as int)),
        decreases items@.len() - k,
    {
        let ghost t = model.take(k + 1);
        assert(t.drop_last() =~= model.take(k as int));
        assert(t.last() == model[k as int]);
        assert(json_contents(items@[k as int]) == model[k as int]);
        match json_as_str(&items[k]) {
            Some(s) => match parse_point(s) {
                Some(p) => {
                    points.push(p);
                    assert(point_views(points@) =~= point_views(points@.drop_last()).push(
                        points@.last()@,
                    ));
                },
                None => {},
            },
            None => {},
        }
        k = k + 1;
    }
    assert(model.take(items@.len() as int) =~= model);
    Some(MinuteData { code: String::from_str(code), date, prev_close, points })
}

/// The points of two runs of items are the points of the first run, then those of the
/// second: each item of the series is read on its own, so a malformed item costs only its own
/// point.
pub proof fn law_points_read_independently(a: Seq<JsonNode>, b: Seq<JsonNode>)
    ensures
        points_of(a + b) == points_of(a) + points_of(b),
    decreases b.len(),
{
    if b.len() == 0 {
        assert(a + b =~= a);
        assert(points_of(a) + points_of(b) =~= points_of(a));
    } else {
        law_points_read_independently(a, b.drop_last());
        assert((a + b).drop_last() =~= a + b.drop_last());
        assert((a + b).last() == b.last());
        assert(points_of(a + b) =~= points_of(a) + points_of(b));
    }
}

/// A point that is read has a price that `str::parse::<f64>` accepts, and a volume and an
/// amount that it accepts wherever they are present.
pub open spec fn well_formed_point(p: PointView) -> bool {
    &&& is_float_text(p.price)
    &&& (p.volume matches Some(v) ==> is_float_text(v))
    &&& (p.amount matches Some(a) ==> is_float_text(a))
}

/// Every point of a series is well formed.
pub proof fn law_points_well_formed(items: Seq<JsonNode>)
    ensures
        forall|i: int|
            0 <= i < points_of(items).len() ==> well_formed_point(#[trigger] points_of(items)[i]),
    decreases items.len(),
{
    if items.len() > 0 {
        let before = points_of(items.drop_last());
        law_points_well_formed(items.drop_last());
        assert forall|i: int|
            0 <= i < points_of(items).len() implies well_formed_point(
            #[trigger] points_of(items)[i],
        ) by {
            if i < before.len() {
                assert(points_of(items)[i] == before[i]);
            }
        }
    }
}

/// Where a document holds `data.<code>.data.data` as an array, the series is read: for that
/// code, dated by the text of `data.<code>.data.date` (empty where there is none), with the
/// points of the array's items, in order.
pub proof fn law_series_read(root: JsonNode, code: Seq<char>)
    requires
        member(root, "data"@) matches Some(d) && member(d, code) matches Some(node) && member(
            node,
            "data"@,
        ) matches Some(inner) && member(inner, "data"@) matches Some(series) && as_items(
            series,
        ) is Some,
    ensures
        ({
            let inner = member(member(member(root, "data"@)->0, code)->0, "data"@)->0;
            let items = as_items(member(inner, "data"@)->0)->0;
            &&& minute_of_document(root, code) is Some
            &&& minute_of_document(root, code)->0.code == code
            &&& minute_of_document(root, code)->0.points == points_of(items)
            &&& minute_of_document(root, code)->0.date == if member(inner, "date"@) is Some
                && as_text(member(inner, "date"@)->0) is Some {
                as_text(member(inner, "date"@)->0)->0
            } else {
                Seq::<char>::empty()
            }
        }),
{
}

/// Without `data.<code>.data.data` as an array there is no series.
pub proof fn law_no_series_none(root: JsonNode, code: Seq<char>)
    requires
        !(member(root, "data"@) matches Some(d) && member(d, code) matches Some(node) && member(
            node,
            "data"@,
        ) matches Some(inner) && member(inner, "data"@) matches Some(series) && as_items(
            series,
        ) is Some),
    ensures
        minute_of_document(root, code) is None,
{
}

/// Where a document holds the series of `code` and a row `qt.<code>` of at least five items,
/// the series is read, for that code, and its previous close is item 4 of the row exactly when
/// that item is a number text, whatever else the row holds.
pub proof fn law_prev_close_is_item_four(root: JsonNode, code: Seq<char>)
    requires
        member(root, "data"@) matches Some(d) && member(d, code) matches Some(node) && member(
            node,
            "data"@,
        ) matches Some(inner) && member(inner, "data"@) matches Some(series) && as_items(
            series,
        ) is Some,
        member(member(member(root, "data"@)->0, code)->0, "qt"@) matches Some(qt) && member(
            qt,
            code,
        ) matches Some(row) && as_items(row) matches Some(items) && items.len() > 4,
    ensures
        minute_of_document(root, code) is Some,
        minute_of_document(root, code)->0.code == code,
        ({
            let node = member(member(root, "data"@)->0, code)->0;
            let items = as_items(member(member(node, "qt"@)->0, code)->0)->0;
            minute_of_document(root, code)->0.prev_close == if as_text(items[4]) is Some
                && is_float_text(as_text(items[4])->0) {
                Some(as_text(items[4])->0)
            } else {
                None
            }
        }),
{
}

/// Without a row `qt.<code>` of at least five items there is no previous close.
pub proof fn law_no_row_no_prev_close(root: JsonNode, code: Seq<char>)
    requires
        minute_of_document(root, code) is Some,
        !(member(member(member(root, "data"@)->0, code)->0, "qt"@) matches Some(qt) && member(
            qt,
            code,
        ) matches Some(row) && as_items(row) matches Some(items) && items.len() > 4),
    ensures
        minute_of_document(root, code)->0.prev_close is None,
{
}

/// A point as the feed writes it: time, price, volume and amount, separated by spaces.
pub open spec fn point_text(w0: Seq<char>, w1: Seq<char>, w2: Seq<char>, w3: Seq<char>) -> Seq<
    char,
> {
    w0 + seq![' '] + w1 + seq![' '] + w2 + seq![' '] + w3
}

/// Reading a written point gives back its parts: the time `HHMM` as `HH:MM`, the price from
/// the second word, the volume from the third and the amount from the fourth, each number
/// kept where it is one; the point is read exactly when its price is a number.
pub proof fn law_read_written_point(w0: Seq<char>, w1: Seq<char>, w2: Seq<char>, w3: Seq<char>)
    requires
        is_word(w0),
        is_word(w1),
        is_word(w2),
        is_word(w3),
        w0.len() >= 4,
        forall|i: int| 0 <= i < 4 ==> (#[trigger] w0[i] as u32) < 0x80,
    ensures
        spec_parse_point(point_text(w0, w1, w2, w3)) is Some <==> is_float_text(w1),
        spec_parse_point(point_text(w0, w1, w2, w3)) matches Some(p) ==> {
            &&& p.time == seq![w0[0], w0[1], ':', w0[2], w0[3]]
            &&& p.price == w1
            &&& p.volume == (if is_float_text(w2) {
                Some(w2)
            } else {
                None
            })
            &&& p.amount == (if is_float_text(w3) {
                Some(w3)
            } else {
                None
            })
        },
{
    let t = point_text(w0, w1, w2, w3);
    assert(is_white(' '));
    let r3 = w2 + seq![' '] + w3;
    let r2 = w1 + seq![' '] + r3;
    assert(t =~= w0 + seq![' '] + r2);
    lemma_words_word(w3);
    lemma_words_cons(w2, ' ', w3);
    lemma_words_cons(w1, ' ', r3);
    lemma_words_cons(w0, ' ', r2);
    assert(words(t) =~= seq![w0, w1, w2, w3]);
    lemma_ascii_prefix_bytes(w0, 2);
    lemma_ascii_prefix_bytes(w0, 4);
    assert(w0.take(2) + seq![':'] + w0.subrange(2, 4) =~= seq![w0[0], w0[1], ':', w0[2], w0[3]]);
}

/// An item of the series that is no text gives no point; a text item gives the point its text
/// reads as, if any.
pub proof fn law_point_of_one_item(item: JsonNode)
    ensures
        points_of(seq![item]) == match as_text(item) {
            Some(t) => match spec_parse_point(t) {
                Some(p) => seq![p],
                None => Seq::<PointView>::empty(),
            },
            None => Seq::<PointView>::empty(),
        },
{
    let one = seq![item];
    assert(one.drop_last() =~= Seq::<JsonNode>::empty());
    assert(one.last() == item);
    assert(points_of(one.drop_last()) == Seq::<PointView>::empty());
    match as_text(item) {
        Some(t) => match spec_parse_point(t) {
            Some(p) => {
                assert(Seq::<PointView>::empty().push(p) =~= seq![p]);
            },
            None => {},
        },
        None => {},
    }
}

} // verus!
