//! The watchlist: the codes the user follows, as entered in the settings page and as kept in
//! the settings store.

use vstd::prelude::*;
use crate::quote::string_views;
use crate::text::{chars_of, is_ascii_text, lemma_trimmed_ascii, trim_range, trimmed};

verus! {

/// Shanghai Composite, Shenzhen Component, Kweichow Moutai.
pub open spec fn default_codes() -> Seq<Seq<char>> {
    seq!["sh000001"@, "sz399001"@, "sh600519"@]
}

/// The watchlist of a first start.
pub fn default_watchlist() -> (codes: Vec<String>)
    ensures
        string_views(codes@) == default_codes(),
        codes@.len() == 3,
{
    let codes = vec![
        String::from_str("sh000001"),
        String::from_str("sz399001"),
        String::from_str("sh600519"),
    ];
    assert(string_views(codes@) =~= default_codes());
    codes
}

/// The watchlist to start with: the stored one where it holds at least one code, else the
/// default one.
pub fn initial_watchlist(stored: Option<Vec<String>>) -> (codes: Vec<String>)
    ensures
        codes@.len() > 0,
        match stored {
            Some(v) => if v@.len() > 0 {
                codes@ == v@
            } else {
                string_views(codes@) == default_codes()
            },
            None => string_views(codes@) == default_codes(),
        },
{
    match stored {
        Some(v) => if v.len() > 0 {
            v
        } else {
            default_watchlist()
        },
        None => default_watchlist(),
    }
}

/// What `str::to_lowercase` gives for a text: its lower case by the Unicode `Lowercase`
/// mapping.
pub uninterp spec fn lowercase(s: Seq<char>) -> Seq<char>;

/// ASCII lower case of a character; other characters are left as they are.
pub open spec fn ascii_lower(c: char) -> char {
    if 'A' <= c && c <= 'Z' {
        ((c as u32) + 32) as char
    } else {
        c
    }
}

/// ASCII lower case of a text, character by character.
pub open spec fn ascii_lowered(s: Seq<char>) -> Seq<char> {
    s.map_values(|c: char| ascii_lower(c))
}

/// Calls `str::to_lowercase`. The contract names its result, and claims what std documents:
/// every character lower-cases to one or more characters, so the empty text stays empty and
/// no other text becomes empty; and an ASCII text lower-cases letter by letter, `A`–`Z` to
/// `a`–`z`, every other character kept.
#[verifier::external_body]
fn to_lower(s: &str) -> (r: String)
    ensures
        r@ == lowercase(s@),
        r@.len() == 0 <==> s@.len() == 0,
        is_ascii_text(s@) ==> r@ == ascii_lowered(s@),
{
    s.to_lowercase()
}

/// A text with whitespace cut from both ends, as `str::trim` gives it.
pub fn trim_text(s: &str) -> (r: String)
    ensures
        r@ == trimmed(s@),
{
    let c = chars_of(s);
    let (a, b) = trim_range(&c, 0, c.len());
    assert(c@.subrange(0, c@.len() as int) =~= s@);
    String::from_str(s.substring_char(a, b))
}

/// One entered code as it is kept: trimmed, then lower-cased.
pub open spec fn clean_code(c: Seq<char>) -> Seq<char> {
    lowercase(trimmed(c))
}

/// The entered codes as they are kept: each trimmed and lower-cased, in order, the ones that
/// are then empty left out.
pub open spec fn cleaned(codes: Seq<Seq<char>>) -> Seq<Seq<char>>
    decreases codes.len(),
{
    if codes.len() == 0 {
        seq![]
    } else {
        let before = cleaned(codes.drop_last());
        let c = clean_code(codes.last());
        if c.len() > 0 {
            before.push(c)
        } else {
            before
        }
    }
}

/// The number of codes that are not blank (not empty once trimmed).
pub open spec fn non_blank_count(codes: Seq<Seq<char>>) -> nat
    decreases codes.len(),
{
    if codes.len() == 0 {
        0
    } else {
        non_blank_count(codes.drop_last()) + if trimmed(codes.last()).len() > 0 {
            1nat
        } else {
            0nat
        }
    }
}

/// The cleaning of ASCII codes: the non-blank ones, trimmed and with `A`–`Z` lower-cased, in
/// order.
pub open spec fn ascii_cleaned(codes: Seq<Seq<char>>) -> Seq<Seq<char>>
    decreases codes.len(),
{
    if codes.len() == 0 {
        seq![]
    } else {
        let before = ascii_cleaned(codes.drop_last());
        let t = trimmed(codes.last());
        if t.len() > 0 {
            before.push(ascii_lowered(t))
        } else {
            before
        }
    }
}

pub open spec fn all_ascii(codes: Seq<Seq<char>>) -> bool {
    forall|i: int| 0 <= i < codes.len() ==> is_ascii_text(#[trigger] codes[i])
}

/// The watchlist that the settings page's codes give. Exactly the non-blank codes are kept;
/// codes in ASCII, as stock codes are, are trimmed and lower-cased letter by letter.
pub fn clean_watchlist(codes: Vec<String>) -> (r: Vec<String>)
    ensures
        string_views(r@) == cleaned(string_views(codes@)),
        r@.len() == non_blank_count(string_views(codes@)),
        all_ascii(string_views(codes@)) ==> string_views(r@) == ascii_cleaned(
            string_views(codes@),
        ),
{
    let ghost entered = string_views(codes@);
    let mut out: Vec<String> = Vec::new();
    let mut i: usize = 0;
    while i < codes.len()
        invariant
            i <= codes@.len(),
            entered == string_views(codes@),
            string_views(out@) == cleaned(entered.take(i as int)),
            out@.len() == non_blank_count(entered.take(i as int)),
            all_ascii(entered) ==> string_views(out@) == ascii_cleaned(entered.take(i as int)),
        decreases codes@.len() - i,
    {
        let t = trim_text(codes[i].as_str());
        let c = to_lower(t.as_str());
        proof {
            let e = entered.take(i + 1);
            assert(e.drop_last() =~= entered.take(i as int));
            assert(e.last() == codes@[i as int]@);
            assert(entered[i as int] == codes@[i as int]@);
            if all_ascii(entered) {
                assert(is_ascii_text(entered[i as int]));
                lemma_trimmed_ascii(codes@[i as int]@);
            }
        }
        if !c.as_str().is_empty() {
            out.push(c);
            assert(string_views(out@) =~= string_views(out@.drop_last()).push(c@));
            assert(out@.drop_last() =~= out@.take(out@.len() - 1));
        }
        i = i + 1;
    }
    assert(entered.take(codes@.len() as int) =~= entered);
    out
}

/// A cleaned watchlist holds no empty code, and is no longer than what was entered.
pub proof fn law_cleaned_codes(codes: Seq<Seq<char>>)
    ensures
        cleaned(codes).len() <= codes.len(),
        forall|i: int| 0 <= i < cleaned(codes).len() ==> (#[trigger] cleaned(codes)[i]).len() > 0,
    decreases codes.len(),
{
    if codes.len() > 0 {
        let before = cleaned(codes.drop_last());
        law_cleaned_codes(codes.drop_last());
        assert forall|i: int| 0 <= i < cleaned(codes).len() implies (
        #[trigger] cleaned(codes)[i]).len() > 0 by {
            if i < before.len() {
                assert(cleaned(codes)[i] == before[i]);
            }
        }
    }
}

proof fn lemma_clean_append_one(a: Seq<Seq<char>>, b: Seq<Seq<char>>)
    requires
        b.len() > 0,
    ensures
        (a + b).drop_last() == a + b.drop_last(),
        (a + b).last() == b.last(),
{
    assert((a + b).drop_last() =~= a + b.drop_last());
}

/// Cleaning distributes over concatenation: the codes entered as `a` then `b` are cleaned as
/// `a`'s cleaning followed by `b`'s, and as many are kept as each keeps. With the cleaning of a
/// single code, this says that every non-blank code is kept, in its place, and no other.
pub proof fn law_clean_concat(a: Seq<Seq<char>>, b: Seq<Seq<char>>)
    ensures
        cleaned(a + b) == cleaned(a) + cleaned(b),
        non_blank_count(a + b) == non_blank_count(a) + non_blank_count(b),
        ascii_cleaned(a + b) == ascii_cleaned(a) + ascii_cleaned(b),
    decreases b.len(),
{
    if b.len() == 0 {
        assert(a + b =~= a);
        assert(cleaned(a) + cleaned(b) =~= cleaned(a));
        assert(ascii_cleaned(a) + ascii_cleaned(b) =~= ascii_cleaned(a));
    } else {
        law_clean_concat(a, b.drop_last());
        lemma_clean_append_one(a, b);
        assert(cleaned(a + b) =~= cleaned(a) + cleaned(b));
        assert(ascii_cleaned(a + b) =~= ascii_cleaned(a) + ascii_cleaned(b));
    }
}

/// One code is kept exactly when it is not blank; kept, it is trimmed and lower-cased.
pub proof fn law_clean_one(c: Seq<char>)
    ensures
        non_blank_count(seq![c]) == (if trimmed(c).len() > 0 {
            1nat
        } else {
            0nat
        }),
        ascii_cleaned(seq![c]) == (if trimmed(c).len() > 0 {
            seq![ascii_lowered(trimmed(c))]
        } else {
            Seq::<Seq<char>>::empty()
        }),
        cleaned(seq![c]) == (if lowercase(trimmed(c)).len() > 0 {
            seq![lowercase(trimmed(c))]
        } else {
            Seq::<Seq<char>>::empty()
        }),
{
    let one = seq![c];
    assert(one.drop_last() =~= Seq::<Seq<char>>::empty());
    assert(one.last() == c);
    assert(non_blank_count(one.drop_last()) == 0);
    assert(ascii_cleaned(one.drop_last()) == Seq::<Seq<char>>::empty());
    assert(cleaned(one.drop_last()) == Seq::<Seq<char>>::empty());
    assert(Seq::<Seq<char>>::empty().push(ascii_lowered(trimmed(c))) =~= seq![
        ascii_lowered(trimmed(c)),
    ]);
    assert(Seq::<Seq<char>>::empty().push(lowercase(trimmed(c))) =~= seq![
        lowercase(trimmed(c)),
    ]);
}

} // verus!
