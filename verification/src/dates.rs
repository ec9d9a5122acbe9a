//! The grammar of the source site's free-text dates — `DD MMM YYYY`, with a
//! space or hyphen between the fields — and their reformatting into the
//! year-first form used for sortable filenames. Text with no date in it
//! passes through unchanged.

use vstd::prelude::*;

use crate::text::is_digit;
use crate::text::is_sep;
use crate::text::is_word_char;
use crate::text::char_is_digit;
use crate::text::char_is_sep;
use crate::text::char_is_word;

verus! {

/// A date in source-site form, split into its three captured fields.
pub struct GalnetDate {
    pub day: String,
    pub month: String,
    pub year: String,
}

/// A date starts at position `i`: two digits, a separator, three word
/// characters, a separator, then at least four digits.
pub open spec fn date_match_at(s: Seq<char>, i: int) -> bool {
    &&& 0 <= i
    &&& i + 11 <= s.len()
    &&& is_digit(s[i])
    &&& is_digit(s[i + 1])
    &&& is_sep(s[i + 2])
    &&& is_word_char(s[i + 3])
    &&& is_word_char(s[i + 4])
    &&& is_word_char(s[i + 5])
    &&& is_sep(s[i + 6])
    &&& is_digit(s[i + 7])
    &&& is_digit(s[i + 8])
    &&& is_digit(s[i + 9])
    &&& is_digit(s[i + 10])
}

/// The end of the run of digits starting at `j`.
pub open spec fn digit_run_end(s: Seq<char>, j: int) -> int
    recommends
        0 <= j <= s.len(),
    decreases s.len() - j,
{
    if j < s.len() && is_digit(s[j]) {
        digit_run_end(s, j + 1)
    } else {
        j
    }
}

/// The position of the leftmost date at or after `i`, if any.
pub open spec fn date_search(s: Seq<char>, i: int) -> Option<int>
    recommends
        0 <= i,
    decreases s.len() - i,
{
    if i + 11 > s.len() {
        None
    } else if date_match_at(s, i) {
        Some(i)
    } else {
        date_search(s, i + 1)
    }
}

/// The day captured by a match at position `i`.
pub open spec fn day_at(s: Seq<char>, i: int) -> Seq<char> {
    s.subrange(i, i + 2)
}

/// The month captured by a match at position `i`.
pub open spec fn month_at(s: Seq<char>, i: int) -> Seq<char> {
    s.subrange(i + 3, i + 6)
}

/// The year captured by a match at position `i`: the whole run of digits
/// from the year's first one.
pub open spec fn year_at(s: Seq<char>, i: int) -> Seq<char> {
    s.subrange(i + 7, digit_run_end(s, i + 7))
}

/// The fields of a date, joined by single spaces in the given order.
pub open spec fn joined(a: Seq<char>, b: Seq<char>, c: Seq<char>) -> Seq<char> {
    a + seq![' '] + b + seq![' '] + c
}

/// What reformatting does to a text: the leftmost date, if there is one,
/// rendered year first; otherwise the text itself.
pub open spec fn spec_reverted(s: Seq<char>) -> Seq<char> {
    match date_search(s, 0) {
        Some(i) => joined(year_at(s, i), month_at(s, i), day_at(s, i)),
        None => s,
    }
}

impl GalnetDate {
    /// The date in source-site order: day, month, year.
    pub open spec fn spec_text(&self) -> Seq<char> {
        joined(self.day@, self.month@, self.year@)
    }

    /// Renders the date in source-site order: day, month, year.
    pub fn to_string(&self) -> (r: String)
        ensures
            r@ == self.spec_text(),
    {
        proof {
            reveal_strlit(" ");
            assert(" "@ =~= seq![' ']);
        }
        self.day.clone().concat(" ").concat(self.month.as_str()).concat(" ").concat(
            self.year.as_str(),
        )
    }
}

impl PartialEq for GalnetDate {
    /// Two dates are equal when their rendered texts are.
    fn eq(&self, other: &Self) -> (r: bool) {
        self.to_string() == other.to_string()
    }
}

impl Eq for GalnetDate {

}

impl vstd::std_specs::cmp::PartialEqSpecImpl for GalnetDate {
    open spec fn obeys_eq_spec() -> bool {
        true
    }

    open spec fn eq_spec(&self, other: &Self) -> bool {
        self.spec_text() == other.spec_text()
    }
}

proof fn lemma_digit_run_end_from(s: Seq<char>, j: int, e: int)
    requires
        0 <= j <= e <= s.len(),
        forall|k: int| j <= k < e ==> is_digit(#[trigger] s[k]),
    ensures
        digit_run_end(s, j) == digit_run_end(s, e),
    decreases e - j,
{
    if j < e {
        lemma_digit_run_end_from(s, j + 1, e);
    }
}

/// Parses the leftmost date out of a text, if one is there.
pub fn parse_galnet_date(text: &str) -> (r: Option<GalnetDate>)
    ensures
        match r {
            Some(d) => {
                &&& date_search(text@, 0) is Some
                &&& d.day@ == day_at(text@, date_search(text@, 0).unwrap())
                &&& d.month@ == month_at(text@, date_search(text@, 0).unwrap())
                &&& d.year@ == year_at(text@, date_search(text@, 0).unwrap())
            },
            None => date_search(text@, 0) is None,
        },
{
    let n = text.unicode_len();
    if n < 11 {
        proof {
            assert(date_search(text@, 0) is None);
        }
        return None;
    }
    let mut i: usize = 0;
    while i <= n - 11
        invariant
            0 <= i <= n - 10,
            n == text@.len(),
            n >= 11,
            date_search(text@, 0) == date_search(text@, i as int),
        decreases n - i,
    {
        let found = char_is_digit(text.get_char(i)) && char_is_digit(text.get_char(i + 1))
            && char_is_sep(text.get_char(i + 2)) && char_is_word(text.get_char(i + 3))
            && char_is_word(text.get_char(i + 4)) && char_is_word(text.get_char(i + 5))
            && char_is_sep(text.get_char(i + 6)) && char_is_digit(text.get_char(i + 7))
            && char_is_digit(text.get_char(i + 8)) && char_is_digit(text.get_char(i + 9))
            && char_is_digit(text.get_char(i + 10));
        if found {
            let ystart = i + 7;
            let mut e = i + 11;
            proof {
                assert forall|k: int| ystart <= k < e implies is_digit(#[trigger] text@[k]) by {
                }
                lemma_digit_run_end_from(text@, ystart as int, e as int);
            }
            while e < n && char_is_digit(text.get_char(e))
                invariant
                    ystart <= e <= n,
                    n == text@.len(),
                    digit_run_end(text@, ystart as int) == digit_run_end(text@, e as int),
                decreases n - e,
            {
                e = e + 1;
            }
            proof {
                assert(digit_run_end(text@, e as int) == e);
                assert(date_match_at(text@, i as int));
                assert(date_search(text@, i as int) == Some(i as int));
            }
            let day = text.substring_char(i, i + 2).to_owned();
            let month = text.substring_char(i + 3, i + 6).to_owned();
            let year = text.substring_char(ystart, e).to_owned();
            return Some(GalnetDate { day, month, year });
        }
        proof {
            assert(!date_match_at(text@, i as int));
        }
        i = i + 1;
    }
    proof {
        assert(date_search(text@, i as int) is None);
    }
    None
}

/// Reformats a source-site date into the sortable year-first form; a text
/// with no date in it is returned unchanged.
pub fn revert_galnet_date(date: &str) -> (r: String)
    ensures
        r@ == spec_reverted(date@),
{
    match parse_galnet_date(date) {
        Some(d) => {
            proof {
                reveal_strlit(" ");
                assert(" "@ =~= seq![' ']);
            }
            d.year.concat(" ").concat(d.month.as_str()).concat(" ").concat(d.day.as_str())
        },
        None => date.to_owned(),
    }
}

} // verus!
