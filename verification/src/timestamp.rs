//! Splitting provider timestamps.
//!
//! The provider reports an observation time as one string with a `'T'`
//! between the date and the time of day. Rendering splits at the first
//! `'T'`; a timestamp without one yields two empty halves.

use vstd::prelude::*;
use vstd::string::StrSliceExecFns;

verus! {

/// The index of the first `'T'` in `s`, or `s.len()` when there is none.
pub open spec fn sep_index(s: Seq<char>) -> int
    decreases s.len(),
{
    if s.len() == 0 {
        0
    } else if s[0] == 'T' {
        0
    } else {
        1 + sep_index(s.skip(1))
    }
}

/// Whether `s` holds a date/time separator at all.
pub open spec fn has_sep(s: Seq<char>) -> bool {
    sep_index(s) < s.len()
}

/// The date half: what stands before the first `'T'`; empty without one.
pub open spec fn date_part(s: Seq<char>) -> Seq<char> {
    if has_sep(s) {
        s.take(sep_index(s))
    } else {
        Seq::empty()
    }
}

/// The time-of-day half: what stands after the first `'T'`; empty without
/// one.
pub open spec fn hour_part(s: Seq<char>) -> Seq<char> {
    if has_sep(s) {
        s.skip(sep_index(s) + 1)
    } else {
        Seq::empty()
    }
}

/// `sep_index` points at the first `'T'`: nothing before it is one, and it
/// is one itself whenever it lies inside the string.
pub proof fn lemma_sep_index(s: Seq<char>)
    ensures
        0 <= sep_index(s) <= s.len(),
        sep_index(s) < s.len() ==> s[sep_index(s)] == 'T',
        forall|j: int| 0 <= j < sep_index(s) ==> s[j] != 'T',
    decreases s.len(),
{
    if s.len() == 0 {
    } else if s[0] == 'T' {
    } else {
        lemma_sep_index(s.skip(1));
        assert forall|j: int| 0 <= j < sep_index(s) implies s[j] != 'T' by {
            if j > 0 {
                assert(s.skip(1)[j - 1] != 'T');
                assert(s.skip(1)[j - 1] == s[j]);
            }
        }
        if sep_index(s) < s.len() {
            assert(s.skip(1)[sep_index(s) - 1] == s[sep_index(s)]);
        }
    }
}

/// Splits a timestamp at its first `'T'` into date and time of day.
pub fn split_timestamp(time: &str) -> (r: (String, String))
    ensures
        r.0@ == date_part(time@),
        r.1@ == hour_part(time@),
{
    let n = time.unicode_len();
    let mut i: usize = 0;
    while i < n
        invariant
            n == time@.len(),
            i <= n,
            forall|j: int| 0 <= j < i ==> time@[j] != 'T',
        decreases n - i,
    {
        if time.get_char(i) == 'T' {
            proof {
                lemma_sep_index(time@);
                assert(sep_index(time@) == i as int);
            }
            let date = time.substring_char(0, i);
            let hour = time.substring_char(i + 1, n);
            proof {
                assert(date@ =~= date_part(time@));
                assert(hour@ =~= hour_part(time@));
            }
            return (date.to_owned(), hour.to_owned());
        }
        i = i + 1;
    }
    proof {
        lemma_sep_index(time@);
        assert(!has_sep(time@));
    }
    (String::new(), String::new())
}

} // verus!
