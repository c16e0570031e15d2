//! String helpers: character-exact string comparison, day-name
//! normalization, and capitalization of a display label.

use vstd::prelude::*;
use vstd::string::StrSliceExecFns;
use vstd::string::StringExecFns;

verus! {

broadcast use vstd::string::group_string_axioms;

/// Character-by-character string equality, proved against the views.
pub fn str_eq(a: &str, b: &str) -> (r: bool)
    ensures
        r == (a@ == b@),
{
    let n = a.unicode_len();
    let m = b.unicode_len();
    if n != m {
        return false;
    }
    let mut i: usize = 0;
    while i < n
        invariant
            n == a@.len(),
            m == b@.len(),
            n == m,
            i <= n,
            forall|k: int| 0 <= k < i ==> a@[k] == b@[k],
        decreases n - i,
    {
        if a.get_char(i) != b.get_char(i) {
            return false;
        }
        i = i + 1;
    }
    proof {
        assert(a@ =~= b@);
    }
    true
}

/// The lower-cased form of a character sequence, as `str::to_lowercase`
/// computes it.
pub uninterp spec fn lower_of(s: Seq<char>) -> Seq<char>;

/// Nothing but lower-case ASCII letters — tokens on which the Unicode
/// lowercase mapping is the identity.
pub open spec fn ascii_lower_token(s: Seq<char>) -> bool {
    forall|i: int| 0 <= i < s.len() ==> 'a' <= #[trigger] s[i] && s[i] <= 'z'
}

/// Relies on `str::to_lowercase`: the Unicode lowercase of the input, a
/// function of the input characters alone. A token of lower-case ASCII
/// letters comes back unchanged, since the Unicode lowercase mapping is
/// the identity on `a`..=`z`.
#[verifier::external_body]
fn to_lower(s: &str) -> (r: String)
    ensures
        r@ == lower_of(s@),
        ascii_lower_token(s@) ==> r@ == s@,
{
    s.to_lowercase()
}

/// The upper-cased form of one character (possibly several characters
/// long), as `char::to_uppercase` computes it.
pub uninterp spec fn upper_of(c: char) -> Seq<char>;

/// Relies on `char::to_uppercase`: the Unicode uppercase mapping of the
/// character, a function of the character alone.
#[verifier::external_body]
fn char_to_upper(c: char) -> (r: String)
    ensures
        r@ == upper_of(c),
{
    c.to_uppercase().collect()
}

/// How an already lower-cased day token is normalized: each recognized
/// shorthand becomes its canonical full day name; anything else passes
/// through unchanged. Note that `s` alone means Saturday.
pub open spec fn spec_normalize_day(s: Seq<char>) -> Seq<char> {
    if s == "m"@ {
        "monday"@
    } else if s == "t"@ {
        "tuesday"@
    } else if s == "w"@ {
        "wednesday"@
    } else if s == "th"@ {
        "thursday"@
    } else if s == "f"@ {
        "friday"@
    } else if s == "sa"@ || s == "s"@ {
        "saturday"@
    } else if s == "su"@ {
        "sunday"@
    } else {
        s
    }
}

/// The recognized shorthand tokens.
pub open spec fn is_day_shorthand(s: Seq<char>) -> bool {
    ||| s == "m"@
    ||| s == "t"@
    ||| s == "w"@
    ||| s == "th"@
    ||| s == "f"@
    ||| s == "sa"@
    ||| s == "s"@
    ||| s == "su"@
}

/// Lower-cases the input and expands recognized shorthands to the
/// canonical day names. On a token that is already lower-case ASCII the
/// result does not go through the lower-casing at all.
pub fn normalize_day(day: &str) -> (r: String)
    ensures
        r@ == spec_normalize_day(lower_of(day@)),
        ascii_lower_token(day@) ==> r@ == spec_normalize_day(day@),
{
    let low = to_lower(day);
    if str_eq(low.as_str(), "m") {
        String::from_str("monday")
    } else if str_eq(low.as_str(), "t") {
        String::from_str("tuesday")
    } else if str_eq(low.as_str(), "w") {
        String::from_str("wednesday")
    } else if str_eq(low.as_str(), "th") {
        String::from_str("thursday")
    } else if str_eq(low.as_str(), "f") {
        String::from_str("friday")
    } else if str_eq(low.as_str(), "sa") || str_eq(low.as_str(), "s") {
        String::from_str("saturday")
    } else if str_eq(low.as_str(), "su") {
        String::from_str("sunday")
    } else {
        low
    }
}

/// Every supported shorthand normalizes to its canonical full day name,
/// and every other (already lower-cased) token passes through unchanged.
pub proof fn lemma_normalize_day_cases(s: Seq<char>)
    ensures
        s == "m"@ ==> spec_normalize_day(s) == "monday"@,
        s == "t"@ ==> spec_normalize_day(s) == "tuesday"@,
        s == "w"@ ==> spec_normalize_day(s) == "wednesday"@,
        s == "th"@ ==> spec_normalize_day(s) == "thursday"@,
        s == "f"@ ==> spec_normalize_day(s) == "friday"@,
        s == "sa"@ ==> spec_normalize_day(s) == "saturday"@,
        s == "s"@ ==> spec_normalize_day(s) == "saturday"@,
        s == "su"@ ==> spec_normalize_day(s) == "sunday"@,
        !is_day_shorthand(s) ==> spec_normalize_day(s) == s,
{
    reveal_strlit("m");
    reveal_strlit("t");
    reveal_strlit("w");
    reveal_strlit("th");
    reveal_strlit("f");
    reveal_strlit("sa");
    reveal_strlit("s");
    reveal_strlit("su");
    assert("m"@.len() == 1 && "t"@.len() == 1 && "w"@.len() == 1 && "f"@.len() == 1);
    assert("s"@.len() == 1 && "th"@.len() == 2 && "sa"@.len() == 2 && "su"@.len() == 2);
    assert("m"@[0] == 'm');
    assert("t"@[0] == 't');
    assert("w"@[0] == 'w');
    assert("f"@[0] == 'f');
    assert("s"@[0] == 's');
    assert("th"@[0] == 't' && "th"@[1] == 'h');
    assert("sa"@[0] == 's' && "sa"@[1] == 'a');
    assert("su"@[0] == 's' && "su"@[1] == 'u');
}

/// The capitalized form of a display label: the first character
/// upper-cased, the rest unchanged.
pub open spec fn spec_capitalize_first(s: Seq<char>) -> Seq<char> {
    if s.len() == 0 {
        Seq::empty()
    } else {
        upper_of(s[0]) + s.skip(1)
    }
}

/// Upper-cases the first character of the string; an empty string stays
/// empty.
pub fn capitalize_first(s: &str) -> (r: String)
    ensures
        r@ == spec_capitalize_first(s@),
{
    let n = s.unicode_len();
    if n == 0 {
        String::new()
    } else {
        let first = s.get_char(0);
        let mut r = char_to_upper(first);
        let rest = s.substring_char(1, n);
        proof {
            assert(s@.subrange(1, n as int) =~= s@.skip(1));
        }
        r.append(rest);
        r
    }
}

} // verus!
