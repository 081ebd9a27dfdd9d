//! Today's date, as the system clock gives it.

use vstd::prelude::*;

verus! {

/// A character that a printed calendar date is made of: an ASCII digit, the
/// hyphen that separates its parts, or the sign of a year beyond four digits.
pub open spec fn is_date_char(c: char) -> bool {
    let n = c as u32;
    0x30 <= n <= 0x39 || c == '-' || c == '+'
}

/// A printed calendar date: at least the ten characters of `YYYY-MM-DD`, and
/// nothing but digits, hyphens and a sign.
pub open spec fn is_date_text(d: Seq<char>) -> bool {
    d.len() >= 10 && forall|i: int| 0 <= i < d.len() ==> is_date_char(#[trigger] d[i])
}

/// The current UTC date as `chrono` prints it: `Utc::now()`, then
/// `DateTime::date_naive`, then the `Display` of `NaiveDate`.
///
/// Which date comes back depends on the clock, so the contract states only
/// what `NaiveDate`'s formatter writes for every date: a year of four digits
/// (or a sign and more digits), a hyphen, two digits for the month, a hyphen
/// and two digits for the day. `Utc::now()` stops the program if the system
/// clock stands before the Unix epoch or beyond the years that `chrono` can
/// hold.
#[verifier::external_body]
pub(crate) fn utc_today() -> (date: String)
    ensures
        is_date_text(date@),
{
    chrono::Utc::now().date_naive().to_string()
}

} // verus!
