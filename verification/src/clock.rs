//! Wall-clock readings. A reading depends on the moment it is taken, so these
//! contracts state only what holds of every outcome: the shape of the
//! formatted text.

use vstd::prelude::*;

verus! {

/// Relies on `chrono::Local::now` formatted with `%Y-%m-%d`: zero-padded
/// year, month and day joined by `'-'` (a year outside 0..=9999 carries an
/// explicit `'+'` or `'-'` sign).
#[verifier::external_body]
pub(crate) fn today_string() -> (r: String)
    ensures
        forall|i: int|
            0 <= i < r@.len() ==> (('0' <= #[trigger] r@[i] <= '9') || r@[i] == '-' || r@[i]
                == '+'),
{
    chrono::Local::now().format("%Y-%m-%d").to_string()
}

/// Relies on `chrono::Local::now` formatted with `%H:%M:%S`: always two
/// zero-padded digits per field joined by `':'`, eight characters.
#[verifier::external_body]
pub(crate) fn time_hms_string() -> (r: String)
    ensures
        r@.len() == 8,
        forall|i: int|
            0 <= i < r@.len() ==> (('0' <= #[trigger] r@[i] <= '9') || r@[i] == ':'),
{
    chrono::Local::now().format("%H:%M:%S").to_string()
}

} // verus!
