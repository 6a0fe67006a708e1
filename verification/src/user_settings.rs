//! How user preferences are stored as text in the daemon's configuration table.

use vstd::prelude::*;
use vstd::string::*;
use crate::text::str_eq;

verus! {

/// The preferred language from its stored value, `en` when none is stored.
pub fn language_or_default(stored: Option<&str>) -> (lang: String)
    ensures
        lang@ == match stored { Some(s) => s@, None => "en"@ },
{
    match stored {
        Some(s) => s.to_owned(),
        None => "en".to_owned(),
    }
}

/// Whether analytics is enabled given the stored value: only `true` enables it,
/// and it is enabled when nothing is stored.
pub fn analytics_enabled_from(stored: Option<&str>) -> (enabled: bool)
    ensures
        enabled == match stored { Some(s) => s@ == "true"@, None => true },
{
    match stored {
        Some(s) => str_eq(s, "true"),
        None => true,
    }
}

/// The stored value of the analytics flag.
pub fn analytics_flag_value(enabled: bool) -> (v: &'static str)
    ensures
        v@ == (if enabled { "true"@ } else { "false"@ }),
{
    if enabled { "true" } else { "false" }
}

/// Reading back a stored analytics flag gives the flag that was stored.
pub proof fn lemma_analytics_flag_round_trip(enabled: bool)
    ensures
        (if enabled { "true"@ } else { "false"@ }) == "true"@ <==> enabled,
{
    reveal_strlit("true");
    reveal_strlit("false");
    assert("false"@.len() != "true"@.len());
}

} // verus!
