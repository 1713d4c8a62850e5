//! Checks on the service configuration.
use vstd::prelude::*;

use crate::text::{chars_of, is_ascii_upper};

verus! {

/// A Tidal country code is exactly two uppercase ASCII letters.
pub open spec fn valid_country_code(code: Seq<char>) -> bool {
    code.len() == 2 && is_ascii_upper(code[0]) && is_ascii_upper(code[1])
}

/// Accepts a configured Tidal country code, or says why it is refused.
pub fn check_tidal_country_code(country_code: String) -> (r: Result<String, &'static str>)
    ensures
        valid_country_code(country_code@) ==> r == Ok::<String, &'static str>(country_code),
        !valid_country_code(country_code@) ==> (r matches Err(m) && m@
            == "tidal_country_code must contain exactly 2 uppercase ASCII letters"@),
{
    let chars = chars_of(country_code.as_str());
    if chars.len() == 2 && 'A' <= chars[0] && chars[0] <= 'Z' && 'A' <= chars[1] && chars[1] <= 'Z' {
        Ok(country_code)
    } else {
        Err("tidal_country_code must contain exactly 2 uppercase ASCII letters")
    }
}

} // verus!
