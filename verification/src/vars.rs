//! Settings that come as optional texts, such as environment variables.
use crate::text::{
    decimal, law_decimal_reads_back, number, number_up_to, parse_number, parse_truth, text_of,
    truth_value,
};
use vstd::prelude::*;
use vstd::string::*;

verus! {

/// The text of a variable that may be unset.
pub open spec fn setting(var: Option<&str>) -> Option<Seq<char>> {
    match var {
        Some(s) => Some(s@),
        None => None,
    }
}

/// The number that a variable sets, or `default` where it sets none up to `max`.
pub open spec fn number_setting(var: Option<Seq<char>>, max: nat, default: nat) -> nat {
    match var {
        Some(s) => match number_up_to(s, max) {
            Some(v) => v,
            None => default,
        },
        None => default,
    }
}

/// The truth value that a variable sets, or `default` where it sets none.
pub open spec fn truth_setting(var: Option<Seq<char>>, default: bool) -> bool {
    match var {
        Some(s) => match truth_value(s) {
            Some(v) => v,
            None => default,
        },
        None => default,
    }
}

/// The text of a variable, or `default` where it is unset.
pub open spec fn text_setting(var: Option<Seq<char>>, default: Seq<char>) -> Seq<char> {
    match var {
        Some(s) => s,
        None => default,
    }
}

/// A variable for reading.
pub fn read(var: &Option<String>) -> (r: Option<&str>)
    ensures
        setting(r) == text_of(*var),
{
    match var {
        Some(s) => Some(s.as_str()),
        None => None,
    }
}

/// The number that a variable sets, or `default` where it sets none up to `max`.
pub fn number_or(var: Option<&str>, max: u64, default: u64) -> (r: u64)
    ensures
        r == number_setting(setting(var), max as nat, default as nat),
{
    match var {
        Some(s) => match parse_number(s, max) {
            Some(v) => v,
            None => default,
        },
        None => default,
    }
}

/// The truth value that a variable sets, or `default` where it sets none.
pub fn truth_or(var: Option<&str>, default: bool) -> (r: bool)
    ensures
        r == truth_setting(setting(var), default),
{
    match var {
        Some(s) => match parse_truth(s) {
            Some(v) => v,
            None => default,
        },
        None => default,
    }
}

/// The text of a variable, or `default` where it is unset.
pub fn text_or(var: Option<&str>, default: &str) -> (r: String)
    ensures
        r@ == text_setting(setting(var), default@),
{
    match var {
        Some(s) => s.to_owned(),
        None => default.to_owned(),
    }
}

/// A variable that writes a number up to the limit sets that number; one that is unset, that
/// writes none or a greater one leaves the default.
pub proof fn law_number_settings(n: nat, s: Seq<char>, max: nat, default: nat)
    ensures
        n <= max ==> number_setting(Some(decimal(n)), max, default) == n,
        n > max ==> number_setting(Some(decimal(n)), max, default) == default,
        number(s) is None ==> number_setting(Some(s), max, default) == default,
        number_setting(None, max, default) == default,
{
    law_decimal_reads_back(n);
}

/// A variable sets a truth value exactly if it is `true` or `false`; any other text, or none,
/// leaves the default. A text that is set stands as it is.
pub proof fn law_truth_and_text_settings(s: Seq<char>, default: bool, text: Seq<char>)
    ensures
        truth_setting(Some("true"@), default),
        !truth_setting(Some("false"@), default),
        s != "true"@ && s != "false"@ ==> truth_setting(Some(s), default) == default,
        truth_setting(None, default) == default,
        text_setting(Some(s), text) == s,
        text_setting(None, text) == text,
{
    reveal_strlit("true");
    reveal_strlit("false");
    assert("true"@.len() != "false"@.len());
}

} // verus!
