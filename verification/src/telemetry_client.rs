//! The telemetry endpoint that the recorder's window listens to.
use crate::text;
use crate::text::trim;
use vstd::prelude::*;

verus! {

/// The telemetry endpoint to connect to, or none where telemetry is not configured:
/// there is no default. White space round the address does not count.
pub fn resolve_addr(env_value: Option<String>) -> (r: Option<String>)
    ensures
        text::opt_view(r) == match env_value {
            Some(v) => if text::trimmed(v@).len() == 0 {
                None
            } else {
                Some(text::trimmed(v@))
            },
            None => None,
        },
{
    match env_value {
        Some(v) => {
            let address = trim(v.as_str());
            if address.as_str().unicode_len() == 0 {
                None
            } else {
                Some(address)
            }
        },
        None => None,
    }
}

/// What is handed on of a line that came in: nothing of a blank one, else the line
/// without the white space at its end.
pub fn forwarded(line: &str) -> (r: Option<String>)
    ensures
        text::opt_view(r) == if text::trimmed_end(line@).len() == 0 {
            None
        } else {
            Some(text::trimmed_end(line@))
        },
{
    let s = text::trim_end(line);
    if s.as_str().unicode_len() == 0 {
        None
    } else {
        Some(s)
    }
}

/// An address is what was set, without white space around it; there is none exactly
/// where nothing but white space was set.
pub proof fn addresses_are_trimmed(value: String, r: Option<String>)
    requires
        call_ensures(resolve_addr, (Some(value),), r),
    ensures
        r is None <==> text::all_space(value@),
        r matches Some(a) ==> a@.len() > 0 && !text::is_space(a@[0]) && !text::is_space(a@.last()),
        r matches Some(a) ==> exists|before: Seq<char>, after: Seq<char>|
            text::all_space(before) && text::all_space(after) && value@ == #[trigger] (before + a@
                + after),
{
    let (before, after) = text::trimming_takes_only_space(value@);
    match r {
        Some(a) => {
            assert(value@ == before + a@ + after);
        },
        None => {},
    }
}

/// Without a setting there is no address.
pub proof fn there_is_no_default_address(r: Option<String>)
    requires
        call_ensures(resolve_addr, (None,), r),
    ensures
        r is None,
{
}

/// A line is handed on without the white space at its end and otherwise unchanged.
pub proof fn lines_lose_only_their_end(line: &str, r: Option<String>)
    requires
        call_ensures(forwarded, (line,), r),
    ensures
        r matches Some(s) ==> s@.len() > 0 && !text::is_space(s@.last()) && exists|end: Seq<char>|
            text::all_space(end) && line@ == #[trigger] (s@ + end),
        r is None ==> text::all_space(line@),
{
    let end = text::end_trimming_takes_only_space(line@);
    match r {
        Some(s) => {
            assert(line@ == s@ + end);
        },
        None => {
            assert(line@ =~= end);
        },
    }
}

} // verus!
