use vstd::prelude::*;

use cosmwasm_std::Api;

verus! {

/// Characters in view of the mock validator's only normalization, ASCII
/// lowercasing, and of its NUL-byte padding: an ASCII identifier survives the
/// round trip iff it holds no uppercase letter and no NUL.
pub open spec fn addr_char_ok(c: char) -> bool {
    !(65 <= c as u32 <= 90) && c as u32 != 0
}

pub open spec fn is_ascii_seq(s: Seq<char>) -> bool {
    forall|i: int| 0 <= i < s.len() ==> #[trigger] (s[i] as u32) < 128
}

/// The ASCII identifiers the host environment's validator accepts:
/// 3 to 54 bytes, already normalized.
pub open spec fn mock_addr_valid(s: Seq<char>) -> bool {
    &&& 3 <= s.len() <= 54
    &&& forall|i: int| 0 <= i < s.len() ==> addr_char_ok(#[trigger] s[i])
}

/// The message the validator rejects an ASCII identifier with.
pub open spec fn mock_addr_err(s: Seq<char>) -> Seq<char> {
    if s.len() < 3 {
        "Invalid input: human address too short"@
    } else if s.len() > 54 {
        "Invalid input: human address too long"@
    } else {
        "Invalid input: address not normalized"@
    }
}

/// Relies on `cosmwasm_std::testing::MockApi::addr_validate`: it accepts
/// exactly the inputs of 3 to 54 bytes that its lowercase round trip leaves
/// unchanged — for ASCII, those with no uppercase letter and no NUL — and
/// returns the accepted input itself; a rejection carries the message of the
/// first check that failed (too short, too long, not normalized).
#[verifier::external_body]
pub fn validate_address(input: &str) -> (r: Result<String, String>)
    ensures
        match r {
            Ok(a) => a@ == input@ && (is_ascii_seq(input@) ==> mock_addr_valid(input@)),
            Err(m) => is_ascii_seq(input@) ==> !mock_addr_valid(input@) && m@ == mock_addr_err(
                input@,
            ),
        },
{
    match cosmwasm_std::testing::MockApi::default().addr_validate(input) {
        Ok(a) => Ok(a.into_string()),
        Err(cosmwasm_std::StdError::GenericErr { msg, .. }) => Err(msg),
        Err(e) => Err(e.to_string()),
    }
}

} // verus!
