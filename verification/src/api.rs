//! What the library decides about the completion-service exchange: how the
//! prompt strings are assembled from their pieces, and how a bounded retry
//! budget advances. The transport itself — the request, the wait between
//! attempts — is the caller's.

use vstd::prelude::*;

verus! {

/// The user-facing prompt: the serialized code files, the user's
/// instructions, and the fixed response-format directive, each in its
/// container.
pub fn compose_user_prompt(file_content: &str, user_prompt: &str, important: &str) -> (r: String)
    ensures
        r@ == "<code_files>"@ + file_content@ + "</code_files> <user_prompt>"@ + user_prompt@
            + "</user_prompt> <important>"@ + important@ + "</important>"@,
{
    let mut r = String::from_str("<code_files>");
    r.append(file_content);
    r.append("</code_files> <user_prompt>");
    r.append(user_prompt);
    r.append("</user_prompt> <important>");
    r.append(important);
    r.append("</important>");
    r
}

/// The system prompt: the fixed directive and the user's own system prompt,
/// each in its container.
pub fn compose_system_prompt(system_prompt: &str, user_system_prompt: &str) -> (r: String)
    ensures
        r@ == "<system_prompt>"@ + system_prompt@ + "</system_prompt> <user_system_prompt>"@
            + user_system_prompt@ + "</user_system_prompt>"@,
{
    let mut r = String::from_str("<system_prompt>");
    r.append(system_prompt);
    r.append("</system_prompt> <user_system_prompt>");
    r.append(user_system_prompt);
    r.append("</user_system_prompt>");
    r
}

/// The retry decision after a failed service call: with budget left, try
/// again with one attempt fewer; with none, surface the failure.
pub fn retry_step(retries_left: u32) -> (r: Option<u32>)
    ensures
        retries_left > 0 ==> r == Some((retries_left - 1) as u32),
        retries_left == 0 ==> r is None,
{
    if retries_left > 0 {
        Some(retries_left - 1)
    } else {
        None
    }
}

} // verus!
