//! OpenAI-compatible API types.

use vstd::prelude::*;
use vstd::string::*;

pub mod annotations;
pub mod chat_message;
pub mod chat_request;
pub mod responses;
pub mod to_ir;

verus! {

/// The id of a legacy completion with unique part `uuid`.
pub fn new_completion_id(uuid: &str) -> (id: String)
    ensures
        id@ == "cmpl-"@ + uuid@,
{
    let mut id: String = "cmpl-".to_owned();
    id.append(uuid);
    id
}

/// The id of a chat chunk with unique part `uuid`.
pub fn new_chunk_id(uuid: &str) -> (id: String)
    ensures
        id@ == "chatcmpl-"@ + uuid@,
{
    let mut id: String = "chatcmpl-".to_owned();
    id.append(uuid);
    id
}

} // verus!
