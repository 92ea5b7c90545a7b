//! Payload validation: a payload is rejected when a required field trims to
//! the empty string.

use vstd::prelude::*;
use vstd::string::StrSliceExecFns;
use crate::types::{DocumentPayload, Error, is_blank, is_space, payload_valid};

verus! {

/// True iff `s` trims to nothing, i.e. every character is whitespace.
pub fn trims_to_empty(s: &String) -> (r: bool)
    ensures
        r == is_blank(s@),
{
    let st: &str = s.as_str();
    let n = st.unicode_len();
    let mut i: usize = 0;
    while i < n
        invariant
            0 <= i <= n,
            n == s@.len(),
            st@ == s@,
            forall|j: int| 0 <= j < i ==> is_space(#[trigger] s@[j]),
        decreases n - i,
    {
        let c = st.get_char(i);
        let u = c as u32;
        let space = (0x9 <= u && u <= 0xD) || u == 0x20 || u == 0x85 || u == 0xA0
            || u == 0x1680 || (0x2000 <= u && u <= 0x200A) || u == 0x2028 || u == 0x2029
            || u == 0x202F || u == 0x205F || u == 0x3000;
        if !space {
            assert(!is_space(s@[i as int]));
            return false;
        }
        i += 1;
    }
    true
}

/// Accepts a payload exactly when, after trimming whitespace, none of
/// `title`, `description`, `file_url` and `metadata.change_summary` is
/// empty; a rejected payload is reported as `InvalidInput`, whose message
/// names the first failing field in that order.
pub fn validate_document_payload(payload: &DocumentPayload) -> (r: Result<(), Error>)
    ensures
        r is Ok <==> payload_valid(payload@),
        r matches Err(e) ==> e is InvalidInput,
        is_blank(payload@.title) ==> (r matches Err(Error::InvalidInput { msg }) && msg@
            == "Title cannot be empty"@),
        !is_blank(payload@.title) && is_blank(payload@.description) ==> (r matches Err(
            Error::InvalidInput { msg },
        ) && msg@ == "Description cannot be empty"@),
        !is_blank(payload@.title) && !is_blank(payload@.description) && is_blank(
            payload@.file_url,
        ) ==> (r matches Err(Error::InvalidInput { msg }) && msg@ == "File URL cannot be empty"@),
        !is_blank(payload@.title) && !is_blank(payload@.description) && !is_blank(
            payload@.file_url,
        ) && is_blank(payload@.metadata.change_summary) ==> (r matches Err(
            Error::InvalidInput { msg },
        ) && msg@ == "Change summary cannot be empty"@),
{
    if trims_to_empty(&payload.title) {
        return Err(Error::InvalidInput { msg: "Title cannot be empty".to_owned() });
    }
    if trims_to_empty(&payload.description) {
        return Err(Error::InvalidInput { msg: "Description cannot be empty".to_owned() });
    }
    if trims_to_empty(&payload.file_url) {
        return Err(Error::InvalidInput { msg: "File URL cannot be empty".to_owned() });
    }
    if trims_to_empty(&payload.metadata.change_summary) {
        return Err(Error::InvalidInput { msg: "Change summary cannot be empty".to_owned() });
    }
    Ok(())
}

} // verus!
