//! Identifier validation and the active-pointer file format.
//!
//! Profile ids become file names, so they are restricted to ASCII
//! alphanumerics, hyphen and underscore; anything else is rejected before
//! any path is formed.

use vstd::prelude::*;
use vstd::utf8::encode_utf8;
use crate::err::StoreError;

verus! {

broadcast use vstd::std_specs::vec::group_vec_axioms;

/// Whether one UTF-8 byte is allowed in a profile id.
pub open spec fn id_byte(b: u8) -> bool {
    (48 <= b <= 57)  // digit
    || (65 <= b <= 90)  // upper-case letter
    || (97 <= b <= 122)  // lower-case letter
    || b == 45  // hyphen
    || b == 95  // underscore
}

/// A filename-safe profile id: non-empty, only ASCII alphanumerics,
/// hyphen and underscore.
pub open spec fn valid_id(s: Seq<char>) -> bool {
    &&& encode_utf8(s).len() > 0
    &&& forall|i: int| 0 <= i < encode_utf8(s).len() ==> id_byte(#[trigger] encode_utf8(s)[i])
}

/// Checks that `id` may be used as a file name.
#[verifier::loop_isolation(false)]
pub fn validate_profile_id(id: &str) -> (r: Result<(), StoreError>)
    ensures
        r is Ok <==> valid_id(id@),
        r is Err ==> r->Err_0 is InvalidIdentifier,
{
    let bs = id.as_bytes_vec();
    if bs.len() == 0 {
        return Err(StoreError::InvalidIdentifier);
    }
    let n = bs.len();
    let mut i: usize = 0;
    while i < n
        invariant
            0 <= i <= n,
            forall|j: int| 0 <= j < i ==> id_byte(#[trigger] bs@[j]),
        decreases n - i,
    {
        let b = bs[i];
        let ok = (48 <= b && b <= 57) || (65 <= b && b <= 90) || (97 <= b && b <= 122) || b == 45
            || b == 95;
        if !ok {
            return Err(StoreError::InvalidIdentifier);
        }
        i = i + 1;
    }
    Ok(())
}

/// What a pointer file's content means: `None` when the file is absent or
/// holds only whitespace, otherwise the trimmed id.
pub open spec fn pointer_of(text: Option<Seq<char>>) -> Option<Seq<char>> {
    match text {
        Option::None => Option::None,
        Option::Some(s) => if crate::trusted::trimmed_of(s).len() == 0 {
            Option::None
        } else {
            Option::Some(crate::trusted::trimmed_of(s))
        },
    }
}

/// Reads the active-pointer state out of the pointer file's content
/// (`None` when the file does not exist).
pub fn parse_pointer(text: Option<String>) -> (r: Option<String>)
    ensures
        match r {
            Option::None => pointer_of(view_opt(text)) is None,
            Option::Some(id) => pointer_of(view_opt(text)) == Option::Some(id@),
        },
{
    match text {
        Option::None => Option::None,
        Option::Some(s) => {
            let t = crate::trusted::str_trim(s.as_str());
            if t.as_str().is_empty() {
                Option::None
            } else {
                Option::Some(t)
            }
        },
    }
}

/// The view of an optional string.
pub open spec fn view_opt(text: Option<String>) -> Option<Seq<char>> {
    match text {
        Option::None => Option::None,
        Option::Some(s) => Option::Some(s@),
    }
}

} // verus!
