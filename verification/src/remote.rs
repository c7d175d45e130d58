//! What the library knows of the remote classifier: where it is asked.

use crate::chars::CharClass;
use crate::text::{append, chars_of, string_of, trim_end, trim_end_class};
use vstd::prelude::*;

verus! {

/// The path under which the classifier takes a conversation.
pub open spec fn chat_path() -> Seq<char> {
    "/chat/completions"@
}

/// The address at which the classifier is asked: the base address without
/// slashes at its end, and the path behind it.
pub open spec fn endpoint_of(base: Seq<char>) -> Seq<char> {
    trim_end(base, CharClass::Slash) + chat_path()
}

/// The address at which the classifier is asked, for a base address.
pub fn chat_endpoint(base: &str) -> (address: String)
    ensures
        address@ == endpoint_of(base@),
{
    let chars = chars_of(base);
    let mut address = trim_end_class(&chars, CharClass::Slash);
    let path = chars_of("/chat/completions");
    append(&mut address, &path);
    string_of(&address)
}

} // verus!
