//! Naming of detected keys.

use vstd::prelude::*;

verus! {

/// Display name of a key: its root, then "Major" or "Minor", e.g. "A Minor".
pub open spec fn key_name(root: Seq<char>, is_major: bool) -> Seq<char> {
    root + " "@ + if is_major { "Major"@ } else { "Minor"@ }
}

/// Display name of a key with root name `root`.
pub fn key_display_name(root: &str, is_major: bool) -> (name: String)
    ensures
        name@ == key_name(root@, is_major),
{
    let mut name = String::from_str(root);
    name.append(" ");
    name.append(if is_major { "Major" } else { "Minor" });
    name
}

} // verus!
