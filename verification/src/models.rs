//! The values handed to the user interface.

use vstd::prelude::*;
use vstd::string::StringExecFns;

verus! {

/// A region of the capture and the text read in it. The position is in pixels
/// of the capture; the text is empty where recognition failed.
#[derive(Clone, Debug, PartialEq, Eq)]
pub struct OcrBox {
    pub text: String,
    pub x: i32,
    pub y: i32,
    pub width: i32,
    pub height: i32,
}

impl OcrBox {
    /// The position is not negative and the box is not empty.
    pub open spec fn wf(&self) -> bool {
        self.x >= 0 && self.y >= 0 && self.width > 0 && self.height > 0
    }
}

/// An entry of the to-do list.
#[derive(Clone, Debug, PartialEq, Eq)]
pub struct Todo {
    pub id: i64,
    pub title: String,
    pub status: String,
    pub created_at: String,
}

/// The status that an entry takes when it is toggled.
pub open spec fn toggled(status: Seq<char>) -> Seq<char> {
    if status == "pending"@ {
        "done"@
    } else {
        "pending"@
    }
}

/// Toggling an entry: a pending one becomes done, any other becomes pending.
pub fn toggled_status(current_status: &String) -> (out: String)
    ensures
        out@ == toggled(current_status@),
{
    let pending = String::from_str("pending");
    if *current_status == pending {
        String::from_str("done")
    } else {
        pending
    }
}

} // verus!
