//! The report of a dry run: one line for each path.

use crate::path::FsPath;
use crate::rules::PathClass;
use crate::text::{text_form, to_text_lossy};
use vstd::prelude::*;
use vstd::string::{StrSliceExecFns, StringExecFns};

verus! {

/// How wide the column of classes is.
pub const CLASS_WIDTH: usize = 20;

/// The name of a class.
pub open spec fn class_text(class: PathClass) -> Seq<char> {
    match class {
        PathClass::Hidden => "Hidden"@,
        PathClass::Blocked => "Blocked"@,
        PathClass::WritableOverlay => "WritableOverlay"@,
        PathClass::GitignoreFile => "GitignoreFile"@,
        PathClass::Passthrough => "Passthrough"@,
    }
}

/// Spaces.
pub open spec fn blanks(n: nat) -> Seq<char>
    decreases n,
{
    if n == 0 {
        Seq::<char>::empty()
    } else {
        blanks((n - 1) as nat) + " "@
    }
}

/// The line for a path: its class in a column of its own, then the path.
pub open spec fn report_text(class: PathClass, rel: Seq<u8>) -> Seq<char> {
    let name = class_text(class);
    name + blanks((CLASS_WIDTH - name.len()) as nat) + " "@ + text_form(rel)
}

/// The name of a class.
pub fn class_name(class: PathClass) -> (name: &'static str)
    ensures
        name@ == class_text(class),
        name@.len() <= CLASS_WIDTH,
{
    proof {
        reveal_strlit("Hidden");
        reveal_strlit("Blocked");
        reveal_strlit("WritableOverlay");
        reveal_strlit("GitignoreFile");
        reveal_strlit("Passthrough");
    }
    match class {
        PathClass::Hidden => "Hidden",
        PathClass::Blocked => "Blocked",
        PathClass::WritableOverlay => "WritableOverlay",
        PathClass::GitignoreFile => "GitignoreFile",
        PathClass::Passthrough => "Passthrough",
    }
}

/// The line for a path.
pub fn report_line(class: PathClass, rel: &FsPath) -> (line: String)
    ensures
        line@ == report_text(class, rel@),
{
    let name = class_name(class);
    let mut line = name.to_owned();
    let width: usize = CLASS_WIDTH - name.unicode_len();
    let mut i: usize = 0;
    assert(line@ =~= name@ + blanks(0));
    while i < width
        invariant
            i <= width,
            line@ == name@ + blanks(i as nat),
        decreases width - i,
    {
        line.append(" ");
        i += 1;
        assert(line@ =~= name@ + blanks(i as nat));
    }
    line.append(" ");
    line.append(&to_text_lossy(rel.as_bytes()));
    assert(line@ =~= report_text(class, rel@));
    line
}

/// The line that says how patterns are matched.
pub fn mode_line(case_sensitive: bool) -> (line: &'static str)
    ensures
        line@ == (if case_sensitive {
            "Matching mode: case-sensitive"@
        } else {
            "Matching mode: case-insensitive (default)"@
        }),
{
    if case_sensitive {
        "Matching mode: case-sensitive"
    } else {
        "Matching mode: case-insensitive (default)"
    }
}

} // verus!
