//! Whether the focused window sits on a special workspace: one whose name
//! carries the compositor's marker for such workspaces.

use vstd::prelude::*;
use vstd::string::StrSliceExecFns;

verus! {

/// `marker` stands in `name` from position `at` on.
pub open spec fn occurs_at(name: Seq<char>, marker: Seq<char>, at: int) -> bool {
    &&& 0 <= at
    &&& at + marker.len() <= name.len()
    &&& forall|k: int| 0 <= k < marker.len() ==> name[at + k] == marker[k]
}

/// `marker` stands somewhere in `name`.
pub open spec fn carries(name: Seq<char>, marker: Seq<char>) -> bool {
    exists|at: int| occurs_at(name, marker, at)
}

/// The marker by which the compositor names its special workspaces.
pub open spec fn special_marker() -> Seq<char> {
    "special"@
}

/// Whether a focused window on the workspace of the given name, if there is
/// a focused window at all, sits on a special workspace.
pub open spec fn sits_on_special(active_workspace: Option<&str>, marker: Seq<char>) -> bool {
    match active_workspace {
        Some(name) => carries(name@, marker),
        None => false,
    }
}

/// The characters of `text`, one by one.
pub fn chars_of(text: &str) -> (chars: Vec<char>)
    ensures
        chars@ == text@,
{
    let n: usize = text.unicode_len();
    let mut chars: Vec<char> = Vec::new();
    let mut i: usize = 0;
    while i < n
        invariant
            n == text@.len(),
            i <= n,
            chars@ == text@.take(i as int),
        decreases n - i,
    {
        chars.push(text.get_char(i));
        proof {
            assert(text@.take(i + 1) =~= text@.take(i as int).push(text@[i as int]));
        }
        i = i + 1;
    }
    proof {
        assert(text@.take(n as int) =~= text@);
    }
    chars
}

/// Whether `marker` stands in `name` at position `at`.
pub fn matches_at(name: &Vec<char>, marker: &Vec<char>, at: usize) -> (found: bool)
    requires
        at + marker.len() <= name.len(),
    ensures
        found == occurs_at(name@, marker@, at as int),
{
    let mut k: usize = 0;
    while k < marker.len()
        invariant
            at + marker.len() <= name.len(),
            k <= marker.len(),
            forall|j: int| 0 <= j < k ==> name[at + j] == marker[j],
        decreases marker.len() - k,
    {
        if name[at + k] != marker[k] {
            return false;
        }
        k = k + 1;
    }
    true
}

/// Whether `marker` stands somewhere in `name`. The empty marker stands in
/// every name.
pub fn name_carries(name: &str, marker: &str) -> (found: bool)
    ensures
        found == carries(name@, marker@),
{
    let name_chars: Vec<char> = chars_of(name);
    let marker_chars: Vec<char> = chars_of(marker);
    if marker_chars.len() > name_chars.len() {
        return false;
    }
    let last: usize = name_chars.len() - marker_chars.len();
    let mut at: usize = 0;
    while at <= last
        invariant
            name_chars@ == name@,
            marker_chars@ == marker@,
            last + marker_chars.len() == name_chars.len(),
            at <= last + 1,
            forall|k: int| 0 <= k < at ==> !occurs_at(name@, marker@, k),
        decreases last + 1 - at,
    {
        if matches_at(&name_chars, &marker_chars, at) {
            return true;
        }
        at = at + 1;
    }
    false
}

/// Whether the focused window sits on a special workspace, by a marker of
/// the caller's choice. `active_workspace` is the name of the workspace that
/// holds the focused window, or `None` where no window is focused.
pub fn is_special_by(active_workspace: Option<&str>, marker: &str) -> (special: bool)
    ensures
        special == sits_on_special(active_workspace, marker@),
        active_workspace is None ==> !special,
{
    match active_workspace {
        Some(name) => name_carries(name, marker),
        None => false,
    }
}

/// Whether the focused window sits on a special workspace, by the
/// compositor's usual marker.
pub fn is_special(active_workspace: Option<&str>) -> (special: bool)
    ensures
        special == sits_on_special(active_workspace, special_marker()),
        active_workspace is None ==> !special,
{
    is_special_by(active_workspace, "special")
}

} // verus!
