//! What holds of forks: where they end, and what they copy.

use vstd::prelude::*;

use crate::session::fork::{renumbered, selection};
use crate::session::state::{walk, SessionView};
use crate::session::types::{
    entry_by_id, Entry, ForkOptions, ForkPosition, SessionErrorCode,
};

verus! {

/// The tree is forked as it is.
pub proof fn law_trees_are_copied_whole(s: SessionView)
    ensures
        selection(s, ForkOptions::Tree) matches Ok(chosen) && chosen.entries == s.entries
            && chosen.lanes == s.lanes,
{
}

/// A fork of a branch at a message copies the entries from the root to the
/// message where the message is to be kept, and to the one before it where it is
/// not. A message that was chosen is left out, and the last one of the main lane
/// is kept, unless told otherwise. What is no message is no place for a fork.
pub proof fn law_forks_end_where_they_are_told(
    s: SessionView,
    id: Option<String>,
    position: Option<ForkPosition>,
    at: Seq<char>,
)
    requires
        match id {
            Some(chosen) => chosen@ == at,
            None => s.lanes[0].leaf == Some(at),
        },
    ensures
        match entry_by_id(s.entries, at) {
            Some(Entry::Message { parent_id, .. }) => {
                let kept = match position {
                    Some(ForkPosition::At) => true,
                    Some(ForkPosition::Before) => false,
                    None => id is None,
                };
                let end = if kept {
                    Some(entry_by_id(s.entries, at)->0.spec_id())
                } else {
                    match parent_id {
                        Some(parent) => Some(parent@),
                        None => None,
                    }
                };
                selection(s, ForkOptions::Branch { entry_id: id, position }) matches Ok(chosen) && {
                    &&& chosen.lanes.len() == 1
                    &&& chosen.lanes[0].lane == "main"@
                    &&& chosen.lanes[0].leaf == end
                    &&& end matches Some(last) ==> chosen.entries.reverse() == walk(
                        s.entries,
                        last,
                        None,
                        None,
                    )
                    &&& end is None ==> chosen.entries.len() == 0
                }
            },
            _ => selection(s, ForkOptions::Branch { entry_id: id, position }) matches Err(e)
                && e.code == SessionErrorCode::InvalidForkTarget && e.message
                == "Fork target is not a message entry: "@ + at,
        },
{
    if let Ok(chosen) = selection(s, ForkOptions::Branch { entry_id: id, position }) {
        if let Some(last) = chosen.lanes[0].leaf {
            let path = walk(s.entries, last, None, None);
            assert(path.reverse().reverse() =~= path);
        }
    }
}

/// An empty session can be forked, to an empty one.
pub proof fn law_nothing_can_be_forked(s: SessionView, position: Option<ForkPosition>)
    requires
        s.lanes[0].leaf is None,
    ensures
        selection(s, ForkOptions::Branch { entry_id: None, position }) matches Ok(chosen)
            && chosen.entries.len() == 0 && chosen.lanes.len() == 1 && chosen.lanes[0].leaf is None
            && chosen.lanes[0].lane == "main"@,
{
}

/// A copied entry differs from its source in its number alone.
pub proof fn law_copies_differ_in_their_number(entry: Entry, number: u64)
    ensures
        renumbered(entry, number).spec_seq() == number,
        renumbered(entry, number).spec_id() == entry.spec_id(),
        renumbered(entry, number).spec_parent() == entry.spec_parent(),
        renumbered(entry, number).spec_type() == entry.spec_type(),
        renumbered(renumbered(entry, number), entry.spec_seq()) == entry,
{
}

} // verus!
