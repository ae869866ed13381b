//! What holds of the arguments of the edit tool: in whichever way a call gives
//! its edits, the tool finds them in one list.

use vstd::prelude::*;

use crate::json::{member_of, member_position, with_member, without_member, JsonView};
use crate::tools::edit::{edit_pairs, edits_read, is_one_edit, prepared_arguments};
use crate::tools::edit_diff::Edit;

verus! {

// ---------------------------------------------------------------------------
// Members
// ---------------------------------------------------------------------------

proof fn lemma_member_of(members: Seq<(Seq<char>, JsonView)>, key: Seq<char>, from: int)
    requires
        0 <= from <= members.len(),
    ensures
        match member_position(members, key, from) {
            Some(i) => {
                &&& from <= i < members.len()
                &&& members[i].0 == key
                &&& member_of(members.skip(from), key) == Some(members[i].1)
                &&& forall|k: int| from <= k < i ==> (#[trigger] members[k]).0 != key
            },
            None => {
                &&& member_of(members.skip(from), key) is None
                &&& forall|k: int| from <= k < members.len() ==> (#[trigger] members[k]).0 != key
            },
        },
    decreases members.len() - from,
{
    if from < members.len() {
        assert(members.skip(from).drop_first() =~= members.skip(from + 1));
        assert(members.skip(from)[0] == members[from]);
        if members[from].0 != key {
            lemma_member_of(members, key, from + 1);
        }
    }
}

proof fn lemma_first_with_key(members: Seq<(Seq<char>, JsonView)>, key: Seq<char>, i: int)
    requires
        0 <= i < members.len(),
        members[i].0 == key,
        forall|k: int| 0 <= k < i ==> (#[trigger] members[k]).0 != key,
    ensures
        member_of(members, key) == Some(members[i].1),
{
    lemma_member_of(members, key, 0);
    assert(members.skip(0) =~= members);
    assert(member_position(members, key, 0) == Some(i));
}

proof fn lemma_no_key(members: Seq<(Seq<char>, JsonView)>, key: Seq<char>)
    requires
        forall|k: int| 0 <= k < members.len() ==> (#[trigger] members[k]).0 != key,
    ensures
        member_of(members, key) is None,
{
    lemma_member_of(members, key, 0);
    assert(members.skip(0) =~= members);
}

/// A member that is set is found under its key, and the others as before.
pub proof fn law_members_are_set(
    members: Seq<(Seq<char>, JsonView)>,
    key: Seq<char>,
    value: JsonView,
    other: Seq<char>,
)
    ensures
        member_of(with_member(members, key, value), key) == Some(value),
        other != key ==> member_of(with_member(members, key, value), other) == member_of(
            members,
            other,
        ),
{
    let all = with_member(members, key, value);
    lemma_member_of(members, key, 0);
    lemma_member_of(members, other, 0);
    assert(members.skip(0) =~= members);
    let at = match member_position(members, key, 0) {
        Some(i) => i,
        None => members.len() as int,
    };
    assert(all[at] == (key, value));
    assert forall|k: int| 0 <= k < at implies (#[trigger] all[k]).0 != key by {
        assert(all[k] == members[k]);
    }
    lemma_first_with_key(all, key, at);
    if other != key {
        match member_position(members, other, 0) {
            Some(i) => {
                assert(all[i] == members[i]);
                assert forall|k: int| 0 <= k < i implies (#[trigger] all[k]).0 != other by {
                    if k != at {
                        assert(all[k] == members[k]);
                    }
                }
                lemma_first_with_key(all, other, i);
            },
            None => {
                assert forall|k: int| 0 <= k < all.len() implies (#[trigger] all[k]).0
                    != other by {
                    if k != at {
                        assert(all[k] == members[k]);
                    }
                }
                lemma_no_key(all, other);
            },
        }
    }
}

proof fn lemma_member_of_push(
    members: Seq<(Seq<char>, JsonView)>,
    last: (Seq<char>, JsonView),
    key: Seq<char>,
)
    ensures
        member_of(members.push(last), key) == match member_of(members, key) {
            Some(v) => Some(v),
            None => if last.0 == key {
                Some(last.1)
            } else {
                None
            },
        },
    decreases members.len(),
{
    if members.len() == 0 {
        reveal_with_fuel(member_of, 2);
        assert(members.push(last).drop_first() =~= members);
    } else {
        assert(members.push(last).drop_first() =~= members.drop_first().push(last));
        lemma_member_of_push(members.drop_first(), last, key);
    }
}

/// A member that is removed is not found any more, and the others are as before.
pub proof fn law_members_are_removed(
    members: Seq<(Seq<char>, JsonView)>,
    key: Seq<char>,
    other: Seq<char>,
)
    ensures
        member_of(without_member(members, key), key) is None,
        other != key ==> member_of(without_member(members, key), other) == member_of(
            members,
            other,
        ),
    decreases members.len(),
{
    if members.len() > 0 {
        let front = members.drop_last();
        law_members_are_removed(front, key, other);
        assert(front.push(members.last()) =~= members);
        lemma_member_of_push(front, members.last(), other);
        lemma_member_of_push(without_member(front, key), members.last(), other);
        lemma_member_of_push(without_member(front, key), members.last(), key);
    }
}

// ---------------------------------------------------------------------------
// Arguments
// ---------------------------------------------------------------------------

proof fn lemma_keys()
    ensures
        "edits"@ != "oldText"@,
        "edits"@ != "newText"@,
        "oldText"@ != "newText"@,
{
    reveal_strlit("edits");
    reveal_strlit("oldText");
    reveal_strlit("newText");
    assert("edits"@[0] != "oldText"@[0]);
    assert("edits"@[0] != "newText"@[0]);
    assert("oldText"@[0] != "newText"@[0]);
}

/// Whether arguments hold an edit outside their list.
pub open spec fn edit_outside(input: JsonView) -> bool {
    &&& input.get("oldText"@) matches Some(JsonView::Text(_))
    &&& input.get("newText"@) matches Some(JsonView::Text(_))
}

proof fn lemma_listed(input: JsonView, spelled: Result<JsonView, Seq<char>>, key: Seq<char>)
    requires
        !edit_outside(input),
        key != "edits"@,
    ensures
        prepared_arguments(input, spelled).get(key) == input.get(key),
{
    lemma_keys();
    if let JsonView::Object(members) = input {
        if let Some(edits) = member_of(members, "edits"@) {
            let value = crate::tools::edit::spelled_edits(edits, spelled);
            law_members_are_set(members, "edits"@, value, key);
            law_members_are_set(members, "edits"@, value, "oldText"@);
            law_members_are_set(members, "edits"@, value, "newText"@);
        }
    }
}

/// Edits that come as a list stay that list, and those that come as the text of
/// a list become what the text spells. One edit that comes alone, as a value or
/// as a text, becomes a list of one. Anything else is left as it is.
pub proof fn law_edits_become_a_list(
    input: JsonView,
    edits: JsonView,
    spelled: Result<JsonView, Seq<char>>,
    key: Seq<char>,
)
    requires
        input.get("edits"@) == Some(edits),
        !edit_outside(input),
    ensures
        edits is Array ==> prepared_arguments(input, spelled).get("edits"@) == Some(edits),
        edits is Text && (spelled matches Ok(JsonView::Array(_))) ==> prepared_arguments(
            input,
            spelled,
        ).get("edits"@) == Some(spelled->Ok_0),
        edits is Text && spelled is Err ==> prepared_arguments(input, spelled).get("edits"@)
            == Some(edits),
        is_one_edit(edits) ==> prepared_arguments(input, spelled).get("edits"@) == Some(
            JsonView::Array(seq![edits]),
        ),
        edits is Text && (spelled matches Ok(v) && is_one_edit(v)) ==> prepared_arguments(
            input,
            spelled,
        ).get("edits"@) == Some(JsonView::Array(seq![spelled->Ok_0])),
        !(edits is Text) && !is_one_edit(edits) ==> prepared_arguments(input, spelled).get(
            "edits"@,
        ) == Some(edits),
        key != "edits"@ ==> prepared_arguments(input, spelled).get(key) == input.get(key),
{
    lemma_keys();
    if let JsonView::Object(members) = input {
        let value = crate::tools::edit::spelled_edits(edits, spelled);
        law_members_are_set(members, "edits"@, value, "oldText"@);
        law_members_are_set(members, "edits"@, value, "newText"@);
    }
    if key != "edits"@ {
        lemma_listed(input, spelled, key);
    }
}

/// One edit is a value whose old text and new text are both texts.
pub proof fn law_what_one_edit_is(value: JsonView)
    ensures
        is_one_edit(value) <==> edit_outside(value),
        is_one_edit(value) ==> value is Object,
{
}

/// An edit that stands outside the list is put behind those that are listed,
/// and is found nowhere else. The other arguments stay as they are.
pub proof fn law_edits_outside_join_the_list(
    input: JsonView,
    listed: Seq<JsonView>,
    old_text: Seq<char>,
    new_text: Seq<char>,
    spelled: Result<JsonView, Seq<char>>,
    key: Seq<char>,
)
    requires
        input.get("oldText"@) == Some(JsonView::Text(old_text)),
        input.get("newText"@) == Some(JsonView::Text(new_text)),
        input.get("edits"@) == Some(JsonView::Array(listed)) || (input.get("edits"@) is None
            && listed.len() == 0),
    ensures
        ({
            let prepared = prepared_arguments(input, spelled);
            &&& prepared.get("edits"@) matches Some(JsonView::Array(items)) && {
                &&& items.len() == listed.len() + 1
                &&& items.take(listed.len() as int) == listed
                &&& items.last().get("oldText"@) == Some(JsonView::Text(old_text))
                &&& items.last().get("newText"@) == Some(JsonView::Text(new_text))
            }
            &&& prepared.get("oldText"@) is None
            &&& prepared.get("newText"@) is None
            &&& key != "edits"@ && key != "oldText"@ && key != "newText"@ ==> prepared.get(key)
                == input.get(key)
        }),
{
    lemma_keys();
    if let JsonView::Object(members) = input {
        let item = crate::tools::edit::edit_value(old_text, new_text);
        let first = crate::tools::edit::with_edit_list(members, spelled);
        if let Some(edits) = member_of(members, "edits"@) {
            law_members_are_set(members, "edits"@, edits, "oldText"@);
            law_members_are_set(members, "edits"@, edits, "newText"@);
            law_members_are_set(members, "edits"@, edits, key);
        }
        assert(listed =~= match member_of(first, "edits"@) {
            Some(JsonView::Array(items)) => items,
            _ => Seq::empty(),
        });
        let second = without_member(first, "oldText"@);
        let third = without_member(second, "newText"@);
        law_members_are_removed(first, "oldText"@, "newText"@);
        law_members_are_removed(first, "oldText"@, key);
        law_members_are_removed(second, "newText"@, "oldText"@);
        law_members_are_removed(second, "newText"@, key);
        let value = JsonView::Array(listed.push(item));
        law_members_are_set(third, "edits"@, value, "oldText"@);
        law_members_are_set(third, "edits"@, value, "newText"@);
        law_members_are_set(third, "edits"@, value, key);
        assert(listed.push(item).take(listed.len() as int) =~= listed);
        let parts = seq![
            ("oldText"@, JsonView::Text(old_text)),
            ("newText"@, JsonView::Text(new_text)),
        ];
        assert(item == JsonView::Object(parts));
        lemma_first_with_key(parts, "oldText"@, 0);
        lemma_first_with_key(parts, "newText"@, 1);
    }
}

/// Arguments that are no object are left as they are, and so are those without
/// any edit.
pub proof fn law_other_arguments_are_kept(
    input: JsonView,
    spelled: Result<JsonView, Seq<char>>,
)
    requires
        !(input is Object) || (input.get("edits"@) is None && !edit_outside(input)),
    ensures
        prepared_arguments(input, spelled) == input,
{
}

/// The edits that are read are those of the list, each with its two texts, in
/// order.
pub proof fn law_edits_are_read_in_order(items: Seq<JsonView>, edits: Seq<Edit>, i: int)
    requires
        edit_pairs(edits) == edits_read(items),
    ensures
        edits.len() == items.len(),
        0 <= i < items.len() ==> {
            &&& items[i].get("oldText"@) matches Some(JsonView::Text(t)) ==> edits[i].old_text@
                == t
            &&& items[i].get("newText"@) matches Some(JsonView::Text(t)) ==> edits[i].new_text@
                == t
        },
{
    assert(edit_pairs(edits).len() == edits.len());
    assert(edits_read(items).len() == items.len());
    if 0 <= i < items.len() {
        assert(edit_pairs(edits)[i] == (edits[i].old_text@, edits[i].new_text@));
        assert(edits_read(items)[i] == (
            items[i].text_field("oldText"@),
            items[i].text_field("newText"@),
        ));
    }
}

} // verus!
