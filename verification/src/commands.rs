//! The commands a user types: their arguments, the `group` command's
//! sub-commands, and what each group sub-command writes to a group file.
use vstd::prelude::*;

use crate::groups::{add_members, remove_members, with_added, without};
use crate::json::{from_json, json_string_list, pretty_json_strings, to_pretty_json};
use crate::text::{contains, occurs_in, parse_u32, parse_u32_spec, split_words, words};

verus! {

/// The arguments of a command line: its words after the first.
pub fn get_args(s: String) -> (args: Vec<String>)
    requires
        words(s@).len() >= 1,
    ensures
        args.deep_view() == words(s@).drop_first(),
{
    let mut words = split_words(s.as_str());
    let ghost all = words.deep_view();
    words.remove(0);
    assert(words.deep_view() =~= all.drop_first());
    words
}

/// A sub-command of `group`.
#[derive(PartialEq, Eq, Structural, Clone, Copy, Debug)]
pub enum GroupAction {
    New,
    Delete,
    List,
    Remove,
    Add,
}

/// `seq![action]` when `chosen`, else nothing.
pub open spec fn chosen_action(chosen: bool, action: GroupAction) -> Seq<GroupAction> {
    if chosen {
        seq![action]
    } else {
        Seq::empty()
    }
}

/// The sub-commands that a `group` argument selects, in the order they
/// run: each whose keyword (`new`, `delete`, `list`, `remove`, `add`)
/// occurs in the argument.
pub open spec fn group_actions(arg: Seq<char>) -> Seq<GroupAction> {
    chosen_action(occurs_in(arg, seq!['n', 'e', 'w']), GroupAction::New) + chosen_action(
        occurs_in(arg, seq!['d', 'e', 'l', 'e', 't', 'e']),
        GroupAction::Delete,
    ) + chosen_action(occurs_in(arg, seq!['l', 'i', 's', 't']), GroupAction::List)
        + chosen_action(occurs_in(arg, seq!['r', 'e', 'm', 'o', 'v', 'e']), GroupAction::Remove)
        + chosen_action(occurs_in(arg, seq!['a', 'd', 'd']), GroupAction::Add)
}

/// The sub-commands that the `group` command line `s` runs, in order,
/// chosen by its first argument.
pub fn group(s: String) -> (actions: Vec<GroupAction>)
    requires
        words(s@).len() >= 2,
    ensures
        actions@ == group_actions(words(s@)[1]),
{
    proof {
        reveal_strlit("new");
        reveal_strlit("delete");
        reveal_strlit("list");
        reveal_strlit("remove");
        reveal_strlit("add");
        assert("new"@ =~= seq!['n', 'e', 'w']);
        assert("delete"@ =~= seq!['d', 'e', 'l', 'e', 't', 'e']);
        assert("list"@ =~= seq!['l', 'i', 's', 't']);
        assert("remove"@ =~= seq!['r', 'e', 'm', 'o', 'v', 'e']);
        assert("add"@ =~= seq!['a', 'd', 'd']);
    }
    let ghost w = words(s@);
    let args = get_args(s);
    assert(args.deep_view().len() == args@.len());
    assert(args.deep_view()[0] == args@[0]@);
    let arg = args[0].as_str();
    assert(arg@ == w[1]);
    let mut actions: Vec<GroupAction> = Vec::new();
    if contains(arg, "new") {
        actions.push(GroupAction::New);
    }
    if contains(arg, "delete") {
        actions.push(GroupAction::Delete);
    }
    if contains(arg, "list") {
        actions.push(GroupAction::List);
    }
    if contains(arg, "remove") {
        actions.push(GroupAction::Remove);
    }
    if contains(arg, "add") {
        actions.push(GroupAction::Add);
    }
    assert(actions@ =~= group_actions(w[1]));
    actions
}

/// Why a group file could not be updated.
#[derive(PartialEq, Eq, Structural, Clone, Copy, Debug)]
pub enum GroupError {
    /// The stored group text is not a JSON list of strings.
    UnreadableGroup,
}

/// What a group sub-command writes: the group's name, which names its
/// file, and the file's new text.
pub struct GroupFile {
    pub name: String,
    pub contents: String,
}

/// The text written for a group with `members`, and that reading it back
/// gives the same members.
pub open spec fn group_file_holds(f: GroupFile, name: Seq<char>, members: Seq<Seq<char>>) -> bool {
    &&& f.name@ == name
    &&& f.contents@ == pretty_json_strings(members)
    &&& json_string_list(f.contents@) == Some(members)
}

fn group_file(name: String, members: &Vec<String>) -> (f: GroupFile)
    ensures
        group_file_holds(f, name@, members.deep_view()),
{
    match to_pretty_json(members) {
        Ok(contents) => GroupFile { name, contents },
        Err(_) => vstd::pervasive::unreached(),
    }
}

/// The name of the group that a group command line names: its third word.
pub fn delete_group(s: String) -> (name: String)
    requires
        words(s@).len() >= 3,
    ensures
        name@ == words(s@)[2],
{
    let args = get_args(s);
    assert(args.deep_view().len() == args@.len());
    assert(args.deep_view()[1] == args@[1]@);
    args[1].clone()
}

/// The members held in a group file's text.
pub fn get_group(stored: &str) -> (r: Result<Vec<String>, GroupError>)
    ensures
        match json_string_list(stored@) {
            Some(members) => r matches Ok(v) && v.deep_view() == members,
            None => r == Err::<Vec<String>, GroupError>(GroupError::UnreadableGroup),
        },
{
    match from_json(stored) {
        Ok(members) => Ok(members),
        Err(_) => Err(GroupError::UnreadableGroup),
    }
}

/// The group name and the values that follow it in a group command line:
/// its third word and the words after that.
fn name_and_values(s: String) -> (r: (String, Vec<String>))
    requires
        words(s@).len() >= 3,
    ensures
        r.0@ == words(s@)[2],
        r.1.deep_view() == words(s@).skip(3),
{
    let ghost w = words(s@);
    let mut args = get_args(s);
    assert(args.deep_view().len() == args@.len());
    assert(args.deep_view()[1] == args@[1]@);
    let name = args[1].clone();
    let ghost before = args@;
    let ghost dv = args.deep_view();
    let values = args.split_off(2);
    assert forall|i: int| 0 <= i < values@.len() implies #[trigger] values@[i]@ == w.skip(3)[i] by {
        assert(values@[i] == before[i + 2]);
        assert(dv[i + 2] == before[i + 2]@);
    }
    assert(values.deep_view() =~= w.skip(3));
    (name, values)
}

/// The new group file for `group new <name> <members...>`: the members
/// are the words after the name.
pub fn new_group(s: String) -> (f: GroupFile)
    requires
        words(s@).len() >= 3,
    ensures
        group_file_holds(f, words(s@)[2], words(s@).skip(3)),
{
    let (name, members) = name_and_values(s);
    group_file(name, &members)
}

/// The group file after `group remove <name> <values...>`: the members in
/// `stored` without any of the values, order kept.
pub fn remove_from_group(s: String, stored: &str) -> (r: Result<GroupFile, GroupError>)
    requires
        words(s@).len() >= 3,
    ensures
        match json_string_list(stored@) {
            None => r matches Err(e) && e == GroupError::UnreadableGroup,
            Some(members) => r matches Ok(f) && group_file_holds(
                f,
                words(s@)[2],
                without(members, words(s@).skip(3)),
            ),
        },
{
    let (name, values) = name_and_values(s);
    let members = match get_group(stored) {
        Ok(m) => m,
        Err(e) => return Err(e),
    };
    let kept = remove_members(&members, &values);
    Ok(group_file(name, &kept))
}

/// The group file after `group add <name> <values...>`: each value not
/// yet a member is appended, in order.
pub fn add_to_group(s: String, stored: &str) -> (r: Result<GroupFile, GroupError>)
    requires
        words(s@).len() >= 3,
    ensures
        match json_string_list(stored@) {
            None => r matches Err(e) && e == GroupError::UnreadableGroup,
            Some(members) => r matches Ok(f) && group_file_holds(
                f,
                words(s@)[2],
                with_added(members, words(s@).skip(3)),
            ),
        },
{
    let (name, values) = name_and_values(s);
    let mut members = match get_group(stored) {
        Ok(m) => m,
        Err(e) => return Err(e),
    };
    add_members(&mut members, &values);
    Ok(group_file(name, &members))
}

/// The error `next` and `listen` give for an argument that is not a number.
pub open spec fn invalid_number_message() -> Seq<char> {
    "epic fail, input was not a valid number"@
}

/// The error the satellite queries give for an identifier that is not a
/// number.
pub open spec fn invalid_id_message() -> Seq<char> {
    "failed to parse int"@
}

/// The number that an argument of `next` or `listen` (a catalogue number
/// or a frequency in hertz) gives.
pub fn number_argument(arg: &str) -> (r: Result<u32, String>)
    ensures
        match parse_u32_spec(arg@) {
            Some(n) => r == Ok::<u32, String>(n),
            None => r matches Err(m) && m@ == invalid_number_message(),
        },
{
    match parse_u32(arg) {
        Some(n) => Ok(n),
        None => Err(String::from_str("epic fail, input was not a valid number")),
    }
}

/// The catalogue number that a satellite query's argument gives.
pub fn id_argument(arg: &str) -> (r: Result<u32, String>)
    ensures
        match parse_u32_spec(arg@) {
            Some(n) => r == Ok::<u32, String>(n),
            None => r matches Err(m) && m@ == invalid_id_message(),
        },
{
    match parse_u32(arg) {
        Some(n) => Ok(n),
        None => Err(String::from_str("failed to parse int")),
    }
}

/// The lines of the command help.
pub fn help() -> (lines: Vec<String>)
    ensures
        lines.deep_view() == seq![
            "commands:"@,
            "next [NORAD_ID] \t finds the next pass of the satellite with a given NORAD_ID"@,
            "listen [NORAD_ID] [FREQ_HZ] \t connects with rigctl server to automatically calculate doppler shift and listen at correct frequently"@,
        ],
{
    let mut lines: Vec<String> = Vec::new();
    lines.push(String::from_str("commands:"));
    lines.push(
        String::from_str(
            "next [NORAD_ID] \t finds the next pass of the satellite with a given NORAD_ID",
        ),
    );
    lines.push(
        String::from_str(
            "listen [NORAD_ID] [FREQ_HZ] \t connects with rigctl server to automatically calculate doppler shift and listen at correct frequently",
        ),
    );
    assert(lines.deep_view() =~= seq![
        "commands:"@,
        "next [NORAD_ID] \t finds the next pass of the satellite with a given NORAD_ID"@,
        "listen [NORAD_ID] [FREQ_HZ] \t connects with rigctl server to automatically calculate doppler shift and listen at correct frequently"@,
    ]);
    lines
}


/// The place of each sub-command in the order the sub-commands run.
pub open spec fn action_rank(a: GroupAction) -> int {
    match a {
        GroupAction::New => 0,
        GroupAction::Delete => 1,
        GroupAction::List => 2,
        GroupAction::Remove => 3,
        GroupAction::Add => 4,
    }
}

/// Each sub-command runs exactly when its own keyword occurs in the
/// argument, at most once, and they run in the order new, delete, list,
/// remove, add.
pub proof fn law_group_actions_by_keyword(arg: Seq<char>)
    ensures
        group_actions(arg).contains(GroupAction::New) <==> occurs_in(arg, seq!['n', 'e', 'w']),
        group_actions(arg).contains(GroupAction::Delete) <==> occurs_in(
            arg,
            seq!['d', 'e', 'l', 'e', 't', 'e'],
        ),
        group_actions(arg).contains(GroupAction::List) <==> occurs_in(arg, seq!['l', 'i', 's', 't']),
        group_actions(arg).contains(GroupAction::Remove) <==> occurs_in(
            arg,
            seq!['r', 'e', 'm', 'o', 'v', 'e'],
        ),
        group_actions(arg).contains(GroupAction::Add) <==> occurs_in(arg, seq!['a', 'd', 'd']),
        forall|i: int, j: int|
            0 <= i < j < group_actions(arg).len() ==> action_rank(#[trigger] group_actions(arg)[i])
                < action_rank(#[trigger] group_actions(arg)[j]),
{
    let k_new = seq!['n', 'e', 'w'];
    let k_delete = seq!['d', 'e', 'l', 'e', 't', 'e'];
    let k_list = seq!['l', 'i', 's', 't'];
    let k_remove = seq!['r', 'e', 'm', 'o', 'v', 'e'];
    let k_add = seq!['a', 'd', 'd'];
    let s0 = Seq::<GroupAction>::empty();
    lemma_append_chosen(s0, occurs_in(arg, k_new), GroupAction::New);
    let s1 = s0 + chosen_action(occurs_in(arg, k_new), GroupAction::New);
    lemma_append_chosen(s1, occurs_in(arg, k_delete), GroupAction::Delete);
    let s2 = s1 + chosen_action(occurs_in(arg, k_delete), GroupAction::Delete);
    lemma_append_chosen(s2, occurs_in(arg, k_list), GroupAction::List);
    let s3 = s2 + chosen_action(occurs_in(arg, k_list), GroupAction::List);
    lemma_append_chosen(s3, occurs_in(arg, k_remove), GroupAction::Remove);
    let s4 = s3 + chosen_action(occurs_in(arg, k_remove), GroupAction::Remove);
    lemma_append_chosen(s4, occurs_in(arg, k_add), GroupAction::Add);
    let s5 = s4 + chosen_action(occurs_in(arg, k_add), GroupAction::Add);
    assert(s1 =~= chosen_action(occurs_in(arg, k_new), GroupAction::New));
    assert(group_actions(arg) =~= s5);
}

/// The actions run in rank order.
pub open spec fn ranked(s: Seq<GroupAction>) -> bool {
    forall|i: int, j: int| 0 <= i < j < s.len() ==> action_rank(#[trigger] s[i]) < action_rank(
        #[trigger] s[j],
    )
}

proof fn lemma_append_chosen(s: Seq<GroupAction>, b: bool, x: GroupAction)
    requires
        ranked(s),
        forall|i: int| 0 <= i < s.len() ==> action_rank(#[trigger] s[i]) < action_rank(x),
    ensures
        ranked(s + chosen_action(b, x)),
        forall|i: int|
            0 <= i < (s + chosen_action(b, x)).len() ==> action_rank(
                #[trigger] (s + chosen_action(b, x))[i],
            ) <= action_rank(x),
        forall|y: GroupAction|
            #![trigger (s + chosen_action(b, x)).contains(y)]
            (s + chosen_action(b, x)).contains(y) <==> s.contains(y) || (b && y == x),
{
    let r = s + chosen_action(b, x);
    if b {
        assert(r =~= s.push(x));
        assert forall|y: GroupAction| r.contains(y) <==> s.contains(y) || y == x by {
            if r.contains(y) {
                let k = choose|k: int| 0 <= k < r.len() && r[k] == y;
                if k < s.len() {
                    assert(s[k] == y);
                }
            }
            if s.contains(y) {
                let k = choose|k: int| 0 <= k < s.len() && s[k] == y;
                assert(r[k] == y);
            }
            if y == x {
                assert(r[s.len() as int] == x);
            }
        }
    } else {
        assert(r =~= s);
    }
}

} // verus!
