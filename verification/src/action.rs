//! The action registry: a fixed table from small integer codes to dotted
//! action names. Slots named `"reserved"` are unassigned; they keep room for
//! new actions next to their relatives without renumbering the others.

use vstd::prelude::*;
use vstd::string::StringExecFns;

verus! {

/// Number of slots in the table.
pub const ACTIONS_LEN: usize = 72;

/// The name that marks an unassigned slot.
pub const RESERVED: &'static str = "reserved";

/// The table itself. A code is an index into it.
pub const ACTIONS: [&'static str; 72] = [
    "sys.create.user",
    "sys.update.user",
    "sys.update.group",
    "sys.update.creation",
    "reserved",
    "reserved",
    "reserved",
    "reserved",
    "user.login",
    "user.authz",
    "user.update",
    "user.update.cn",
    "user.logout",
    "user.collect",
    "user.follow",
    "user.subscribe",
    "user.sponsor",
    "reserved",
    "reserved",
    "reserved",
    "reserved",
    "reserved",
    "reserved",
    "reserved",
    "group.create",
    "group.update",
    "group.update.cn",
    "group.transfer",
    "group.delete",
    "group.create.user",
    "group.update.user",
    "group.add.member",
    "group.update.member",
    "group.remove.member",
    "reserved",
    "reserved",
    "reserved",
    "reserved",
    "reserved",
    "reserved",
    "creation.create",
    "creation.create.converting",
    "creation.create.scraping",
    "creation.update",
    "creation.update.content",
    "creation.release",
    "creation.delete",
    "creation.assist",
    "creation.transfer",
    "reserved",
    "reserved",
    "reserved",
    "reserved",
    "reserved",
    "reserved",
    "reserved",
    "publication.create",
    "publication.update",
    "publication.update.content",
    "publication.publish",
    "publication.delete",
    "publication.assist",
    "reserved",
    "reserved",
    "reserved",
    "reserved",
    "reserved",
    "reserved",
    "reserved",
    "reserved",
    "reserved",
    "reserved",
];

/// The name of code `code`: the table's entry, or `"reserved"` for any code
/// outside the table.
pub open spec fn action_name(code: int) -> Seq<char> {
    if 0 <= code < ACTIONS_LEN as int {
        ACTIONS[code]@
    } else {
        RESERVED@
    }
}

/// `code` is the first slot of the table that holds `name`.
pub open spec fn first_slot(name: Seq<char>, code: int) -> bool {
    &&& 0 <= code < ACTIONS_LEN as int
    &&& ACTIONS[code]@ == name
    &&& forall|j: int| 0 <= j < code ==> ACTIONS[j]@ != name
}

/// `name` is an action that has a code: it is not the reserved name and some
/// slot of the table holds it.
pub open spec fn is_action(name: Seq<char>) -> bool {
    name != RESERVED@ && exists|j: int| 0 <= j < ACTIONS_LEN as int && ACTIONS[j]@ == name
}

/// The code of the action `name`, where it has one: its first slot.
pub open spec fn code_of(name: Seq<char>) -> int {
    choose|code: int| first_slot(name, code)
}

/// The name of an action code. Total: a negative code or one past the end of
/// the table is `"reserved"`.
pub fn from_action(a: i8) -> (name: String)
    ensures
        name@ == action_name(a as int),
        (a < 0 || a >= ACTIONS_LEN) ==> name@ == RESERVED@,
{
    if a < 0 || a as usize >= ACTIONS_LEN {
        String::from_str(RESERVED)
    } else {
        String::from_str(ACTIONS[a as usize])
    }
}

/// The code of an action name: the first slot that holds it. The reserved
/// name has no code, however many slots hold it.
pub fn to_action(a: &str) -> (code: Option<i8>)
    ensures
        code is Some <==> is_action(a@),
        code matches Some(c) ==> first_slot(a@, c as int) && c as int == code_of(a@),
        a@ == RESERVED@ ==> code is None,
{
    if a.eq(RESERVED) {
        return None;
    }
    let mut i: usize = 0;
    while i < ACTIONS_LEN
        invariant
            i <= ACTIONS_LEN,
            a@ != RESERVED@,
            forall|j: int| 0 <= j < i ==> ACTIONS[j]@ != a@,
        decreases ACTIONS_LEN - i,
    {
        if a.eq(ACTIONS[i]) {
            assert(first_slot(a@, i as int));
            assert(forall|c: int| first_slot(a@, c) ==> c == i);
            return Some(i as i8);
        }
        i += 1;
    }
    None
}

} // verus!
