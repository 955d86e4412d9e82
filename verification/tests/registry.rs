use logbase::action::{from_action, to_action, ACTIONS, ACTIONS_LEN};

#[test]
fn codes_outside_the_table_are_reserved() {
    assert_eq!(from_action(-1), "reserved");
    assert_eq!(from_action(i8::MIN), "reserved");
    assert_eq!(from_action(72), "reserved");
    assert_eq!(from_action(i8::MAX), "reserved");
}

#[test]
fn every_code_has_its_table_entry() {
    assert_eq!(ACTIONS_LEN, 72);
    for code in 0..72i8 {
        assert_eq!(from_action(code), ACTIONS[code as usize]);
    }
}

#[test]
fn known_names() {
    assert_eq!(from_action(0), "sys.create.user");
    assert_eq!(from_action(8), "user.login");
    assert_eq!(from_action(24), "group.create");
    assert_eq!(from_action(28), "group.delete");
    assert_eq!(from_action(31), "group.add.member");
    assert_eq!(from_action(40), "creation.create");
    assert_eq!(from_action(61), "publication.assist");
    assert_eq!(from_action(4), "reserved");
    assert_eq!(from_action(71), "reserved");
}

#[test]
fn the_reserved_name_has_no_code() {
    assert_eq!(to_action("reserved"), None);
}

#[test]
fn unknown_names_have_no_code() {
    assert_eq!(to_action(""), None);
    assert_eq!(to_action("user"), None);
    assert_eq!(to_action("user.login "), None);
    assert_eq!(to_action("User.Login"), None);
    assert_eq!(to_action("reserved2"), None);
}

#[test]
fn known_codes() {
    assert_eq!(to_action("sys.create.user"), Some(0));
    assert_eq!(to_action("user.login"), Some(8));
    assert_eq!(to_action("group.create"), Some(24));
    assert_eq!(to_action("group.delete"), Some(28));
    assert_eq!(to_action("publication.assist"), Some(61));
}

#[test]
fn names_and_codes_go_round() {
    for code in 0..72i8 {
        let name = from_action(code);
        if name == "reserved" {
            assert_eq!(to_action(&name), None);
        } else {
            assert_eq!(to_action(&name), Some(code));
        }
    }
}
