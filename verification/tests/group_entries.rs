use nfs4_acl::{Ace, AceFlags, AcePermissions, AcePrincipals, AceType, Acl};

fn ace(ace_flags: AceFlags, principal: &str) -> Ace {
    Ace {
        ace_type: AceType::Allow,
        ace_flags,
        ace_principals: AcePrincipals(String::from(principal)),
        ace_permissions: AcePermissions::read_data(),
    }
}

fn principals(aces: &[Ace]) -> Vec<&str> {
    aces.iter().map(|entry| entry.ace_principals.0.as_str()).collect()
}

#[test]
fn group_id_entry_is_picked_among_others() {
    let mut acl = Acl::parse("D:g:1234:r").unwrap();
    acl.aces.push(Ace {
        ace_type: AceType::Allow,
        ace_flags: AceFlags::empty(),
        ace_principals: AcePrincipals(String::from("alice")),
        ace_permissions: AcePermissions::read_data(),
    });
    let expected = Ace {
        ace_type: AceType::Deny,
        ace_flags: AceFlags::group(),
        ace_principals: AcePrincipals(String::from("1234")),
        ace_permissions: AcePermissions::read_data(),
    };
    assert_eq!(acl.group_id_aces(), vec![expected]);
}

#[test]
fn a_number_without_the_group_flag_is_no_group_entry() {
    let acl =
        Acl { aces: vec![ace(AceFlags::empty(), "1000"), ace(AceFlags::file_inherit(), "7")] };
    assert_eq!(acl.group_id_aces(), vec![]);
}

#[test]
fn a_name_with_the_group_flag_is_no_group_entry() {
    let acl = Acl {
        aces: vec![
            ace(AceFlags::group(), "staff"),
            ace(AceFlags::group(), "GROUP@"),
            ace(AceFlags::group(), "12a"),
            ace(AceFlags::group(), "a12"),
            ace(AceFlags::group(), "1 2"),
            ace(AceFlags::group(), " 12"),
            ace(AceFlags::group(), "12 "),
            ace(AceFlags::group(), "-12"),
            ace(AceFlags::group(), "+"),
            ace(AceFlags::group(), "++1"),
            ace(AceFlags::group(), "1+"),
            ace(AceFlags::group(), "1.5"),
            ace(AceFlags::group(), "0x10"),
            ace(AceFlags::group(), "\u{663}"),
            ace(AceFlags::group(), ""),
        ],
    };
    assert_eq!(acl.group_id_aces(), vec![]);
}

#[test]
fn numbers_in_every_spelling_are_group_ids() {
    let acl = Acl {
        aces: vec![
            ace(AceFlags::group(), "0"),
            ace(AceFlags::group(), "1234"),
            ace(AceFlags::group(), "+1234"),
            ace(AceFlags::group(), "0001234"),
            ace(AceFlags::group(), "65535"),
            ace(AceFlags::group(), "100000"),
            ace(AceFlags::group(), "4294967295"),
        ],
    };
    assert_eq!(
        principals(&acl.group_id_aces()),
        vec!["0", "1234", "+1234", "0001234", "65535", "100000", "4294967295"]
    );
}

#[test]
fn other_flags_beside_the_group_flag_do_not_matter() {
    let acl = Acl {
        aces: vec![
            ace(AceFlags::group() | AceFlags::file_inherit(), "10"),
            ace(AceFlags::all(), "20"),
            ace(AceFlags::from_bits(0x7e).unwrap(), "30"),
        ],
    };
    assert_eq!(principals(&acl.group_id_aces()), vec!["10", "20"]);
}

#[test]
fn group_entries_keep_their_order_and_their_repeats() {
    let text = "A:g:30:r\n\
                A::OWNER@:rwx\n\
                D:g:10:w\n\
                A:g:GROUP@:r\n\
                A:g:30:r\n\
                A::20:r\n\
                U:gS:20:x\n";
    let acl = Acl::parse(text).unwrap();
    let groups = acl.group_id_aces();
    assert_eq!(principals(&groups), vec!["30", "10", "30", "20"]);
    assert_eq!(groups[0], groups[2]);
    assert_eq!(groups[1].ace_type, AceType::Deny);
    assert_eq!(groups[3].ace_flags, AceFlags::group() | AceFlags::successful_access());
}

#[test]
fn a_list_without_group_entries_gives_none() {
    assert_eq!(Acl { aces: vec![] }.group_id_aces(), vec![]);
    assert_eq!(Acl::parse("A::OWNER@:rwx\nA::EVERYONE@:r").unwrap().group_id_aces(), vec![]);
}
