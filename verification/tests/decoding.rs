use nfs4_acl::{
    Ace, AceFlags, AcePermissions, AcePrincipals, AceType, Acl, DecodeError, DecodeErrorKind,
};

fn ace(
    ace_type: AceType,
    ace_flags: AceFlags,
    principal: &str,
    ace_permissions: AcePermissions,
) -> Ace {
    Ace {
        ace_type,
        ace_flags,
        ace_principals: AcePrincipals(String::from(principal)),
        ace_permissions,
    }
}

fn rwx() -> AcePermissions {
    AcePermissions::read_data() | AcePermissions::write_data() | AcePermissions::execute()
}

fn error(kind: DecodeErrorKind, line_number: usize, content: &str) -> DecodeError {
    DecodeError { kind, line_number, content: String::from(content) }
}

#[test]
fn empty_input_has_no_entries() {
    let acl = Acl::parse("").unwrap();
    assert_eq!(acl.aces.len(), 0);
    let (acl, errors) = Acl::parse_lenient("");
    assert_eq!(acl.aces.len(), 0);
    assert_eq!(errors.len(), 0);
}

#[test]
fn comment_only_input_has_no_entries() {
    let acl = Acl::parse("# header\n# more\n").unwrap();
    assert_eq!(acl.aces.len(), 0);
    let (acl, errors) = Acl::parse_lenient("# header\n# more\n");
    assert_eq!(acl.aces.len(), 0);
    assert_eq!(errors.len(), 0);
}

#[test]
fn blank_lines_only_have_no_entries() {
    let acl = Acl::parse("\n\n\r\n\n").unwrap();
    assert_eq!(acl.aces.len(), 0);
}

#[test]
fn single_allow_entry_for_owner() {
    let acl = Acl::parse("A::OWNER@:rwx").unwrap();
    assert_eq!(acl.aces.len(), 1);
    let entry = &acl.aces[0];
    assert_eq!(entry.ace_type, AceType::Allow);
    assert!(entry.ace_flags.is_empty());
    assert_eq!(entry.ace_flags.bits(), 0);
    assert_eq!(entry.ace_principals.0, "OWNER@");
    assert_eq!(
        entry.ace_permissions.bits(),
        AcePermissions::READ_DATA | AcePermissions::WRITE_DATA | AcePermissions::EXECUTE
    );
    assert_eq!(entry.ace_permissions.bits(), 0b1011);
    assert_eq!(acl.aces, vec![ace(AceType::Allow, AceFlags::empty(), "OWNER@", rwx())]);
}

#[test]
fn single_deny_entry_for_a_group_id() {
    let acl = Acl::parse("D:g:1234:r").unwrap();
    assert_eq!(acl.aces.len(), 1);
    let entry = &acl.aces[0];
    assert_eq!(entry.ace_type, AceType::Deny);
    assert_eq!(entry.ace_flags.bits(), AceFlags::GROUP);
    assert_eq!(entry.ace_principals.0, "1234");
    assert_eq!(entry.ace_permissions.bits(), AcePermissions::READ_DATA);
    assert_eq!(
        acl.aces,
        vec![ace(AceType::Deny, AceFlags::group(), "1234", AcePermissions::read_data())]
    );
}

#[test]
fn every_type_letter_decodes() {
    let acl = Acl::parse("A::a:r\nD::b:r\nU::c:r\nL::d:r\n").unwrap();
    let types: Vec<AceType> = acl.aces.iter().map(|entry| entry.ace_type).collect();
    assert_eq!(types, vec![AceType::Allow, AceType::Deny, AceType::Audit, AceType::Alarm]);
}

#[test]
fn the_type_is_the_last_character_of_its_field() {
    let acl = Acl::parse("!A::OWNER@:r\nxyD::GROUP@:w\nAD::EVERYONE@:x").unwrap();
    let types: Vec<AceType> = acl.aces.iter().map(|entry| entry.ace_type).collect();
    assert_eq!(types, vec![AceType::Allow, AceType::Deny, AceType::Deny]);
}

#[test]
fn all_flags_and_permissions_decode() {
    let acl = Acl::parse("U:gdfniSF:staff@example.org:rwaxdDtTnNcCoy").unwrap();
    assert_eq!(
        acl.aces,
        vec![ace(AceType::Audit, AceFlags::all(), "staff@example.org", AcePermissions::all())]
    );
    assert_eq!(acl.aces[0].ace_flags.bits(), 0x7f);
    assert_eq!(acl.aces[0].ace_permissions.bits(), 0x3fff);
}

#[test]
fn the_principal_is_taken_as_it_stands() {
    let acl = Acl::parse("A:: two words \u{e9}@x :r\nA:::r").unwrap();
    assert_eq!(acl.aces[0].ace_principals.0, " two words \u{e9}@x ");
    assert_eq!(acl.aces[1].ace_principals.0, "");
}

#[test]
fn empty_flags_and_permissions_are_empty_sets() {
    let acl = Acl::parse("L::alice:").unwrap();
    assert_eq!(
        acl.aces,
        vec![ace(AceType::Alarm, AceFlags::empty(), "alice", AcePermissions::empty())]
    );
}

#[test]
fn line_with_three_fields_is_malformed() {
    assert_eq!(
        Acl::parse("A:g:1234").unwrap_err(),
        error(DecodeErrorKind::MalformedLine, 1, "A:g:1234")
    );
    let (acl, errors) = Acl::parse_lenient("A:g:1234");
    assert_eq!(acl.aces.len(), 0);
    assert_eq!(errors, vec![error(DecodeErrorKind::MalformedLine, 1, "A:g:1234")]);
    assert_eq!(Ace::from_line("A:g:1234"), Err(DecodeErrorKind::MalformedLine));
}

#[test]
fn lines_with_other_field_counts_are_malformed() {
    for line in ["A", "A:g", "A:g:1234:r:x", "::::", "A::OWNER@:rwx:", " ", "no colon at all"] {
        assert_eq!(Ace::from_line(line), Err(DecodeErrorKind::MalformedLine));
        assert_eq!(Acl::parse(line).unwrap_err(), error(DecodeErrorKind::MalformedLine, 1, line));
    }
}

#[test]
fn an_unknown_type_letter_is_reported() {
    assert_eq!(
        Acl::parse("X::OWNER@:rwx").unwrap_err(),
        error(DecodeErrorKind::UnknownTypeChar, 1, "X::OWNER@:rwx")
    );
    assert_eq!(Ace::from_line("a::OWNER@:rwx"), Err(DecodeErrorKind::UnknownTypeChar));
    assert_eq!(Ace::from_line("A ::OWNER@:rwx"), Err(DecodeErrorKind::UnknownTypeChar));
}

#[test]
fn an_empty_type_field_is_reported() {
    assert_eq!(
        Acl::parse(":g:1234:r").unwrap_err(),
        error(DecodeErrorKind::UnknownTypeChar, 1, ":g:1234:r")
    );
    assert_eq!(Ace::from_line(":::"), Err(DecodeErrorKind::UnknownTypeChar));
}

#[test]
fn an_unknown_flag_letter_is_reported() {
    assert_eq!(
        Acl::parse("A:gx:1234:r").unwrap_err(),
        error(DecodeErrorKind::UnknownFlagChar, 1, "A:gx:1234:r")
    );
    assert_eq!(Ace::from_line("A:G:1234:r"), Err(DecodeErrorKind::UnknownFlagChar));
    assert_eq!(Ace::from_line("A: :1234:r"), Err(DecodeErrorKind::UnknownFlagChar));
}

#[test]
fn an_unknown_permission_letter_is_reported() {
    assert_eq!(
        Acl::parse("A:g:1234:rwz").unwrap_err(),
        error(DecodeErrorKind::UnknownPermissionChar, 1, "A:g:1234:rwz")
    );
    assert_eq!(Ace::from_line("A:g:1234:R"), Err(DecodeErrorKind::UnknownPermissionChar));
    assert_eq!(Ace::from_line("A:g:1234:r "), Err(DecodeErrorKind::UnknownPermissionChar));
}

#[test]
fn the_first_fault_of_a_line_is_reported() {
    assert_eq!(Ace::from_line("X:?:1:?:more"), Err(DecodeErrorKind::MalformedLine));
    assert_eq!(Ace::from_line("X:?:1:?"), Err(DecodeErrorKind::UnknownTypeChar));
    assert_eq!(Ace::from_line("A:?:1:?"), Err(DecodeErrorKind::UnknownFlagChar));
    assert_eq!(Ace::from_line("A:g:1:?"), Err(DecodeErrorKind::UnknownPermissionChar));
}

#[test]
fn entries_keep_the_order_of_the_lines() {
    let text = "# file: /srv/share\n\
                A::OWNER@:rwatTnNcCy\n\
                \n\
                # inherited\n\
                D:g:1000:w\n\
                \n\
                \n\
                A:fdi:alice@example.org:rx\n\
                # the rest\n\
                U:gS:2000:r\n\
                L:F:EVERYONE@:x\n";
    let acl = Acl::parse(text).unwrap();
    let principals: Vec<&str> =
        acl.aces.iter().map(|entry| entry.ace_principals.0.as_str()).collect();
    assert_eq!(principals, vec!["OWNER@", "1000", "alice@example.org", "2000", "EVERYONE@"]);
    assert_eq!(
        acl.aces,
        vec![
            ace(
                AceType::Allow,
                AceFlags::empty(),
                "OWNER@",
                AcePermissions::from_letters("rwatTnNcCy").unwrap()
            ),
            ace(AceType::Deny, AceFlags::group(), "1000", AcePermissions::write_data()),
            ace(
                AceType::Allow,
                AceFlags::file_inherit() | AceFlags::directory_inherit() | AceFlags::inherit_only(),
                "alice@example.org",
                AcePermissions::read_data() | AcePermissions::execute()
            ),
            ace(
                AceType::Audit,
                AceFlags::group() | AceFlags::successful_access(),
                "2000",
                AcePermissions::read_data()
            ),
            ace(AceType::Alarm, AceFlags::failed_access(), "EVERYONE@", AcePermissions::execute()),
        ]
    );
}

#[test]
fn equal_lines_give_equal_entries_in_place() {
    let acl = Acl::parse("A::bob:r\nA::bob:r\nD::bob:r\nA::bob:r").unwrap();
    let bob = ace(AceType::Allow, AceFlags::empty(), "bob", AcePermissions::read_data());
    let denied = ace(AceType::Deny, AceFlags::empty(), "bob", AcePermissions::read_data());
    assert_eq!(acl.aces, vec![bob.clone(), bob.clone(), denied, bob]);
}

#[test]
fn joined_listings_give_joined_entries() {
    let first = "# one\nA::OWNER@:rwx\nD:g:1234:r\n";
    let second = "\nU:S:alice:w\n# two\nL:F:bob:x";
    let mut expected = Acl::parse(first).unwrap().aces;
    expected.extend(Acl::parse(second).unwrap().aces);
    let mut joined = String::from(first);
    joined.push_str(second);
    assert_eq!(Acl::parse(&joined).unwrap().aces, expected);
    assert_eq!(expected.len(), 4);
}

#[test]
fn line_endings_do_not_belong_to_the_lines() {
    let unix = Acl::parse("A::OWNER@:rwx\nD:g:1234:r\n").unwrap();
    let dos = Acl::parse("A::OWNER@:rwx\r\nD:g:1234:r\r\n").unwrap();
    let open = Acl::parse("A::OWNER@:rwx\nD:g:1234:r").unwrap();
    assert_eq!(unix.aces, dos.aces);
    assert_eq!(unix.aces, open.aces);
    assert_eq!(unix.aces.len(), 2);
    assert_eq!(dos.aces[1].ace_permissions, AcePermissions::read_data());
}

#[test]
fn a_carriage_return_without_a_line_feed_stays_in_the_line() {
    assert_eq!(
        Acl::parse("A::OWNER@:rwx\r").unwrap_err(),
        error(DecodeErrorKind::UnknownPermissionChar, 1, "A::OWNER@:rwx\r")
    );
    assert_eq!(
        Acl::parse("A::OWNER@:rwx\r\r\n").unwrap_err(),
        error(DecodeErrorKind::UnknownPermissionChar, 1, "A::OWNER@:rwx\r")
    );
}

#[test]
fn a_comment_marker_counts_only_at_the_start_of_a_line() {
    let acl = Acl::parse("#A::OWNER@:rwx\nA::#alice:r").unwrap();
    assert_eq!(
        acl.aces,
        vec![ace(AceType::Allow, AceFlags::empty(), "#alice", AcePermissions::read_data())]
    );
    assert_eq!(
        Acl::parse(" # indented").unwrap_err(),
        error(DecodeErrorKind::MalformedLine, 1, " # indented")
    );
}

#[test]
fn the_first_rejected_line_is_reported_with_its_number() {
    let text = "# header\n\nA::OWNER@:rwx\nD:g:1234\nX:::\nA:?::r\n";
    assert_eq!(
        Acl::parse(text).unwrap_err(),
        error(DecodeErrorKind::MalformedLine, 4, "D:g:1234")
    );
}

#[test]
fn lenient_decoding_reports_every_rejected_line() {
    let text = "# header\n\
                A::OWNER@:rwx\n\
                D:g:1234\n\
                \n\
                X::GROUP@:r\n\
                D:g:1234:r\n\
                A:q:alice:r\r\n\
                A::alice:rq\n\
                U:S:bob:w";
    let (acl, errors) = Acl::parse_lenient(text);
    assert_eq!(
        acl.aces,
        vec![
            ace(AceType::Allow, AceFlags::empty(), "OWNER@", rwx()),
            ace(AceType::Deny, AceFlags::group(), "1234", AcePermissions::read_data()),
            ace(AceType::Audit, AceFlags::successful_access(), "bob", AcePermissions::write_data()),
        ]
    );
    assert_eq!(
        errors,
        vec![
            error(DecodeErrorKind::MalformedLine, 3, "D:g:1234"),
            error(DecodeErrorKind::UnknownTypeChar, 5, "X::GROUP@:r"),
            error(DecodeErrorKind::UnknownFlagChar, 7, "A:q:alice:r"),
            error(DecodeErrorKind::UnknownPermissionChar, 8, "A::alice:rq"),
        ]
    );
}

#[test]
fn strict_and_lenient_decoding_agree() {
    let good = "A::OWNER@:rwx\n# note\nD:g:1234:r\n";
    let (lenient, errors) = Acl::parse_lenient(good);
    assert_eq!(errors.len(), 0);
    assert_eq!(Acl::parse(good).unwrap().aces, lenient.aces);

    let bad = "A::OWNER@:rwx\nbroken\nD:g:1234:r\nalso:broken\n";
    let (lenient, errors) = Acl::parse_lenient(bad);
    assert_eq!(lenient.aces.len(), 2);
    assert_eq!(errors.len(), 2);
    assert_eq!(Acl::parse(bad).unwrap_err(), errors[0]);
}

#[test]
fn a_rejected_line_leaves_no_partial_entry() {
    let (acl, errors) = Acl::parse_lenient("A:g:1234\nA:g:1234:\nA:g:1234:r:w\n");
    assert_eq!(
        acl.aces,
        vec![ace(AceType::Allow, AceFlags::group(), "1234", AcePermissions::empty())]
    );
    assert_eq!(
        errors,
        vec![
            error(DecodeErrorKind::MalformedLine, 1, "A:g:1234"),
            error(DecodeErrorKind::MalformedLine, 3, "A:g:1234:r:w"),
        ]
    );
}

#[test]
fn one_line_decodes_to_one_entry() {
    assert_eq!(
        Ace::from_line("A:fd:GROUP@:rx"),
        Ok(ace(
            AceType::Allow,
            AceFlags::file_inherit() | AceFlags::directory_inherit(),
            "GROUP@",
            AcePermissions::read_data() | AcePermissions::execute()
        ))
    );
    let chars: Vec<char> = "D:g:77:w".chars().collect();
    assert_eq!(
        Ace::decode(&chars),
        Ok(ace(AceType::Deny, AceFlags::group(), "77", AcePermissions::write_data()))
    );
}

#[test]
fn entries_are_equal_when_all_four_fields_are() {
    let entry = ace(AceType::Allow, AceFlags::group(), "1234", rwx());
    assert_eq!(entry, ace(AceType::Allow, AceFlags::group(), "1234", rwx()));
    assert_ne!(entry, ace(AceType::Deny, AceFlags::group(), "1234", rwx()));
    assert_ne!(entry, ace(AceType::Allow, AceFlags::empty(), "1234", rwx()));
    assert_ne!(entry, ace(AceType::Allow, AceFlags::group(), "1235", rwx()));
    assert_ne!(entry, ace(AceType::Allow, AceFlags::group(), "1234", AcePermissions::empty()));
    assert_eq!(AcePrincipals(String::from("a")), AcePrincipals(String::from("a")));
    assert_ne!(AcePrincipals(String::from("a")), AcePrincipals(String::from("b")));
}

#[test]
fn errors_are_equal_when_kind_number_and_content_are() {
    let report = error(DecodeErrorKind::MalformedLine, 2, "x");
    assert_eq!(report, error(DecodeErrorKind::MalformedLine, 2, "x"));
    assert_ne!(report, error(DecodeErrorKind::UnknownTypeChar, 2, "x"));
    assert_ne!(report, error(DecodeErrorKind::MalformedLine, 3, "x"));
    assert_ne!(report, error(DecodeErrorKind::MalformedLine, 2, "y"));
}

#[test]
fn clones_are_equal_to_what_they_were_made_from() {
    let entry = ace(AceType::Audit, AceFlags::all(), "1234", rwx());
    assert_eq!(entry.clone(), entry);
    assert_eq!(entry.ace_principals.clone(), entry.ace_principals);
    let report = error(DecodeErrorKind::UnknownFlagChar, 7, "A:q:alice:r");
    assert_eq!(report.clone(), report);
}
