use oci_bundle::user::{
    is_member, listing_groups, parse_u32, resolve_additional_gids, resolve_group, resolve_user,
    resolve_user_ids, split_user, user_ids_of, UserError,
};

#[test]
fn parses_decimal_ids_like_std() {
    assert_eq!(parse_u32(b"0"), Some(0));
    assert_eq!(parse_u32(b"1000"), Some(1000));
    assert_eq!(parse_u32(b"+7"), Some(7));
    assert_eq!(parse_u32(b"007"), Some(7));
    assert_eq!(parse_u32(b"4294967295"), Some(u32::MAX));
    for bad in ["", "+", "-1", "12a", "4294967296", "99999999999", " 1", "root"] {
        assert_eq!(parse_u32(bad.as_bytes()), None, "{bad}");
        assert_eq!(parse_u32(bad.as_bytes()), bad.parse::<u32>().ok(), "{bad}");
    }
}

#[test]
fn user_alone_splits_to_one_part() {
    let (u, g) = split_user(b"root").unwrap();
    assert_eq!(u, b"root".to_vec());
    assert!(g.is_none());
}

#[test]
fn user_and_group_split_at_the_colon() {
    let (u, g) = split_user(b"1000:wheel").unwrap();
    assert_eq!(u, b"1000".to_vec());
    assert_eq!(g, Some(b"wheel".to_vec()));
    let (u, g) = split_user(b":").unwrap();
    assert!(u.is_empty());
    assert_eq!(g, Some(Vec::new()));
}

#[test]
fn two_colons_are_refused() {
    assert!(matches!(split_user(b"a:b:c"), Err(UserError::InvalidFormat)));
    assert!(matches!(split_user(b"::"), Err(UserError::InvalidFormat)));
    assert!(matches!(resolve_user_ids(b"root:root:root"), Err(UserError::InvalidFormat)));
}

#[test]
fn numeric_root_resolves_to_uid_zero() {
    let (uid, gid, _) = resolve_user(b"0").unwrap();
    assert_eq!(uid, 0);
    assert_eq!(gid, 0);
    let ids = resolve_user_ids(b"0").unwrap();
    assert_eq!(ids.uid, 0);
    assert_eq!(ids.gid, 0);
}

#[test]
fn numeric_group_resolves_to_itself() {
    assert_eq!(resolve_group(b"0").unwrap(), 0);
    let ids = resolve_user_ids(b"0:0").unwrap();
    assert_eq!((ids.uid, ids.gid), (0, 0));
    assert!(ids.additional_gids.is_empty());
}

#[test]
fn unknown_ids_and_names_are_errors() {
    assert!(matches!(resolve_user(b"4294967294"), Err(UserError::UnknownUid(4294967294))));
    assert!(matches!(resolve_group(b"4294967294"), Err(UserError::UnknownGid(4294967294))));
    match resolve_user(b"no-such-user-here") {
        Err(UserError::UnknownUser(name)) => assert_eq!(name, b"no-such-user-here".to_vec()),
        other => panic!("unexpected {:?}", other),
    }
    match resolve_group(b"no-such-group-here") {
        Err(UserError::UnknownGroup(name)) => assert_eq!(name, b"no-such-group-here".to_vec()),
        other => panic!("unexpected {:?}", other),
    }
}

#[test]
fn groups_that_list_the_user() {
    let groups = vec![
        (0, vec![]),
        (4, vec![b"adm".to_vec(), b"alice".to_vec()]),
        (27, vec![b"alicex".to_vec()]),
        (100, vec![b"alice".to_vec()]),
    ];
    assert_eq!(listing_groups(&groups, b"alice"), vec![4, 100]);
    assert!(listing_groups(&groups, b"bob").is_empty());
    assert!(is_member(&vec![b"a".to_vec(), b"b".to_vec()], b"b"));
    assert!(!is_member(&vec![b"ab".to_vec()], b"a"));
}

#[test]
fn zero_byte_name_has_no_supplementary_groups() {
    assert!(resolve_additional_gids(b"ro\0ot", 0).is_empty());
}

#[test]
fn ids_are_put_together_from_lookups() {
    let alone = user_ids_of((1000, 100, b"alice".to_vec()), None, vec![4, 27]);
    assert_eq!((alone.uid, alone.gid, alone.additional_gids), (1000, 100, vec![4, 27]));
    let with_group = user_ids_of((1000, 100, b"alice".to_vec()), Some(5), vec![4]);
    assert_eq!((with_group.uid, with_group.gid), (1000, 5));
    assert!(with_group.additional_gids.is_empty());
}
