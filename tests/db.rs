use feature_flags::error::FeatureFlagError;
use feature_flags::store::{
    add_flag, delete_flag_by_name, get_all_flags, get_flag_by_name, initialize_db, update_flag,
};
use feature_flags::value::{decode, encode, FlagDataType};
use rusqlite::Connection;

fn in_member_db() -> Connection {
    let mut conn = Connection::open_in_memory().unwrap();
    initialize_db(&mut conn).unwrap();
    conn
}

#[test]
fn test_delete_flag_failure() {
    let mut conn = in_member_db();

    let result = delete_flag_by_name(&mut conn, "test".to_string()).unwrap();

    assert_eq!(result, 0)
}

#[test]
fn test_update_flag_error() {
    let mut conn = in_member_db();

    let result = update_flag(
        &mut conn,
        "test".to_string(),
        encode(&FlagDataType::Boolean(true)),
    );

    assert!(matches!(result, Err(FeatureFlagError::NotFound)));
    assert_eq!(get_all_flags(&conn).unwrap().len(), 0);
}

#[test]
fn test_get_flag_by_name_error() {
    let conn = in_member_db();

    let result = get_flag_by_name(&conn, "test".to_string());

    assert!(matches!(result, Err(FeatureFlagError::NotFound)));
}

#[test]
fn test_updating_a_flag() {
    let flag_name = "test_updating".to_string();

    let mut conn = in_member_db();

    let _ = add_flag(
        &mut conn,
        flag_name.clone(),
        encode(&FlagDataType::Boolean(true)),
    );

    get_flag_by_name(&conn, flag_name.clone()).unwrap();

    let _ = update_flag(
        &mut conn,
        flag_name.clone(),
        encode(&FlagDataType::Boolean(false)),
    )
    .unwrap();

    get_flag_by_name(&conn, flag_name.clone()).unwrap();
}

#[test]
fn test_add_single_flag() {
    let flag_name = "test_flag".to_string();
    let mut conn = in_member_db();

    let _ = add_flag(
        &mut conn,
        flag_name.clone(),
        encode(&FlagDataType::Boolean(true)),
    )
    .unwrap();

    let result = get_flag_by_name(&conn, flag_name.clone()).unwrap();

    assert_eq!(result.name, flag_name);
}

#[test]
fn test_delete_flag() {
    let flag_name = "delete_test".to_string();

    let mut conn = in_member_db();

    let _ = add_flag(
        &mut conn,
        flag_name.clone(),
        encode(&FlagDataType::Boolean(true)),
    )
    .unwrap();

    let flags = get_all_flags(&conn).unwrap();
    assert_eq!(1, flags.len());

    let _ = delete_flag_by_name(&mut conn, flag_name.clone()).unwrap();

    let flags = get_all_flags(&conn).unwrap();
    assert_eq!(0, flags.len());
}

#[test]
fn test_get_all_flags() {
    let mut conn = in_member_db();

    let result = get_all_flags(&conn).unwrap();
    assert_eq!(0, result.len());

    let flags = vec![
        ("test_1".to_string(), encode(&FlagDataType::Boolean(false))),
        ("test_2".to_string(), encode(&FlagDataType::Boolean(true))),
        ("test_3".to_string(), encode(&FlagDataType::Boolean(false))),
    ];
    let expected_num_of_flags = flags.len();

    for (name, value) in flags {
        let _ = add_flag(&mut conn, name, value).unwrap();
    }

    let result = get_all_flags(&conn).unwrap();
    assert_eq!(expected_num_of_flags, result.len());
}

#[test]
fn launch_banner_scenario() {
    let mut conn = in_member_db();
    assert_eq!(
        add_flag(
            &mut conn,
            "launch_banner".to_string(),
            encode(&FlagDataType::Boolean(true))
        )
        .unwrap(),
        1
    );

    let flag = get_flag_by_name(&conn, "launch_banner".to_string()).unwrap();
    assert_eq!(flag.id, 1);
    assert_eq!(flag.name, "launch_banner");
    assert_eq!(decode(&flag.value).unwrap(), FlagDataType::Boolean(true));

    let updated = update_flag(
        &mut conn,
        "launch_banner".to_string(),
        encode(&FlagDataType::Boolean(false)),
    )
    .unwrap();
    assert_eq!(updated, 1);
    let flag = get_flag_by_name(&conn, "launch_banner".to_string()).unwrap();
    assert_eq!(decode(&flag.value).unwrap(), FlagDataType::Boolean(false));

    assert_eq!(
        delete_flag_by_name(&mut conn, "launch_banner".to_string()).unwrap(),
        1
    );
    assert!(matches!(
        get_flag_by_name(&conn, "launch_banner".to_string()),
        Err(FeatureFlagError::NotFound)
    ));
}

#[test]
fn create_then_read_decodes_each_variant() {
    let mut conn = in_member_db();
    let values = vec![
        ("b", FlagDataType::Boolean(false)),
        ("s", FlagDataType::String("hello \"world\"".to_string())),
        ("i", FlagDataType::Integer(-2147483648)),
        ("c", FlagDataType::Custom("{\"a\":[1,2]}".to_string())),
    ];
    for (name, v) in values {
        add_flag(&mut conn, name.to_string(), encode(&v)).unwrap();
        let flag = get_flag_by_name(&conn, name.to_string()).unwrap();
        assert_eq!(decode(&flag.value).unwrap(), v);
    }
}

#[test]
fn duplicate_create_conflicts_and_keeps_value() {
    let mut conn = in_member_db();
    let first = encode(&FlagDataType::Integer(7));
    add_flag(&mut conn, "dup".to_string(), first.clone()).unwrap();
    let result = add_flag(&mut conn, "dup".to_string(), encode(&FlagDataType::Integer(8)));
    assert!(matches!(result, Err(FeatureFlagError::Conflict)));
    let flag = get_flag_by_name(&conn, "dup".to_string()).unwrap();
    assert_eq!(flag.value, first);
    assert_eq!(get_all_flags(&conn).unwrap().len(), 1);
}

#[test]
fn update_keeps_id_and_name() {
    let mut conn = in_member_db();
    add_flag(&mut conn, "a".to_string(), encode(&FlagDataType::Boolean(true))).unwrap();
    add_flag(&mut conn, "b".to_string(), encode(&FlagDataType::Boolean(true))).unwrap();
    let before = get_flag_by_name(&conn, "b".to_string()).unwrap();
    let new_value = encode(&FlagDataType::String("on".to_string()));
    assert_eq!(update_flag(&mut conn, "b".to_string(), new_value.clone()).unwrap(), 1);
    let after = get_flag_by_name(&conn, "b".to_string()).unwrap();
    assert_eq!(after.id, before.id);
    assert_eq!(after.name, "b");
    assert_eq!(after.value, new_value);
    let other = get_flag_by_name(&conn, "a".to_string()).unwrap();
    assert_eq!(decode(&other.value).unwrap(), FlagDataType::Boolean(true));
}

#[test]
fn get_all_lists_distinct_names() {
    let mut conn = in_member_db();
    for i in 0..5 {
        add_flag(&mut conn, format!("flag_{}", i), encode(&FlagDataType::Integer(i))).unwrap();
    }
    let all = get_all_flags(&conn).unwrap();
    assert_eq!(all.len(), 5);
    let mut names: Vec<String> = all.iter().map(|f| f.name.clone()).collect();
    names.sort();
    names.dedup();
    assert_eq!(names.len(), 5);
}

#[test]
fn initialize_empties_the_table() {
    let mut conn = in_member_db();
    add_flag(&mut conn, "x".to_string(), encode(&FlagDataType::Boolean(true))).unwrap();
    initialize_db(&mut conn).unwrap();
    assert_eq!(get_all_flags(&conn).unwrap().len(), 0);
}

#[test]
fn missing_table_is_a_storage_error() {
    let mut conn = Connection::open_in_memory().unwrap();
    assert!(matches!(
        get_flag_by_name(&conn, "x".to_string()),
        Err(FeatureFlagError::StorageError(_))
    ));
    assert!(matches!(get_all_flags(&conn), Err(FeatureFlagError::StorageError(_))));
    assert!(matches!(
        add_flag(&mut conn, "x".to_string(), encode(&FlagDataType::Boolean(true))),
        Err(FeatureFlagError::StorageError(_))
    ));
    assert!(matches!(
        delete_flag_by_name(&mut conn, "x".to_string()),
        Err(FeatureFlagError::StorageError(_))
    ));
    assert!(matches!(
        update_flag(&mut conn, "x".to_string(), encode(&FlagDataType::Boolean(true))),
        Err(FeatureFlagError::StorageError(_))
    ));
}

#[test]
fn writes_refuse_values_that_are_not_envelopes() {
    let mut conn = in_member_db();
    assert!(matches!(
        add_flag(&mut conn, "x".to_string(), "v".to_string()),
        Err(FeatureFlagError::DecodeError)
    ));
    assert_eq!(get_all_flags(&conn).unwrap().len(), 0);

    add_flag(&mut conn, "x".to_string(), encode(&FlagDataType::Integer(3))).unwrap();
    assert!(matches!(
        update_flag(&mut conn, "x".to_string(), "{\"type\":\"integer\"}".to_string()),
        Err(FeatureFlagError::DecodeError)
    ));
    let flag = get_flag_by_name(&conn, "x".to_string()).unwrap();
    assert_eq!(decode(&flag.value).unwrap(), FlagDataType::Integer(3));
}

#[test]
fn spaced_envelope_is_stored_verbatim() {
    let mut conn = in_member_db();
    let text = "{ \"value\": \"on\", \"type\": \"string\" }".to_string();
    assert_eq!(add_flag(&mut conn, "s".to_string(), text.clone()).unwrap(), 1);
    let flag = get_flag_by_name(&conn, "s".to_string()).unwrap();
    assert_eq!(flag.id, 1);
    assert_eq!(flag.value, text);
    assert_eq!(decode(&flag.value).unwrap(), FlagDataType::String("on".to_string()));
}

#[test]
fn ids_follow_the_largest() {
    let mut conn = in_member_db();
    for name in ["a", "b", "c"] {
        add_flag(&mut conn, name.to_string(), encode(&FlagDataType::Boolean(true))).unwrap();
    }
    delete_flag_by_name(&mut conn, "b".to_string()).unwrap();
    add_flag(&mut conn, "d".to_string(), encode(&FlagDataType::Boolean(true))).unwrap();
    assert_eq!(get_flag_by_name(&conn, "a".to_string()).unwrap().id, 1);
    assert_eq!(get_flag_by_name(&conn, "c".to_string()).unwrap().id, 3);
    assert_eq!(get_flag_by_name(&conn, "d".to_string()).unwrap().id, 4);
}
