use std::path::PathBuf;

use location_tracker::config::User;
use location_tracker::error::{FileError, ServerError};
use location_tracker::file::{
    BatchLog, CurrentFile, InitializeFile, LocationSnapshot, LocationWriter, ManagedDirectory,
    UserDataSnapshot, UserDataSnapshotLocation, UserDataWriter, UserIdDataSnapshot,
};
use location_tracker::string_map::StringMap;

fn loc(lat: &str, long: &str, address: Option<&str>) -> LocationSnapshot {
    LocationSnapshot::new(lat.to_string(), long.to_string(), address.map(|a| a.to_string()))
}

fn key(s: &str) -> String {
    s.to_string()
}

fn batch<'a, T>(log: &'a BatchLog<T>, k: &str) -> &'a UserIdDataSnapshot<T> {
    log.get(&key(k)).expect("batch present")
}

fn entity<'a, T>(map: &'a UserIdDataSnapshot<T>, id: &str) -> &'a T {
    map.get(&key(id)).expect("entity present")
}

fn names(v: &[&str]) -> Vec<String> {
    v.iter().map(|s| s.to_string()).collect()
}

#[test]
fn scenario_window_reuse_then_rotation() {
    let writer = LocationWriter::new(PathBuf::from("locations"), 1000);
    let loc_a = loc("1.5", "2.5", None);
    let loc_b = loc("3.5", "4.5", Some("home"));
    let loc_c = loc("5.5", "6.5", Some("work"));

    let (t0, file0) = writer.location_update(None, key("u1"), loc_a.clone(), 0).unwrap();
    assert_eq!(t0, 0);
    assert_eq!(file0.len(), 1);
    assert_eq!(batch(&file0, "0").len(), 1);
    assert_eq!(entity(batch(&file0, "0"), "u1"), &loc_a);

    let (t1, file1) = writer
        .location_update(Some((t0, file0)), key("u2"), loc_b.clone(), 500)
        .unwrap();
    assert_eq!(t1, 0);
    assert_eq!(file1.len(), 2);
    assert_eq!(batch(&file1, "0").len(), 1);
    assert_eq!(entity(batch(&file1, "0"), "u1"), &loc_a);
    assert_eq!(batch(&file1, "500").len(), 2);
    assert_eq!(entity(batch(&file1, "500"), "u1"), &loc_a);
    assert_eq!(entity(batch(&file1, "500"), "u2"), &loc_b);

    let (t2, file2) = writer
        .location_update(Some((t1, file1)), key("u1"), loc_c.clone(), 1500)
        .unwrap();
    assert_eq!(t2, 1500);
    assert_eq!(file2.len(), 1);
    assert_eq!(batch(&file2, "1500").len(), 2);
    assert_eq!(entity(batch(&file2, "1500"), "u1"), &loc_c);
    assert_eq!(entity(batch(&file2, "1500"), "u2"), &loc_b);
}

#[test]
fn accumulation_within_one_window() {
    let writer = LocationWriter::new(PathBuf::from("locations"), 10_000);
    let mut newest: Option<(u64, BatchLog<LocationSnapshot>)> = None;
    let ids = ["a", "b", "c", "d"];
    for (i, id) in ids.iter().enumerate() {
        let now = 100 + 10 * i as u64;
        let p = loc(&format!("{}", i), "0", None);
        newest = Some(writer.location_update(newest, key(id), p, now).unwrap());
    }
    let (t, log) = newest.unwrap();
    assert_eq!(t, 100);
    assert_eq!(log.len(), 4);
    let latest = log.get_latest_data().unwrap().unwrap();
    assert_eq!(latest.len(), 4);
    for (i, id) in ids.iter().enumerate() {
        assert_eq!(entity(latest, id).latitude, format!("{}", i));
    }
    assert!(log.get(&key("130")).is_some());
}

#[test]
fn rotation_carries_latest_state_forward() {
    let dir = ManagedDirectory::new(PathBuf::from("d"), 100);
    let mut old: BatchLog<LocationSnapshot> = StringMap::init();
    let mut early = StringMap::init();
    early.insert(key("x"), loc("0", "0", None));
    let mut late = StringMap::init();
    late.insert(key("x"), loc("1", "1", None));
    late.insert(key("y"), loc("2", "2", None));
    old.insert(key("10"), late);
    old.insert(key("9"), early);

    let (t, log) = dir.update(Some((5, old)), key("y"), loc("3", "3", None), 105).unwrap();
    assert_eq!(t, 105);
    assert_eq!(log.len(), 1);
    let b = batch(&log, "105");
    assert_eq!(b.len(), 2);
    assert_eq!(entity(b, "x"), &loc("1", "1", None));
    assert_eq!(entity(b, "y"), &loc("3", "3", None));
}

#[test]
fn update_with_bad_batch_key_fails() {
    let dir = ManagedDirectory::new(PathBuf::from("d"), 100);
    let mut old: BatchLog<LocationSnapshot> = StringMap::init();
    old.insert(key("abc"), StringMap::init());
    let r = dir.update(Some((5, old)), key("y"), loc("3", "3", None), 50);
    assert_eq!(r.unwrap_err(), FileError::ParseIntError(key("abc")));
}

#[test]
fn update_on_empty_newest_file_starts_from_nothing() {
    let dir = ManagedDirectory::new(PathBuf::from("d"), 100);
    let old: BatchLog<LocationSnapshot> = StringMap::init();
    let (t, log) = dir.update(Some((40, old)), key("y"), loc("3", "3", None), 50).unwrap();
    assert_eq!(t, 40);
    assert_eq!(log.len(), 1);
    assert_eq!(batch(&log, "50").len(), 1);
}

#[test]
fn user_data_update_records_snapshot() {
    let writer = UserDataWriter::new(PathBuf::from("data"), 1000);
    let user = User {
        first_name: key("Ada"),
        last_name: key("Lovelace"),
        avatar: key("ada.png"),
    };
    let location = UserDataSnapshotLocation::new(&loc("1", "2", Some("park")), 80);
    assert_eq!(location.latitude, "1");
    assert_eq!(location.longitude, "2");
    assert_eq!(location.address, Some(key("park")));
    assert_eq!(location.battery, 80);
    let snap = UserDataSnapshot::new(location, &user);
    assert_eq!(snap.first_name, "Ada");
    assert_eq!(snap.last_name, "Lovelace");
    assert_eq!(snap.avatar, "ada.png");
    let (t, log) = writer.data_update(None, key("ada"), snap.clone(), 77).unwrap();
    assert_eq!(t, 77);
    assert_eq!(entity(batch(&log, "77"), "ada"), &snap);
}

#[test]
fn newest_file_skips_non_numeric_names() {
    let n = names(&["notes.txt", "12.json", "abc.json", "7.json", ".hidden", "30x.json"]);
    assert_eq!(ManagedDirectory::get_newest_file(&n), Some((12, 1)));
    let none = names(&["readme", "x.json", ""]);
    assert_eq!(ManagedDirectory::get_newest_file(&none), None);
    assert_eq!(ManagedDirectory::get_newest_file(&Vec::new()), None);
}

#[test]
fn newest_file_compares_numbers_and_keeps_first_of_equal() {
    let n = names(&["9.json", "10.json", "010.bak", "2.json"]);
    assert_eq!(ManagedDirectory::get_newest_file(&n), Some((10, 1)));
    let n = names(&["18446744073709551615.json", "18446744073709551616.json"]);
    assert_eq!(ManagedDirectory::get_newest_file(&n), Some((u64::MAX, 0)));
}

#[test]
fn current_file_reuse_and_rotation() {
    let dir = ManagedDirectory::new(PathBuf::from("d"), 1000);
    assert_eq!(dir.current_file(None, 5), CurrentFile::Fresh(5));
    assert_eq!(dir.current_file(Some(0), 999), CurrentFile::Reuse(0));
    assert_eq!(dir.current_file(Some(0), 1000), CurrentFile::Fresh(1000));
    assert_eq!(dir.current_file(Some(2000), 1000), CurrentFile::Reuse(2000));
    let zero = ManagedDirectory::new(PathBuf::from("d"), 0);
    assert_eq!(zero.current_file(Some(10), 10), CurrentFile::Fresh(10));
}

#[test]
fn read_current_file_reuses_or_starts_empty() {
    let dir = ManagedDirectory::new(PathBuf::from("d"), 1000);
    let mut log: BatchLog<LocationSnapshot> = StringMap::init();
    log.insert(key("3"), StringMap::init());
    let (t, kept) = dir.read_current_file(Some((3, log)), 500);
    assert_eq!(t, 3);
    assert_eq!(kept.len(), 1);
    let mut log: BatchLog<LocationSnapshot> = StringMap::init();
    log.insert(key("3"), StringMap::init());
    let (t, fresh) = dir.read_current_file(Some((3, log)), 1003);
    assert_eq!(t, 1003);
    assert_eq!(fresh.len(), 0);
    let (t, fresh) = dir.read_current_file::<BatchLog<LocationSnapshot>>(None, 8);
    assert_eq!(t, 8);
    assert_eq!(fresh.len(), 0);
}

#[test]
fn latest_data_by_numeric_key() {
    let mut log: StringMap<u8> = StringMap::init();
    assert_eq!(log.get_latest_data(), Ok(None));
    log.insert(key("9"), 1);
    log.insert(key("10"), 2);
    log.insert(key("+8"), 3);
    assert_eq!(log.get_latest_data(), Ok(Some(&2)));
    log.insert(key("1x"), 4);
    assert_eq!(log.get_latest_data(), Err(FileError::ParseIntError(key("1x"))));
}

#[test]
fn received_new_data_keys_by_decimal_time() {
    let mut log: StringMap<u8> = StringMap::init();
    log.received_new_data(5, 1234);
    log.received_new_data(6, 0);
    log.received_new_data(7, 1234);
    assert_eq!(log.len(), 2);
    assert_eq!(log.get(&key("1234")), Some(&7));
    assert_eq!(log.get(&key("0")), Some(&6));
}

#[test]
fn string_map_insert_replaces() {
    let mut m: StringMap<u32> = StringMap::new();
    assert_eq!(m.len(), 0);
    m.insert(key("a"), 1);
    m.insert(key("b"), 2);
    m.insert(key("a"), 3);
    assert_eq!(m.len(), 2);
    assert_eq!(m.get(&key("a")), Some(&3));
    assert_eq!(m.get(&key("c")), None);
    assert_eq!(m.key_at(0), "a");
    assert_eq!(m.value_at(1), &2);
}

#[test]
fn error_messages() {
    assert_eq!(
        FileError::ParseIntError(key("zz")).message(),
        "Was unable to parse string to int: zz"
    );
    assert_eq!(
        FileError::IoError(key("denied")).message(),
        "Was unable to read the file due to an io error: denied"
    );
    assert_eq!(
        FileError::DeserializationError(key("eof")).message(),
        "Was unable to Deserialize file: eof"
    );
    assert_eq!(
        FileError::FileNameError(key("?")).message(),
        "Was unable to read the os string: ?"
    );
    let e = ServerError::from(key("bad radius"));
    assert_eq!(e, ServerError::LocationCalculationError(key("bad radius")));
    assert_eq!(e.message(), "Unable to operate with provided locations: bad radius");
}

#[test]
fn latest_entity_map_of_newest_file() {
    let none: Option<(u64, BatchLog<LocationSnapshot>)> = None;
    assert!(ManagedDirectory::latest_entity_map(&none).unwrap().is_none());
    let empty: Option<(u64, BatchLog<LocationSnapshot>)> = Some((3, StringMap::init()));
    assert!(ManagedDirectory::latest_entity_map(&empty).unwrap().is_none());
    let mut log: BatchLog<LocationSnapshot> = StringMap::init();
    let mut m = StringMap::init();
    m.insert(key("u"), loc("4", "5", None));
    log.insert(key("20"), m);
    log.insert(key("3"), StringMap::init());
    let found = ManagedDirectory::latest_entity_map(&Some((3, log))).unwrap().unwrap();
    assert_eq!(found.len(), 1);
    assert_eq!(entity(&found, "u"), &loc("4", "5", None));
    let mut bad: BatchLog<LocationSnapshot> = StringMap::init();
    bad.insert(key("-4"), StringMap::init());
    assert_eq!(
        ManagedDirectory::latest_entity_map(&Some((3, bad))).unwrap_err(),
        FileError::ParseIntError(key("-4"))
    );
}
