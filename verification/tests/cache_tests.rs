use dataingester::cache::{load_cache_from_text, LoadError};
use dataingester::records::{ChipInfo, SensorInfo};
use dataingester::sensor_data::get_sensor_id;
use dataingester::store::{apply_reload, reload_outcome, CacheStore};

const CHIP_HEADER: &str = "chip_id,city,info,lat,lon";

fn chip_text(rows: &[&str]) -> String {
    let mut s = String::from(CHIP_HEADER);
    for r in rows {
        s.push('\n');
        s.push_str(r);
    }
    s
}

#[test]
fn load_distinct_rows_gives_one_entry_each() {
    let text = chip_text(&["A1,Rome,centro,41.9,12.5", "A2,Milan,nord,45.4,9.2", "A3,Bari,sud,41.1,16.9"]);
    let m = load_cache_from_text::<ChipInfo>(&text).unwrap();
    assert_eq!(m.len(), 3);
    assert_eq!(m.get("A1").unwrap().city, "Rome");
    assert_eq!(m.get("A2").unwrap().city, "Milan");
    assert_eq!(m.get("A3").unwrap().city, "Bari");
}

#[test]
fn load_duplicate_identity_keeps_later_row() {
    let text = chip_text(&["A1,Rome,centro,41.9,12.5", "A1,Milan,nord,45.4,9.2"]);
    let m = load_cache_from_text::<ChipInfo>(&text).unwrap();
    assert_eq!(m.len(), 1);
    let rec = m.get("A1").unwrap();
    assert_eq!(rec.city, "Milan");
    assert_eq!(rec.lat, "45.4");
}

#[test]
fn load_empty_text_is_an_error() {
    let r = load_cache_from_text::<ChipInfo>("");
    assert_eq!(r.unwrap_err(), LoadError::EmptyFile);
}

#[test]
fn load_header_only_gives_empty_cache() {
    let m = load_cache_from_text::<ChipInfo>(CHIP_HEADER).unwrap();
    assert_eq!(m.len(), 0);
    assert!(m.get("A1").is_none());
}

#[test]
fn load_reports_first_malformed_row() {
    // second data row has a bad latitude
    let text = chip_text(&["A1,Rome,centro,41.9,12.5", "A2,Milan,nord,not-a-number,9.2"]);
    let r = load_cache_from_text::<ChipInfo>(&text);
    assert_eq!(r.unwrap_err(), LoadError::ParseRow { index: 1 });
}

#[test]
fn load_rejects_wrong_field_count() {
    let text = chip_text(&["A1,Rome,centro,41.9"]);
    let r = load_cache_from_text::<ChipInfo>(&text);
    assert_eq!(r.unwrap_err(), LoadError::ParseRow { index: 0 });
}

#[test]
fn load_rejects_missing_column() {
    let text = "chip_id,city,lat,lon\nA1,Rome,41.9,12.5";
    let r = load_cache_from_text::<ChipInfo>(text);
    assert_eq!(r.unwrap_err(), LoadError::ParseRow { index: 0 });
}

#[test]
fn load_accepts_reordered_columns() {
    let text = "lon,lat,info,city,chip_id\n12.5,41.9,centro,Rome,A1";
    let m = load_cache_from_text::<ChipInfo>(text).unwrap();
    let rec = m.get("A1").unwrap();
    assert_eq!(rec.city, "Rome");
    assert_eq!(rec.lon, "12.5");
}

#[test]
fn load_handles_crlf_and_blank_lines() {
    let text = "chip_id,city,info,lat,lon\r\nA1,Rome,centro,41.9,12.5\r\n\r\n";
    let m = load_cache_from_text::<ChipInfo>(text).unwrap();
    assert_eq!(m.len(), 1);
    assert_eq!(m.get("A1").unwrap().city, "Rome");
}

#[test]
fn concrete_scenario_two_chips() {
    let text = chip_text(&["A1,Rome,,41.9,12.5", "A2,Milan,,45.4,9.2"]);
    let m = load_cache_from_text::<ChipInfo>(&text).unwrap();
    assert_eq!(m.len(), 2);
    assert_eq!(m.get("A1").unwrap().city, "Rome");
    assert!(m.get("A3").is_none());
}

#[test]
fn reload_replaces_wholesale() {
    let gen1 = chip_text(&["A,Rome,centro,41.9,12.5", "B,Milan,nord,45.4,9.2"]);
    let store = CacheStore::new(load_cache_from_text::<ChipInfo>(&gen1).unwrap());

    let gen2 = chip_text(&["A,Turin,ovest,45.0,7.6", "C,Bari,sud,41.1,16.9"]);
    let replaced = apply_reload(&store, load_cache_from_text::<ChipInfo>(&gen2));
    assert!(replaced);

    let snap = store.read();
    assert_eq!(snap.len(), 2);
    assert_eq!(snap.get("A").unwrap().city, "Turin");
    assert!(snap.get("C").is_some());
    assert!(snap.get("B").is_none());
    snap.release();
}

#[test]
fn failed_reload_keeps_cache_and_recovers() {
    let gen1 = chip_text(&["A,Rome,centro,41.9,12.5"]);
    let store = CacheStore::new(load_cache_from_text::<ChipInfo>(&gen1).unwrap());

    // a malformed update leaves the cache untouched
    let bad = chip_text(&["B,Milan,nord,oops,9.2"]);
    let replaced = apply_reload(&store, load_cache_from_text::<ChipInfo>(&bad));
    assert!(!replaced);
    let snap = store.read();
    assert_eq!(snap.len(), 1);
    assert_eq!(snap.get("A").unwrap().city, "Rome");
    snap.release();

    // a later valid update is still picked up
    let good = chip_text(&["B,Milan,nord,45.4,9.2"]);
    assert!(apply_reload(&store, load_cache_from_text::<ChipInfo>(&good)));
    let snap = store.read();
    assert_eq!(snap.len(), 1);
    assert_eq!(snap.get("B").unwrap().city, "Milan");
    assert!(snap.get("A").is_none());
    snap.release();
}

#[test]
fn empty_reload_keeps_cache() {
    let gen1 = chip_text(&["A,Rome,centro,41.9,12.5"]);
    let store = CacheStore::new(load_cache_from_text::<ChipInfo>(&gen1).unwrap());
    assert!(!apply_reload(&store, load_cache_from_text::<ChipInfo>("")));
    let snap = store.read();
    assert_eq!(snap.get("A").unwrap().city, "Rome");
    snap.release();
}

#[test]
fn reload_outcome_picks_new_on_success_and_old_on_failure() {
    let old_map = load_cache_from_text::<ChipInfo>(&chip_text(&["A,Rome,centro,41.9,12.5"])).unwrap();
    let new_map = load_cache_from_text::<ChipInfo>(&chip_text(&["B,Milan,nord,45.4,9.2"]));
    let next = reload_outcome(old_map, new_map);
    assert!(next.get("B").is_some());
    assert!(next.get("A").is_none());

    let old_map = load_cache_from_text::<ChipInfo>(&chip_text(&["A,Rome,centro,41.9,12.5"])).unwrap();
    let next = reload_outcome(old_map, Err(dataingester::LoadError::EmptyFile));
    assert!(next.get("A").is_some());
}

#[test]
fn snapshot_is_one_complete_mapping() {
    let gen1 = chip_text(&["A1,Rome,centro,41.9,12.5", "A2,Milan,nord,45.4,9.2"]);
    let store = CacheStore::new(load_cache_from_text::<ChipInfo>(&gen1).unwrap());

    // every lookup through one snapshot is answered from the same mapping:
    // both identities of the generation are visible together
    let snap = store.read();
    let a1 = snap.get("A1").map(|r| r.city.clone());
    let a2 = snap.get("A2").map(|r| r.city.clone());
    assert_eq!(a1.as_deref(), Some("Rome"));
    assert_eq!(a2.as_deref(), Some("Milan"));
    snap.release();

    let gen2 = chip_text(&["A1,Turin,ovest,45.0,7.6"]);
    assert!(apply_reload(&store, load_cache_from_text::<ChipInfo>(&gen2)));

    // a snapshot taken after the swap shows the new generation in full:
    // the surviving identity has its new record and the removed one is gone
    let snap = store.read();
    assert_eq!(snap.get("A1").unwrap().city, "Turin");
    assert!(snap.get("A2").is_none());
    snap.release();
}

#[test]
fn sensor_id_lookup_by_chip_and_type() {
    let text = "chip_id,sensor_id,sensor_type\nesp-1,77,SDS011\nesp-1,78,DHT22";
    let store = CacheStore::new(load_cache_from_text::<SensorInfo>(text).unwrap());
    assert_eq!(get_sensor_id(&store, "esp-1", "SDS011").unwrap(), "77");
    assert_eq!(get_sensor_id(&store, "esp-1", "DHT22").unwrap(), "78");
    let err = get_sensor_id(&store, "esp-2", "SDS011").unwrap_err();
    assert_eq!(err.0, "missing sensor id for key: esp-2:SDS011");
}

#[test]
fn sensor_identity_joins_chip_and_type() {
    let text = "chip_id,sensor_id,sensor_type\nesp-1,77,SDS011";
    let m = load_cache_from_text::<SensorInfo>(text).unwrap();
    assert!(m.get("esp-1:SDS011").is_some());
    assert!(m.get("esp-1").is_none());
}

#[test]
fn snapshot_iterates_all_entries() {
    let text = chip_text(&["A1,Rome,centro,41.9,12.5", "A2,Milan,nord,45.4,9.2"]);
    let store = CacheStore::new(load_cache_from_text::<ChipInfo>(&text).unwrap());
    let snap = store.read();
    let mut cities: Vec<String> = snap
        .map()
        .entries()
        .iter()
        .map(|(id, rec)| format!("{}:{}", id, rec.city))
        .collect();
    cities.sort();
    assert_eq!(cities, vec!["A1:Rome", "A2:Milan"]);
    snap.release();
}
