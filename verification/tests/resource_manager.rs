//! Tests for the resource manager over an in-memory stub store that counts
//! its calls.

use std::cell::Cell;

use lokbuch::backend::{Backend, DatabaseError};
use lokbuch::lok::Lok;
use lokbuch::preview_lok::PreviewLok;
use lokbuch::resource_manager::LokResourceManager;

/// An in-memory store: rows in insertion order and a fresh-id counter. A
/// store built from a url containing "seeded" starts with one row, and one
/// built from a url containing "one_fetch" panics when asked for a record
/// more than once, so a test can show that a lookup never reached it.
pub struct StubBackend {
    rows: Vec<(u32, Lok)>,
    next_id: u32,
    get_calls: Cell<u32>,
    get_limit: Option<u32>,
}

impl Backend for StubBackend {
    fn build(db_url: &str) -> Result<StubBackend, DatabaseError> {
        let mut backend = StubBackend {
            rows: Vec::new(),
            next_id: 1,
            get_calls: Cell::new(0),
            get_limit: None,
        };
        if db_url.contains("seeded") {
            backend.rows.push((1, get_test_lok_1()));
            backend.next_id = 2;
        }
        if db_url.contains("one_fetch") {
            backend.get_limit = Some(1);
        }
        Ok(backend)
    }

    fn insert(&mut self, lok: Lok) -> u32 {
        let id = self.next_id;
        self.next_id += 1;
        self.rows.push((id, lok));
        id
    }

    fn get(&self, id: u32) -> Option<Lok> {
        self.get_calls.set(self.get_calls.get() + 1);
        if let Some(limit) = self.get_limit {
            if self.get_calls.get() > limit {
                panic!("the store was asked for a record more often than the test allows");
            }
        }
        self.rows.iter().find(|(i, _)| *i == id).map(|(_, l)| l.clone())
    }

    fn update(&mut self, id: u32, new_lok: &Lok) {
        for row in self.rows.iter_mut() {
            if row.0 == id {
                row.1 = new_lok.clone();
            }
        }
    }

    fn remove(&mut self, id: u32) {
        self.rows.retain(|(i, _)| *i != id);
    }

    fn get_all_previews(&self) -> Vec<PreviewLok> {
        self.rows.iter().map(|(id, l)| l.as_preview_lok(*id)).collect()
    }
}

pub fn get_test_lok_1() -> Lok {
    Lok::new_from_raw_data(
        "TEST".to_string(),
        114141,
        "14TE".to_string(),
        "Roco".to_string(),
        "ÖBB".to_string(),
        true,
        "".to_string(),
    )
}

pub fn get_test_lok_2() -> Lok {
    Lok::new_from_raw_data(
        "RRRR".to_string(),
        100002,
        "ABCD".to_string(),
        "KKLE".to_string(),
        "DB".to_string(),
        false,
        "somewhere".to_string(),
    )
}

#[test]
fn resource_manager_build_works() {
    let lrm = LokResourceManager::<StubBackend>::build("sqlite://test/test2.db");

    assert!(lrm.is_ok());
}

#[test]
fn resource_manager_add_lok_on_new_db_works() {
    let mut lrm = LokResourceManager::<StubBackend>::build("sqlite://test/test3.db").unwrap();

    let id = lrm.add_lok(get_test_lok_1());

    println!("{}", id);

    assert_eq!(id, 1);
}

#[test]
fn resource_manager_add_lok_to_existing_db_works() {
    let mut lrm = LokResourceManager::<StubBackend>::build("sqlite://test/test4.db").unwrap();

    let id = lrm.add_lok(Lok::new_from_raw_data(
        "TEST".to_string(),
        114141,
        "14TE".to_string(),
        "Roco".to_string(),
        "ÖBB".to_string(),
        true,
        "".to_string(),
    ));

    println!("{}", id);

    assert!(id >= 1);
}

#[test]
fn resource_manager_add_lok_to_db_cache_and_preview_cache_works() {
    let mut lrm = LokResourceManager::<StubBackend>::build("sqlite://test/test5.db").unwrap();

    let id = lrm.add_lok(get_test_lok_1());

    assert_eq!(id, 1);
    assert!(lrm.number_of_cached_loks() > 0);
    assert!(lrm.number_of_loks() > 0);
}

#[test]
fn resource_manager_get_lok_works() {
    let mut lrm = LokResourceManager::<StubBackend>::build("sqlite://test/test6.db").unwrap();

    let result = lrm.get_lok(1);

    assert!(result.is_none());

    let _id = lrm.add_lok(get_test_lok_1());

    let result = lrm.get_lok(1);

    assert!(result.is_some());
}

#[test]
fn resource_manager_remove_works() {
    let mut lrm = LokResourceManager::<StubBackend>::build("sqlite://test/test7.db").unwrap();

    let id = lrm.add_lok(get_test_lok_1());

    let result = lrm.get_lok(id);

    assert!(result.is_some());

    lrm.remove_lok(id);

    let result = lrm.get_lok(id);

    assert!(result.is_none());
}

#[test]
fn resource_manager_update_works() {
    let mut lrm = LokResourceManager::<StubBackend>::build("sqlite://test/test8.db").unwrap();

    let id = lrm.add_lok(get_test_lok_1());

    lrm.update_lok(id, get_test_lok_2());

    let result = lrm.get_lok(id).unwrap();

    let test_lok2 = get_test_lok_2();

    assert_eq!(result.name, test_lok2.name);
    assert_eq!(result.address.unwrap(), test_lok2.address.unwrap());
    assert_eq!(result.lokmaus_name.unwrap(), test_lok2.lokmaus_name.unwrap());
    assert_eq!(result.producer.unwrap(), test_lok2.producer.unwrap());
    assert_eq!(result.management.unwrap(), test_lok2.management.unwrap());
    assert_eq!(result.has_decoder, test_lok2.has_decoder);
    assert_eq!(result.image_path.unwrap(), test_lok2.image_path.unwrap());
}

#[test]
fn resource_manager_get_all_previews_works() {
    let mut lrm = LokResourceManager::<StubBackend>::build("sqlite://test/test9.db").unwrap();

    let _id1 = lrm.add_lok(get_test_lok_1());
    let _id2 = lrm.add_lok(get_test_lok_2());

    let mut previews = lrm.get_all_previews();

    assert_eq!(previews.pop().unwrap().get_name_pretty(), String::from("TEST"));
    assert_eq!(previews.pop().unwrap().get_name_pretty(), String::from("RRRR"));
}

#[test]
fn res_man_build_works() {
    let lrm = LokResourceManager::<StubBackend>::build("sqlite://test/test2.db");

    assert!(lrm.is_ok());
}

#[test]
fn res_man_add_lok_on_new_db_works() {
    let mut lrm = LokResourceManager::<StubBackend>::build("sqlite://test/test3.db").unwrap();

    let id = lrm.add_lok(Lok::new_from_raw_data(
        "TEST".to_string(),
        114141,
        "14TE".to_string(),
        "Roco".to_string(),
        "ÖBB".to_string(),
        true,
        "".to_string(),
    ));

    println!("{}", id);

    assert_eq!(id, 1);
}

#[test]
fn res_man_add_lok_to_existing_db_works() {
    let mut lrm = LokResourceManager::<StubBackend>::build("sqlite://test/test4.db").unwrap();

    let id = lrm.add_lok(Lok::new_from_raw_data(
        "TEST".to_string(),
        114141,
        "14TE".to_string(),
        "Roco".to_string(),
        "ÖBB".to_string(),
        true,
        "".to_string(),
    ));

    println!("{}", id);

    assert!(id >= 1);
}

#[test]
fn res_man_add_lok_to_db_cache_and_preview_cache_works() {
    let mut lrm = LokResourceManager::<StubBackend>::build("sqlite://test/test5.db").unwrap();

    let id = lrm.add_lok(Lok::new_from_raw_data(
        "TEST".to_string(),
        114141,
        "14TE".to_string(),
        "Roco".to_string(),
        "ÖBB".to_string(),
        true,
        "".to_string(),
    ));

    assert_eq!(id, 1);
    assert!(lrm.number_of_cached_loks() > 0);
    assert!(lrm.number_of_loks() > 0);
}

#[test]
fn adding_one_record_on_an_empty_store_yields_id_one_and_one_preview() {
    let mut lrm = LokResourceManager::<StubBackend>::build("stub://empty").unwrap();

    let id = lrm.add_lok(Lok::new_from_raw_data(
        "TEST".to_string(),
        14141,
        "14TE".to_string(),
        "Roco".to_string(),
        "ÖBB".to_string(),
        true,
        "".to_string(),
    ));

    assert_eq!(id, 1);
    let previews = lrm.get_all_previews();
    assert_eq!(previews.len(), 1);
    assert_eq!(previews[0].get_name_pretty(), String::from("TEST"));
}

#[test]
fn previews_sort_by_address_ascending() {
    let mut lrm = LokResourceManager::<StubBackend>::build("stub://empty").unwrap();

    lrm.add_lok(Lok::new_from_raw_data(
        "HIGH".to_string(),
        14141,
        "".to_string(),
        "".to_string(),
        "".to_string(),
        true,
        "".to_string(),
    ));
    lrm.add_lok(Lok::new_from_raw_data(
        "LOW".to_string(),
        1141,
        "".to_string(),
        "".to_string(),
        "".to_string(),
        true,
        "".to_string(),
    ));

    let previews = lrm.get_all_previews();
    assert_eq!(previews.len(), 2);
    assert_eq!(previews[0].get_address(), Some(1141));
    assert_eq!(previews[1].get_address(), Some(14141));
}

#[test]
fn a_record_without_an_address_sorts_first() {
    let mut lrm = LokResourceManager::<StubBackend>::build("stub://empty").unwrap();

    lrm.add_lok(Lok::new_from_raw_data(
        "WITH".to_string(),
        5,
        "".to_string(),
        "".to_string(),
        "".to_string(),
        true,
        "".to_string(),
    ));
    lrm.add_lok(Lok::new_from_raw_data(
        "WITHOUT".to_string(),
        -1,
        "".to_string(),
        "".to_string(),
        "".to_string(),
        false,
        "".to_string(),
    ));

    let previews = lrm.get_all_previews();
    assert_eq!(previews.len(), 2);
    assert_eq!(previews[0].get_address(), None);
    assert_eq!(previews[0].get_name_pretty(), String::from("WITHOUT"));
    assert_eq!(previews[1].get_address(), Some(5));
}

#[test]
fn update_replaces_fields_and_preview_position() {
    let mut lrm = LokResourceManager::<StubBackend>::build("stub://empty").unwrap();

    let anchor = lrm.add_lok(Lok::new_from_raw_data(
        "ANCHOR".to_string(),
        5000,
        "".to_string(),
        "".to_string(),
        "".to_string(),
        true,
        "".to_string(),
    ));
    let id = lrm.add_lok(Lok::new_from_raw_data(
        "TEST".to_string(),
        9000,
        "".to_string(),
        "".to_string(),
        "".to_string(),
        true,
        "".to_string(),
    ));
    assert_ne!(anchor, id);

    lrm.update_lok(
        id,
        Lok::new_from_raw_data(
            "REST5".to_string(),
            1141,
            "XYZ".to_string(),
            "EGHESDS".to_string(),
            "DB".to_string(),
            true,
            "".to_string(),
        ),
    );

    let result = lrm.get_lok(id).unwrap();
    assert_eq!(result.name, "REST5");
    assert_eq!(result.address.unwrap(), 1141);
    assert_eq!(result.lokmaus_name.unwrap(), String::from("XYZ"));
    assert_eq!(result.producer.unwrap(), String::from("EGHESDS"));
    assert_eq!(result.management.unwrap(), String::from("DB"));

    let previews = lrm.get_all_previews();
    assert_eq!(previews.len(), 2);
    assert_eq!(previews[0].get_id(), id);
    assert_eq!(previews[0].get_address(), Some(1141));
    assert_eq!(previews[0].get_name_pretty(), String::from("REST5"));
    assert_eq!(previews[1].get_id(), anchor);
}

#[test]
fn remove_drops_the_record_and_decrements_the_count() {
    let mut lrm = LokResourceManager::<StubBackend>::build("stub://empty").unwrap();

    let id = lrm.add_lok(get_test_lok_1());
    lrm.add_lok(get_test_lok_2());
    assert_eq!(lrm.number_of_loks(), 2);

    lrm.remove_lok(id);

    assert!(lrm.get_lok(id).is_none());
    assert_eq!(lrm.number_of_loks(), 1);
}

#[test]
fn removing_a_nonexistent_id_changes_nothing() {
    let mut lrm = LokResourceManager::<StubBackend>::build("stub://empty").unwrap();

    lrm.add_lok(get_test_lok_1());
    let before: Vec<u32> = lrm.get_all_previews().iter().map(|p| p.get_id()).collect();
    let cached_before = lrm.number_of_cached_loks();

    lrm.remove_lok(999);

    let after: Vec<u32> = lrm.get_all_previews().iter().map(|p| p.get_id()).collect();
    assert_eq!(before, after);
    assert_eq!(lrm.number_of_cached_loks(), cached_before);
    assert_eq!(lrm.number_of_loks(), 1);
}

#[test]
fn a_cached_record_is_served_without_asking_the_store() {
    let mut lrm =
        LokResourceManager::<StubBackend>::build("stub://seeded_one_fetch").unwrap();

    // The store holds one row the cache does not: the first lookup may ask
    // the store once, and the stub panics if it is ever asked again.
    let first = lrm.get_lok(1).unwrap();
    let second = lrm.get_lok(1).unwrap();

    assert_eq!(first.name, second.name);
    assert_eq!(first.address, second.address);
    assert_eq!(first.lokmaus_name, second.lokmaus_name);
    assert_eq!(first.producer, second.producer);
    assert_eq!(first.management, second.management);
    assert_eq!(first.has_decoder, second.has_decoder);
    assert_eq!(first.image_path, second.image_path);
}

#[test]
fn a_freshly_added_record_is_served_from_the_cache() {
    let mut lrm = LokResourceManager::<StubBackend>::build("stub://one_fetch_zero").unwrap();

    // Adding populates the cache, so no lookup may reach the store at all;
    // the stub panics on the second fetch, and the first would make the
    // count below fail.
    let id = lrm.add_lok(get_test_lok_1());
    assert!(lrm.get_lok(id).is_some());
    assert!(lrm.get_lok(id).is_some());
}

#[test]
fn an_absent_address_survives_the_store_round_trip() {
    let mut lrm = LokResourceManager::<StubBackend>::build("stub://empty").unwrap();

    let id = lrm.add_lok(Lok::new_from_raw_data(
        "NOADDR".to_string(),
        -1,
        "".to_string(),
        "".to_string(),
        "".to_string(),
        false,
        "".to_string(),
    ));

    let reloaded = lrm.get_lok(id).unwrap();
    assert_eq!(reloaded.address, None);
    assert_ne!(reloaded.address, Some(-1));
    assert_ne!(reloaded.address, Some(0));
}

#[test]
fn search_matches_against_the_lowercase_folded_text() {
    let mut lrm = LokResourceManager::<StubBackend>::build("stub://empty").unwrap();

    lrm.add_lok(get_test_lok_1());
    lrm.add_lok(get_test_lok_2());

    lrm.search_and_store_previews_containing("test".to_string());
    let results = lrm.get_search_results();
    assert_eq!(results.len(), 1);
    assert_eq!(results[0].get_name_pretty(), String::from("TEST"));

    lrm.search_and_store_previews_containing("none of this".to_string());
    assert_eq!(lrm.get_search_results().len(), 0);
}

#[test]
fn search_results_stay_stale_until_the_search_is_reissued() {
    let mut lrm = LokResourceManager::<StubBackend>::build("stub://empty").unwrap();

    lrm.add_lok(get_test_lok_1());
    lrm.search_and_store_previews_containing("test".to_string());
    assert_eq!(lrm.get_search_results().len(), 1);

    lrm.add_lok(Lok::new_from_raw_data(
        "TESTX".to_string(),
        7,
        "".to_string(),
        "".to_string(),
        "".to_string(),
        true,
        "".to_string(),
    ));

    assert_eq!(lrm.get_search_results().len(), 1);

    lrm.search_and_store_previews_containing("test".to_string());
    assert_eq!(lrm.get_search_results().len(), 2);
}

#[test]
fn previews_with_equal_addresses_keep_insertion_order() {
    let mut lrm = LokResourceManager::<StubBackend>::build("stub://empty").unwrap();

    lrm.add_lok(Lok::new_from_raw_data(
        "TEST".to_string(),
        114141,
        "14TE".to_string(),
        "Roco".to_string(),
        "ÖBB".to_string(),
        true,
        "".to_string(),
    ));
    lrm.add_lok(Lok::new_from_raw_data(
        "TEST1".to_string(),
        114141,
        "14TE".to_string(),
        "Roco".to_string(),
        "ÖBB".to_string(),
        true,
        "".to_string(),
    ));

    let mut previews = lrm.get_all_previews();

    assert_eq!(previews.pop().unwrap().get_name_pretty(), String::from("TEST1"));
    assert_eq!(previews.pop().unwrap().get_name_pretty(), String::from("TEST"));
}

#[test]
fn records_without_addresses_sort_by_name() {
    let mut lrm = LokResourceManager::<StubBackend>::build("stub://empty").unwrap();

    lrm.add_lok(Lok::new_from_raw_data(
        "ZEBRA".to_string(),
        -1,
        "".to_string(),
        "".to_string(),
        "".to_string(),
        false,
        "".to_string(),
    ));
    lrm.add_lok(Lok::new_from_raw_data(
        "ADLER".to_string(),
        -1,
        "".to_string(),
        "".to_string(),
        "".to_string(),
        false,
        "".to_string(),
    ));

    let previews = lrm.get_all_previews();
    assert_eq!(previews[0].get_name_pretty(), String::from("ADLER"));
    assert_eq!(previews[1].get_name_pretty(), String::from("ZEBRA"));
}

#[test]
fn previews_mirror_the_store_as_a_set_of_ids() {
    let mut lrm = LokResourceManager::<StubBackend>::build("stub://empty").unwrap();

    let id1 = lrm.add_lok(get_test_lok_1());
    let id2 = lrm.add_lok(get_test_lok_2());
    let id3 = lrm.add_lok(Lok::new_from_raw_data(
        "NONE".to_string(),
        -1,
        "".to_string(),
        "".to_string(),
        "".to_string(),
        false,
        "".to_string(),
    ));
    lrm.remove_lok(id1);

    let mut ids: Vec<u32> = lrm.get_all_previews().iter().map(|p| p.get_id()).collect();
    ids.sort();
    assert_eq!(ids, vec![id2, id3]);

    let addresses: Vec<Option<i32>> =
        lrm.get_all_previews().iter().map(|p| p.get_address()).collect();
    assert_eq!(addresses, vec![None, Some(100002)]);
}
