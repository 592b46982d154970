use useful_api::cache::TtlSlot;

#[test]
fn fresh_hit_returns_cached_value_without_fetch() {
    let mut slot: TtlSlot<u64> = TtlSlot::new(10);
    assert!(slot.get_fresh(0).is_none());
    let stored = slot.complete_refresh(5, Ok::<u64, String>(42));
    assert!(stored.is_ok());
    assert_eq!(slot.fetch_count(), 1);
    // elapsed 9 < ttl 10: the identical value comes back, twice, with no fetch
    assert_eq!(slot.get_fresh(14).copied(), Some(42));
    assert_eq!(slot.get_fresh(14).copied(), Some(42));
    assert_eq!(slot.fetch_count(), 1);
    // elapsed 10 >= ttl 10: expired
    assert!(slot.get_fresh(15).is_none());
}

#[test]
fn stampede_of_concurrent_callers_fetches_once() {
    let mut slot: TtlSlot<u64> = TtlSlot::new(10);
    slot.complete_refresh(0, Ok::<u64, String>(1)).unwrap();
    assert_eq!(slot.fetch_count(), 1);
    // all callers observe staleness at the same instant, then take the
    // exclusive section in turn, re-checking before fetching
    let now = 20u64;
    let mut results = Vec::new();
    let mut caller: u64 = 0;
    while caller < 3 {
        match slot.get_fresh(now).copied() {
            Some(v) => results.push(v),
            None => {
                let fetched = 100 + caller;
                slot.complete_refresh(now, Ok::<u64, String>(fetched)).unwrap();
                results.push(slot.get_fresh(now).copied().unwrap());
            }
        }
        caller += 1;
    }
    // exactly one fetch for the whole stampede, and every caller saw it
    assert_eq!(slot.fetch_count(), 2);
    assert_eq!(results, vec![100, 100, 100]);
}

#[test]
fn failed_refresh_leaves_entry_untouched() {
    let mut slot: TtlSlot<u64> = TtlSlot::new(10);
    slot.complete_refresh(0, Ok::<u64, String>(7)).unwrap();
    let err = slot.complete_refresh(20, Err::<u64, String>("Error fetching data".to_string()));
    assert_eq!(err, Err("Error fetching data".to_string()));
    // the old entry is still there, stamped at its old time
    assert_eq!(slot.get_fresh(5).copied(), Some(7));
    assert_eq!(slot.fetch_count(), 2);
}

#[test]
fn failed_refresh_on_empty_slot_stores_nothing() {
    let mut slot: TtlSlot<String> = TtlSlot::new(600);
    let err = slot.complete_refresh(3, Err::<String, String>("boom".to_string()));
    assert!(err.is_err());
    assert!(slot.get_fresh(3).is_none());
    assert_eq!(slot.fetch_count(), 1);
    assert_eq!(slot.ttl(), 600);
}

#[test]
fn entry_stamped_after_now_counts_as_fresh() {
    let mut slot: TtlSlot<u64> = TtlSlot::new(10);
    slot.complete_refresh(50, Ok::<u64, String>(9)).unwrap();
    assert_eq!(slot.get_fresh(49).copied(), Some(9));
}
