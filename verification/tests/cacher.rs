use pcap2socks::cacher::{CacheError, Cacher, RandomCacher};

#[test]
fn cacher_keeps_bytes_in_order() {
    let mut cache = Cacher::new(100);
    assert_eq!(cache.append(&[1, 2, 3]), Ok(()));
    assert_eq!(cache.append(&[4, 5]), Ok(()));
    assert_eq!(cache.get_all(), vec![1, 2, 3, 4, 5]);
    assert_eq!(cache.get(2), Ok(vec![1, 2]));
    assert_eq!(cache.get(6), Err(CacheError::Short));
    assert_eq!(cache.get_size(), 5);
    assert_eq!(cache.get_sequence(), 100);
}

#[test]
fn cacher_drops_what_is_acknowledged() {
    let mut cache = Cacher::new(100);
    cache.append(&[1, 2, 3, 4, 5]).unwrap();
    cache.invalidate_to(102);
    assert_eq!(cache.get_all(), vec![3, 4, 5]);
    assert_eq!(cache.get_sequence(), 102);
    cache.invalidate_to(101);
    assert_eq!(cache.get_all(), vec![3, 4, 5]);
    cache.invalidate_to(200);
    assert_eq!(cache.get_all(), Vec::<u8>::new());
    assert_eq!(cache.get_sequence(), 200);
}

#[test]
fn cacher_is_full_at_a_window() {
    let mut cache = Cacher::new(0);
    assert_eq!(cache.append(&vec![0; 65535]), Ok(()));
    assert_eq!(cache.append(&[1]), Err(CacheError::Full));
    assert_eq!(cache.get_size(), 65535);
    let mut cache = Cacher::new_extendable(0);
    assert_eq!(cache.append(&vec![0; 65535]), Ok(()));
    assert_eq!(cache.append(&[1]), Ok(()));
    assert_eq!(cache.get_size(), 65536);
}

#[test]
fn random_cacher_releases_what_it_waits_for() {
    let mut cache = RandomCacher::new(10);
    assert_eq!(cache.append(10, &[1, 2]), Ok(Some(vec![1, 2])));
    assert_eq!(cache.append(12, &[3]), Ok(Some(vec![3])));
    assert_eq!(cache.get_remaining_size(), 65535);
}

#[test]
fn random_cacher_joins_swapped_segments() {
    let mut cache = RandomCacher::new(10);
    assert_eq!(cache.append(12, &[3, 4]), Ok(None));
    assert_eq!(cache.get_remaining_size(), 65531);
    assert_eq!(cache.append(10, &[1, 2]), Ok(Some(vec![1, 2, 3, 4])));
    assert_eq!(cache.get_remaining_size(), 65535);
    assert_eq!(cache.append(14, &[5]), Ok(Some(vec![5])));
}

#[test]
fn random_cacher_takes_overlaps() {
    let mut cache = RandomCacher::new(10);
    assert_eq!(cache.append(13, &[4, 5]), Ok(None));
    assert_eq!(cache.append(11, &[2, 3, 4]), Ok(None));
    assert_eq!(cache.append(10, &[1, 2]), Ok(Some(vec![1, 2, 3, 4, 5])));
}

#[test]
fn random_cacher_ignores_old_segments() {
    let mut cache = RandomCacher::new(10);
    assert_eq!(cache.append(10, &[1, 2]), Ok(Some(vec![1, 2])));
    assert_eq!(cache.append(10, &[1, 2]), Ok(None));
    assert_eq!(cache.append(12, &[]), Ok(None));
    assert_eq!(cache.get_remaining_size(), 65535);
}

#[test]
fn random_cacher_is_full_at_a_window() {
    let mut cache = RandomCacher::new(0);
    assert_eq!(cache.append(1, &vec![7; 65535]), Err(CacheError::Full));
    assert_eq!(cache.append(65535, &[1]), Err(CacheError::Full));
    assert_eq!(cache.append(65534, &[1]), Ok(None));
    assert_eq!(cache.get_remaining_size(), 0);
    assert_eq!(cache.append(0, &[5]), Ok(Some(vec![5])));
}

#[test]
fn random_cacher_goes_past_the_last_number() {
    let mut cache = RandomCacher::new(u32::MAX - 1);
    assert_eq!(cache.append(2, &[4]), Ok(None));
    assert_eq!(
        cache.append(u32::MAX - 1, &[1, 2, 3]),
        Ok(Some(vec![1, 2, 3, 4]))
    );
    assert_eq!(cache.append(3, &[5]), Ok(Some(vec![5])));
}
