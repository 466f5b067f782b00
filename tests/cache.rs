use mascord_memory::cache::MessageCache;
use mascord_memory::message::CachedMessage;

fn mock_message(id: u64, channel_id: u64) -> CachedMessage {
    CachedMessage::new(id, channel_id, 1, String::new(), format!("Message {}", id), 0)
}

fn stamped(id: u64, channel_id: u64, author_id: u64, timestamp: i64) -> CachedMessage {
    CachedMessage::new(id, channel_id, author_id, String::from("user"), format!("Message {}", id), timestamp)
}

fn now_secs() -> i64 {
    chrono::Utc::now().timestamp()
}

#[test]
fn test_cache_lru() {
    let mut cache = MessageCache::new(2);

    let m1 = mock_message(1, 100);
    let m2 = mock_message(2, 100);
    let m3 = mock_message(3, 100);

    cache.insert(m1.clone());
    cache.insert(m2.clone());

    assert!(cache.get(1).is_some());
    assert!(cache.get(2).is_some());

    cache.insert(m3.clone());
    assert!(cache.get(3).is_some());

    // Check that it stays within capacity (2 messages max)
    let mut count = 0;
    if cache.get(1).is_some() {
        count += 1;
    }
    if cache.get(2).is_some() {
        count += 1;
    }
    if cache.get(3).is_some() {
        count += 1;
    }

    assert_eq!(count, 2);
}

#[test]
fn test_cache_channel_history() {
    let mut cache = MessageCache::new(100);

    cache.insert(mock_message(1, 100));
    cache.insert(mock_message(2, 100));
    cache.insert(mock_message(3, 200));
    cache.insert(mock_message(4, 100));
    cache.insert(mock_message(5, 100));

    let history = cache.get_channel_history(100, 10);
    assert_eq!(history.len(), 4);

    assert_eq!(history[0].content, "Message 1");
    assert_eq!(history[3].content, "Message 5");

    let limited = cache.get_channel_history(100, 2);
    assert_eq!(limited.len(), 2);
    assert_eq!(limited[0].content, "Message 4");
    assert_eq!(limited[1].content, "Message 5");

    let history_200 = cache.get_channel_history(200, 10);
    assert_eq!(history_200.len(), 1);

    let empty = cache.get_channel_history(999, 10);
    assert!(empty.is_empty());
}

#[test]
fn test_cache_cleanup_old_messages() {
    let mut cache = MessageCache::new(10);

    let old_msg = stamped(1, 100, 1, 1);
    cache.insert(old_msg);

    let new_msg = stamped(2, 100, 1, now_secs());
    cache.insert(new_msg);

    let removed = cache.cleanup_old_messages(1);
    assert_eq!(removed, 1);

    let history = cache.get_channel_history(100, 10);
    assert_eq!(history.len(), 1);
    assert_eq!(history[0].id, 2);
}

#[test]
fn lru_bound_evicts_least_recent_and_keeps_newest() {
    let mut cache = MessageCache::new(3);
    for id in 1..=4 {
        cache.insert(mock_message(id, 7));
    }
    assert!(cache.get(1).is_none());
    for id in 2..=4 {
        assert!(cache.get(id).is_some());
    }
}

#[test]
fn lru_read_protects_from_eviction() {
    let mut cache = MessageCache::new(2);
    cache.insert(mock_message(1, 7));
    cache.insert(mock_message(2, 7));
    assert!(cache.get(1).is_some());
    cache.insert(mock_message(3, 7));
    assert!(cache.get(1).is_some());
    assert!(cache.get(2).is_none());
    assert!(cache.get(3).is_some());
}

#[test]
fn zero_capacity_falls_back_to_a_hundred_entries() {
    let mut cache = MessageCache::new(0);
    for id in 1..=101 {
        cache.insert(mock_message(id, 7));
    }
    assert!(cache.get(1).is_none());
    assert!(cache.get(2).is_some());
    assert!(cache.get(101).is_some());
    let history = cache.get_channel_history(7, 3);
    let ids: Vec<u64> = history.iter().map(|m| m.id).collect();
    assert_eq!(ids, vec![99, 100, 101]);
}

#[test]
fn reinserting_an_id_updates_it() {
    let mut cache = MessageCache::new(5);
    cache.insert(mock_message(1, 7));
    let mut changed = mock_message(1, 7);
    changed.content = String::from("edited");
    cache.insert(changed);
    assert_eq!(cache.get(1).unwrap().content, "edited");
}

#[test]
fn history_ordering_oldest_first() {
    let mut cache = MessageCache::new(100);
    for id in 1..=5 {
        cache.insert(mock_message(id, 42));
    }
    let all: Vec<u64> = cache.get_channel_history(42, 10).iter().map(|m| m.id).collect();
    assert_eq!(all, vec![1, 2, 3, 4, 5]);
    let last_two: Vec<u64> = cache.get_channel_history(42, 2).iter().map(|m| m.id).collect();
    assert_eq!(last_two, vec![4, 5]);
    assert!(cache.get_channel_history(42, 0).is_empty());
}

#[test]
fn history_is_isolated_per_channel() {
    let mut cache = MessageCache::new(100);
    cache.insert(mock_message(1, 10));
    cache.insert(mock_message(2, 20));
    cache.insert(mock_message(3, 10));
    cache.insert(mock_message(4, 20));
    let b = cache.get_channel_history(20, 10);
    assert_eq!(b.len(), 2);
    assert!(b.iter().all(|m| m.channel_id == 20));
}

#[test]
fn history_skips_evicted_messages() {
    let mut cache = MessageCache::new(2);
    cache.insert(mock_message(1, 10));
    cache.insert(mock_message(2, 10));
    cache.insert(mock_message(3, 10));
    let ids: Vec<u64> = cache.get_channel_history(10, 10).iter().map(|m| m.id).collect();
    assert_eq!(ids, vec![2, 3]);
}

#[test]
fn channel_queue_is_bounded_to_twice_the_capacity() {
    let mut cache = MessageCache::new(1);
    cache.insert(mock_message(1, 10));
    cache.insert(mock_message(2, 10));
    cache.insert(mock_message(3, 10));
    // only the last message is cached, and the queue keeps two ids
    let ids: Vec<u64> = cache.get_channel_history(10, 10).iter().map(|m| m.id).collect();
    assert_eq!(ids, vec![3]);
}

#[test]
fn retention_sweep_removes_only_the_older_message() {
    let now = now_secs();
    let mut cache = MessageCache::new(10);
    cache.insert(stamped(1, 5, 1, now - 48 * 3600));
    cache.insert(stamped(2, 5, 1, now - 3600));
    assert_eq!(cache.cleanup_old_messages(24), 1);
    assert!(cache.get(1).is_none());
    assert!(cache.get(2).is_some());
    let ids: Vec<u64> = cache.get_channel_history(5, 10).iter().map(|m| m.id).collect();
    assert_eq!(ids, vec![2]);
}

#[test]
fn retention_of_zero_is_a_no_op() {
    let mut cache = MessageCache::new(10);
    cache.insert(stamped(1, 5, 1, 1));
    assert_eq!(cache.cleanup_old_messages(0), 0);
    assert!(cache.get(1).is_some());
}

#[test]
fn remove_before_cutoff_is_exact_at_the_boundary() {
    let mut cache = MessageCache::new(10);
    cache.insert(stamped(1, 5, 1, 99));
    cache.insert(stamped(2, 5, 1, 100));
    assert_eq!(cache.remove_messages_before(100), 1);
    assert!(cache.get(1).is_none());
    assert!(cache.get(2).is_some());
}

#[test]
fn purge_removes_only_that_users_messages() {
    let mut cache = MessageCache::new(10);
    cache.insert(stamped(1, 5, 7, 10));
    cache.insert(stamped(2, 6, 8, 10));
    cache.insert(stamped(3, 6, 7, 10));
    assert_eq!(cache.purge_user_messages(7), 2);
    assert!(cache.get(1).is_none());
    assert!(cache.get(3).is_none());
    assert!(cache.get(2).is_some());
    assert!(cache.get_channel_history(5, 10).is_empty());
    assert_eq!(cache.get_channel_history(6, 10).len(), 1);
}
