use lightning_dictionary::prefetch::{
    clear_prefetch_queue, get_prefetch_stats, queue_prefetch, PrefetchManager, PrefetchPriority,
    PrefetchRequest,
};

fn request(words: &[&str], priority: PrefetchPriority) -> PrefetchRequest {
    PrefetchRequest { words: words.iter().map(|w| w.to_string()).collect(), priority }
}

fn drain(manager: &mut PrefetchManager) -> Vec<String> {
    let mut order = Vec::new();
    loop {
        let batch = manager.process_prefetch_queue();
        if batch.is_empty() {
            break;
        }
        for word in batch {
            manager.finish_prefetch(&word, true);
            order.push(word);
        }
    }
    order
}

#[test]
fn words_leave_by_priority_then_arrival() {
    let mut m = PrefetchManager::new();
    assert!(m.queue_prefetch(request(&["low"], PrefetchPriority::Low)).is_ok());
    assert!(m.queue_prefetch(request(&["high1"], PrefetchPriority::High)).is_ok());
    assert!(m.queue_prefetch(request(&["medium"], PrefetchPriority::Medium)).is_ok());
    assert!(m.queue_prefetch(request(&["high2"], PrefetchPriority::High)).is_ok());
    assert_eq!(m.get_stats().prefetch_queue_size, 4);
    assert_eq!(drain(&mut m), vec!["high1", "high2", "medium", "low"]);
    assert_eq!(m.get_stats().total_prefetched, 4);
    assert_eq!(m.get_stats().prefetch_queue_size, 0);
    assert_eq!(m.get_stats().active_prefetches, 0);
}

#[test]
fn equal_priority_is_first_in_first_out() {
    let mut m = PrefetchManager::new();
    let _ = m.queue_prefetch(request(&["a", "b"], PrefetchPriority::Medium));
    let _ = m.queue_prefetch(request(&["c"], PrefetchPriority::Low));
    let _ = m.queue_prefetch(request(&["d", "e"], PrefetchPriority::Medium));
    let _ = m.queue_prefetch(request(&["f"], PrefetchPriority::Low));
    assert_eq!(drain(&mut m), vec!["a", "b", "d", "e", "c", "f"]);
}

#[test]
fn active_set_never_exceeds_the_cap() {
    let mut m = PrefetchManager::new();
    let words: Vec<String> = (0..10).map(|i| format!("w{}", i)).collect();
    let _ = m.queue_prefetch(PrefetchRequest { words: words.clone(), priority: PrefetchPriority::Medium });
    assert_eq!(m.get_stats().prefetch_queue_size, 10);

    let mut fetched: Vec<String> = Vec::new();
    let mut active: Vec<String> = Vec::new();
    let mut queued = 10;
    while queued > 0 || !active.is_empty() {
        let batch = m.process_prefetch_queue();
        for word in &batch {
            assert!(!active.contains(word));
            assert!(!fetched.contains(word));
        }
        queued -= batch.len();
        active.extend(batch);
        let stats = m.get_stats();
        assert!(stats.active_prefetches <= 3);
        assert_eq!(stats.active_prefetches, active.len());
        assert_eq!(stats.prefetch_queue_size, queued);
        // a second round while all slots are taken reserves nothing
        if active.len() == 3 {
            assert!(m.process_prefetch_queue().is_empty());
        }
        // one fetch ends
        let done = active.remove(0);
        m.finish_prefetch(&done, true);
        fetched.push(done);
        assert_eq!(m.get_stats().active_prefetches, active.len());
    }
    assert_eq!(fetched, words);
    assert_eq!(m.get_stats().total_prefetched, 10);
}

#[test]
fn first_round_takes_three_words() {
    let mut m = PrefetchManager::new();
    let _ = m.queue_prefetch(request(&["a", "b", "c", "d"], PrefetchPriority::High));
    assert_eq!(m.process_prefetch_queue(), vec!["a", "b", "c"]);
    assert_eq!(m.get_stats().active_prefetches, 3);
    assert_eq!(m.get_stats().prefetch_queue_size, 1);
    assert_eq!(m.poll_interval_ms(), 100);
}

#[test]
fn active_words_are_not_queued_again() {
    let mut m = PrefetchManager::new();
    let _ = m.queue_prefetch(request(&["a", "b"], PrefetchPriority::High));
    assert_eq!(m.process_prefetch_queue(), vec!["a", "b"]);
    let _ = m.queue_prefetch(request(&["b", "c", "a"], PrefetchPriority::High));
    assert_eq!(m.get_stats().prefetch_queue_size, 1);
    assert_eq!(m.process_prefetch_queue(), vec!["c"]);
    m.finish_prefetch("a", true);
    let _ = m.queue_prefetch(request(&["a"], PrefetchPriority::Low));
    assert_eq!(m.get_stats().prefetch_queue_size, 1);
}

#[test]
fn word_queued_twice_is_fetched_once_at_a_time() {
    let mut m = PrefetchManager::new();
    let _ = m.queue_prefetch(request(&["a", "a", "b"], PrefetchPriority::High));
    assert_eq!(m.get_stats().prefetch_queue_size, 3);
    assert_eq!(m.process_prefetch_queue(), vec!["a", "b"]);
    assert_eq!(m.get_stats().active_prefetches, 2);
    assert_eq!(m.get_stats().prefetch_queue_size, 0);
}

#[test]
fn failed_fetch_is_not_counted() {
    let mut m = PrefetchManager::new();
    let _ = m.queue_prefetch(request(&["a", "b"], PrefetchPriority::High));
    let _ = m.process_prefetch_queue();
    m.finish_prefetch("a", false);
    m.finish_prefetch("b", true);
    m.finish_prefetch("never-started", false);
    let stats = m.get_stats();
    assert_eq!(stats.total_prefetched, 1);
    assert_eq!(stats.active_prefetches, 0);
}

#[test]
fn clearing_the_queue_keeps_active_words() {
    let mut m = PrefetchManager::new();
    let _ = m.queue_prefetch(request(&["a", "b", "c", "d", "e"], PrefetchPriority::High));
    let _ = m.process_prefetch_queue();
    m.clear_queue();
    let stats = m.get_stats();
    assert_eq!(stats.prefetch_queue_size, 0);
    assert_eq!(stats.active_prefetches, 3);
    assert!(m.process_prefetch_queue().is_empty());
}

#[test]
fn cache_hits_are_counted() {
    let mut m = PrefetchManager::new();
    m.track_cache_hit("a");
    m.track_cache_hit("a");
    assert_eq!(m.get_stats().cache_hits_from_prefetch, 2);
    assert_eq!(m.get_stats().total_prefetched, 0);
}

#[test]
fn labels_name_priorities() {
    assert_eq!(PrefetchPriority::from_label("high"), PrefetchPriority::High);
    assert_eq!(PrefetchPriority::from_label("medium"), PrefetchPriority::Medium);
    assert_eq!(PrefetchPriority::from_label("low"), PrefetchPriority::Low);
    assert_eq!(PrefetchPriority::from_label("High"), PrefetchPriority::Medium);
    assert_eq!(PrefetchPriority::from_label(""), PrefetchPriority::Medium);
    assert_eq!(PrefetchPriority::from_label("urgent"), PrefetchPriority::Medium);
}

#[test]
fn commands_go_through_the_scheduler() {
    let mut m = PrefetchManager::new();
    assert!(queue_prefetch(&mut m, vec!["l".to_string()], "low".to_string()).is_ok());
    assert!(queue_prefetch(&mut m, vec!["d".to_string()], "whatever".to_string()).is_ok());
    assert!(queue_prefetch(&mut m, vec!["h".to_string()], "high".to_string()).is_ok());
    assert_eq!(get_prefetch_stats(&m).unwrap().prefetch_queue_size, 3);
    assert_eq!(m.process_prefetch_queue(), vec!["h", "d", "l"]);
    let _ = queue_prefetch(&mut m, vec!["x".to_string()], "medium".to_string());
    assert!(clear_prefetch_queue(&mut m).is_ok());
    assert_eq!(get_prefetch_stats(&m).unwrap().prefetch_queue_size, 0);
    assert_eq!(get_prefetch_stats(&m).unwrap().active_prefetches, 3);
}
