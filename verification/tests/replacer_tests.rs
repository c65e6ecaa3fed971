use rustydb::replacer::{AccessType, LRUKNode, LRUKReplacer};
use rustydb::INF;

const DUMMY_ACCESS_TYPE: AccessType = AccessType::Lookup;

fn tracked_count(replacer: &LRUKReplacer) -> usize {
    replacer.node_store.iter().filter(|n| n.is_some()).count()
}

fn get_node<'a>(replacer: &'a LRUKReplacer, frame_id: &usize) -> &'a LRUKNode {
    replacer.node_store[*frame_id]
        .as_ref()
        .expect("No node corresponding to the frame id exists in the replacer node store.")
}

fn get_new_frame_and_record_access(replacer: &mut LRUKReplacer) -> usize {
    assert!(!replacer.is_full_capacity());
    // pick a frame id in [0, max_size) that is not currently in use
    let mut new_frame_id = replacer.max_size - 1;
    for frame_id in 0..replacer.max_size {
        if replacer.node_store[frame_id].is_some() {
            if frame_id == 0 {
                continue;
            }
            if replacer.node_store[frame_id - 1].is_none() {
                new_frame_id = frame_id - 1;
                break;
            }
        }
    }
    replacer.record_access(&new_frame_id, DUMMY_ACCESS_TYPE).unwrap();
    new_frame_id
}

fn get_backwards_k_distance_for_node(replacer: &mut LRUKReplacer, frame_id: &usize) -> usize {
    let current = replacer.current_timestamp;
    get_node(replacer, frame_id).get_backwards_k_distance(current)
}

fn record_access_frames_n_times(replacer: &mut LRUKReplacer, frame_ids: &Vec<usize>, n: usize) {
    for frame_id in frame_ids {
        for _ in 0..n {
            replacer.record_access(frame_id, AccessType::Lookup).unwrap();
        }
    }
}

fn set_multiple_frames_evictable(replacer: &mut LRUKReplacer, frame_ids: &Vec<usize>) {
    for frame_id in frame_ids {
        replacer.set_evictable(frame_id, true).unwrap();
    }
}

#[test]
fn test_evict_basic() {
    let k = 3_usize;
    let mut replacer = LRUKReplacer::builder().max_size(10).k(k).build();

    // no frames to evict.
    assert_eq!(replacer.evict(), None);

    let oldest_fid = get_new_frame_and_record_access(&mut replacer);
    let fid2 = get_new_frame_and_record_access(&mut replacer);
    let fid3 = get_new_frame_and_record_access(&mut replacer);

    // none of the frames are set to evictable.
    assert_eq!(replacer.evict(), None);

    // all frames have infinite backwards k-distance; evict based on LRU.
    set_multiple_frames_evictable(&mut replacer, &vec![oldest_fid, fid2, fid3]);
    assert_eq!(replacer.evict().unwrap(), oldest_fid);

    // evict based on LRU even if one of the frames has non-infinite backwards k-distance.
    let fid4 = get_new_frame_and_record_access(&mut replacer);
    replacer.set_evictable(&fid4, true).unwrap();
    record_access_frames_n_times(&mut replacer, &vec![fid2, fid3], k);
    assert!(!get_node(&replacer, &fid2).has_infinite_backwards_k_distance());
    assert!(!get_node(&replacer, &fid3).has_infinite_backwards_k_distance());
    assert_eq!(replacer.evict().unwrap(), fid4);

    // when evicting based on LRU-k, frame with the largest backwards k-distance is evicted.
    let fid2_k_distance = get_backwards_k_distance_for_node(&mut replacer, &fid2);
    let fid3_k_distance = get_backwards_k_distance_for_node(&mut replacer, &fid3);
    assert!(fid2_k_distance > fid3_k_distance);
    assert_eq!(replacer.evict().unwrap(), fid2);
}

#[test]
fn test_record_access_panics_for_invalid_frame_id() {
    let replacer_size = 5_usize;
    let mut replacer = LRUKReplacer::builder()
        .max_size(replacer_size)
        .k(100)
        .build();

    let invalid_frame_id = replacer_size;
    assert!(replacer
        .record_access(&invalid_frame_id, AccessType::Lookup)
        .is_err());
}

#[test]
fn test_record_access() {
    let mut replacer = LRUKReplacer::builder().max_size(10).k(5).build();
    let mut current_timestamp = replacer.current_timestamp;

    // record access on a new frame will add new node with curr timestamp and increment timestamp.
    let frame_id = get_new_frame_and_record_access(&mut replacer);
    let node = get_node(&replacer, &frame_id);
    assert_eq!(tracked_count(&replacer), 1);
    assert_eq!(replacer.current_timestamp, current_timestamp + 1);
    assert_eq!(node.history.len(), 1);
    assert_eq!(*node.history.last().unwrap(), current_timestamp);

    current_timestamp += 1;

    // record access on existing frame will push current timestamp to corresponding node's history.
    replacer.record_access(&frame_id, AccessType::Lookup).unwrap();
    let node = get_node(&replacer, &frame_id);
    assert_eq!(tracked_count(&replacer), 1);
    assert_eq!(replacer.current_timestamp, current_timestamp + 1);
    assert_eq!(node.history.len(), 2);
    assert_eq!(*node.history.last().unwrap(), current_timestamp);
    assert_eq!(*node.history.first().unwrap(), current_timestamp - 1);
}

#[test]
fn test_backwards_k_distance() {
    let mut k = 5_usize;
    let mut replacer = LRUKReplacer::builder().max_size(10).k(k).build();

    let frame_id = get_new_frame_and_record_access(&mut replacer);
    while k > 2 {
        replacer.record_access(&frame_id, AccessType::Lookup).unwrap();
        assert_eq!(
            get_backwards_k_distance_for_node(&mut replacer, &frame_id),
            INF
        );
        k -= 1;
    }
    for _ in 0..2 {
        replacer.record_access(&frame_id, AccessType::Lookup).unwrap();
        assert_eq!(get_backwards_k_distance_for_node(&mut replacer, &frame_id), 5);
    }
}

#[test]
fn lru_k_tie_break_prefers_least_recent() {
    // three frames, each accessed once: all have infinite distance, and the
    // least recently used one leaves first
    let mut replacer = LRUKReplacer::builder().max_size(3).k(2).build();
    replacer.record_access(&0, AccessType::Lookup).unwrap();
    replacer.record_access(&1, AccessType::Lookup).unwrap();
    replacer.record_access(&2, AccessType::Lookup).unwrap();
    replacer.set_evictable(&0, true).unwrap();
    replacer.set_evictable(&1, true).unwrap();
    replacer.set_evictable(&2, true).unwrap();
    assert_eq!(replacer.evict().unwrap(), 0);

    // give the two survivors finite distances, then make the second's
    // second-most-recent access the older one: it must leave first
    replacer.record_access(&1, AccessType::Lookup).unwrap();
    replacer.record_access(&2, AccessType::Lookup).unwrap();
    replacer.record_access(&2, AccessType::Lookup).unwrap();
    replacer.record_access(&1, AccessType::Lookup).unwrap();
    // frame 1 now remembers accesses at times 3 and 6, frame 2 at 4 and 5:
    // frame 1's second-most-recent access lies farther back, so it leaves
    assert_eq!(replacer.evict().unwrap(), 1);
    assert_eq!(replacer.evict().unwrap(), 2);
    assert_eq!(replacer.evict(), None);
}
