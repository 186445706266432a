use secretd::memory::BlockError;
use secretd::store::{SecureStore, StoreError, BLOCK_PADDING, KEY_BYTES};

fn key_of_bytes(byte: u8) -> Vec<u8> {
    vec![byte; 32]
}

#[test]
fn key_and_padding_have_thirty_two_bytes() {
    assert_eq!(KEY_BYTES, 32);
    assert_eq!(BLOCK_PADDING, 32);
}

#[test]
fn new_store_is_empty() {
    let mut store = SecureStore::new();
    assert_eq!(store.len(), 0);
    assert_eq!(store.get_secret("anything"), None);
    assert!(!store.contains("anything"));
    assert_eq!(store.block_page_size(), page_size::get());
}

#[test]
fn stored_secret_comes_back() {
    let mut store = SecureStore::with_page_size(4096);
    let done = store.store_secret_with_key(
        "API_KEY".to_string(),
        "s3cr3t-value".to_string(),
        key_of_bytes(0x80),
    );
    assert_eq!(done, Ok(()));
    assert_eq!(store.get_secret("API_KEY"), Some("s3cr3t-value".to_string()));
    assert_eq!(store.len(), 1);
    assert!(store.contains("API_KEY"));
    assert_eq!(store.key_of("API_KEY"), Some(key_of_bytes(0x80)));
}

#[test]
fn stored_text_beyond_ascii_comes_back() {
    let mut store = SecureStore::with_page_size(64);
    let done =
        store.store_secret_with_key("name".to_string(), "pässwörd ✓".to_string(), key_of_bytes(1));
    assert_eq!(done, Ok(()));
    assert_eq!(store.get_secret("name"), Some("pässwörd ✓".to_string()));
}

#[test]
fn empty_secret_comes_back_empty() {
    let mut store = SecureStore::with_page_size(64);
    assert_eq!(
        store.store_secret_with_key("empty".to_string(), String::new(), key_of_bytes(3)),
        Ok(())
    );
    assert_eq!(store.get_secret("empty"), Some(String::new()));
}

#[test]
fn secret_comes_back_whole_where_a_byte_meets_an_equal_key_byte() {
    let mut store = SecureStore::with_page_size(4096);
    let mut key = key_of_bytes(0x80);
    key[3] = b'd';
    let done = store.store_secret_with_key("k".to_string(), "abcdef".to_string(), key);
    assert_eq!(done, Ok(()));
    assert_eq!(store.get_secret("k"), Some("abcdef".to_string()));
}

#[test]
fn secret_comes_back_whole_where_every_byte_equals_the_key() {
    let mut store = SecureStore::with_page_size(4096);
    let done = store.store_secret_with_key("k".to_string(), "a".to_string(), key_of_bytes(0x61));
    assert_eq!(done, Ok(()));
    assert_eq!(store.get_secret("k"), Some("a".to_string()));
    let done = store.store_secret_with_key("long".to_string(), "a".repeat(100), key_of_bytes(0x61));
    assert_eq!(done, Ok(()));
    assert_eq!(store.get_secret("long"), Some("a".repeat(100)));
}

#[test]
fn secret_with_a_zero_byte_comes_back_whole() {
    let mut store = SecureStore::with_page_size(4096);
    let done =
        store.store_secret_with_key("k".to_string(), "a\0b\0".to_string(), key_of_bytes(0));
    assert_eq!(done, Ok(()));
    assert_eq!(store.get_secret("k"), Some("a\0b\0".to_string()));
}

#[test]
fn letters_of_more_than_one_byte_come_back_whole_under_any_key() {
    let mut store = SecureStore::with_page_size(4096);
    let mut key = key_of_bytes(0x11);
    key[1] = 0xA9;
    let done = store.store_secret_with_key("k".to_string(), "é".to_string(), key);
    assert_eq!(done, Ok(()));
    assert_eq!(store.get_secret("k"), Some("é".to_string()));
}

#[test]
fn secret_under_a_drawn_key_comes_back() {
    let mut store = SecureStore::new();
    assert_eq!(store.store_secret("API_KEY".to_string(), "s3cr3t".to_string()), Ok(()));
    assert_eq!(store.get_secret("API_KEY"), Some("s3cr3t".to_string()));
}

#[test]
fn shorter_secret_replaces_a_longer_one() {
    let mut store = SecureStore::new();
    assert_eq!(
        store.store_secret("k".to_string(), "a-much-longer-old-value".to_string()),
        Ok(())
    );
    assert_eq!(store.store_secret("k".to_string(), "new".to_string()), Ok(()));
    assert_eq!(store.get_secret("k"), Some("new".to_string()));
    assert_eq!(store.len(), 1);
}

#[test]
fn two_names_under_drawn_keys_read_back() {
    let mut store = SecureStore::new();
    assert_eq!(store.store_secret("A".to_string(), "1".to_string()), Ok(()));
    assert_eq!(store.store_secret("B".to_string(), "2".to_string()), Ok(()));
    assert_eq!(store.get_secret("A"), Some("1".to_string()));
    assert_eq!(store.get_secret("B"), Some("2".to_string()));
}

#[test]
fn reading_twice_gives_the_same() {
    let mut store = SecureStore::with_page_size(64);
    assert_eq!(
        store.store_secret_with_key("k".to_string(), "value".to_string(), key_of_bytes(0x42)),
        Ok(())
    );
    assert_eq!(store.get_secret("k"), Some("value".to_string()));
    assert_eq!(store.get_secret("k"), Some("value".to_string()));
    assert_eq!(store.key_of("k"), Some(key_of_bytes(0x42)));
    assert_eq!(store.get_secret("k"), Some("value".to_string()));
}

#[test]
fn second_store_replaces_the_first() {
    let mut store = SecureStore::with_page_size(4096);
    assert_eq!(
        store.store_secret_with_key("k".to_string(), "first".to_string(), key_of_bytes(0x90)),
        Ok(())
    );
    assert_eq!(
        store.store_secret_with_key("k".to_string(), "second".to_string(), key_of_bytes(0xA0)),
        Ok(())
    );
    assert_eq!(store.get_secret("k"), Some("second".to_string()));
    assert_eq!(store.key_of("k"), Some(key_of_bytes(0xA0)));
    assert_eq!(store.len(), 1);
}

#[test]
fn name_never_stored_is_absent() {
    let mut store = SecureStore::with_page_size(4096);
    assert_eq!(store.get_secret("missing"), None);
    assert_eq!(
        store.store_secret_with_key("present".to_string(), "v".to_string(), key_of_bytes(0x80)),
        Ok(())
    );
    assert_eq!(store.get_secret("missing"), None);
    assert_eq!(store.key_of("missing"), None);
}

#[test]
fn storing_under_one_name_leaves_the_others() {
    let mut store = SecureStore::with_page_size(4096);
    assert_eq!(
        store.store_secret_with_key("k1".to_string(), "one".to_string(), key_of_bytes(0x81)),
        Ok(())
    );
    assert_eq!(
        store.store_secret_with_key("k2".to_string(), "two".to_string(), key_of_bytes(0x82)),
        Ok(())
    );
    assert_eq!(
        store.store_secret_with_key("k1".to_string(), "uno".to_string(), key_of_bytes(0x83)),
        Ok(())
    );
    assert_eq!(store.get_secret("k2"), Some("two".to_string()));
    assert_eq!(store.key_of("k2"), Some(key_of_bytes(0x82)));
    assert_eq!(store.get_secret("k1"), Some("uno".to_string()));
    assert_eq!(store.len(), 2);
}

#[test]
fn key_of_the_wrong_length_is_refused() {
    let mut store = SecureStore::with_page_size(4096);
    assert_eq!(
        store.store_secret_with_key("k".to_string(), "v".to_string(), vec![1u8; 31]),
        Err(StoreError::InvalidKey)
    );
    assert_eq!(
        store.store_secret_with_key("k".to_string(), "v".to_string(), Vec::new()),
        Err(StoreError::InvalidKey)
    );
    assert_eq!(store.get_secret("k"), None);
    assert_eq!(store.len(), 0);
}

#[test]
fn secret_without_a_block_is_an_allocation_error() {
    let mut store = SecureStore::with_page_size(0);
    assert_eq!(
        store.store_secret_with_key("k".to_string(), "v".to_string(), key_of_bytes(0x80)),
        Err(StoreError::AllocationError)
    );
    assert_eq!(store.store_secret("k".to_string(), "v".to_string()), Err(StoreError::AllocationError));
    assert_eq!(store.get_secret("k"), None);
}

#[test]
fn failed_store_keeps_the_earlier_secret() {
    let mut store = SecureStore::with_page_size(4096);
    assert_eq!(
        store.store_secret_with_key("k".to_string(), "kept".to_string(), key_of_bytes(0x80)),
        Ok(())
    );
    assert_eq!(
        store.store_secret_with_key("k".to_string(), "lost".to_string(), vec![0u8; 5]),
        Err(StoreError::InvalidKey)
    );
    assert_eq!(store.get_secret("k"), Some("kept".to_string()));
}

#[test]
fn block_errors_have_their_names_in_the_store() {
    assert_eq!(StoreError::from_block(BlockError::AllocationError), StoreError::AllocationError);
    assert_eq!(StoreError::from_block(BlockError::CapacityExceeded), StoreError::CapacityExceeded);
}

#[test]
fn store_secret_draws_a_key_of_thirty_two_bytes() {
    let mut store = SecureStore::new();
    assert_eq!(store.store_secret("a".to_string(), "value".to_string()), Ok(()));
    assert_eq!(store.store_secret("b".to_string(), "value".to_string()), Ok(()));
    let first = store.key_of("a").unwrap();
    let second = store.key_of("b").unwrap();
    assert_eq!(first.len(), 32);
    assert_eq!(second.len(), 32);
    assert_ne!(first, second);
}

#[test]
fn removed_secret_is_gone_and_its_blocks_are_wiped() {
    let mut store = SecureStore::with_page_size(64);
    assert_eq!(
        store.store_secret_with_key("k".to_string(), "value".to_string(), key_of_bytes(0x80)),
        Ok(())
    );
    let released = store.remove_secret("k").unwrap();
    assert_eq!(released.data.capacity(), 64);
    assert!(released.data.is_accessible());
    assert_eq!(released.data.read_raw(64), Some(vec![0u8; 64]));
    assert_eq!(released.key.capacity(), 64);
    assert!(released.key.is_accessible());
    assert_eq!(released.key.read_raw(64), Some(vec![0u8; 64]));
    assert_eq!(store.get_secret("k"), None);
    assert_eq!(store.len(), 0);
    assert!(store.remove_secret("k").is_none());
}

#[test]
fn replaced_secret_leaves_wiped_blocks() {
    let mut store = SecureStore::with_page_size(16);
    let first = store.replace_secret_with_key(
        "k".to_string(),
        "x".repeat(33),
        key_of_bytes(0x80),
    );
    assert!(matches!(first, Ok(None)));
    let second =
        store.replace_secret_with_key("k".to_string(), "new".to_string(), key_of_bytes(0x90));
    let released = second.unwrap().unwrap();
    assert_eq!(released.data.capacity(), 80);
    assert_eq!(released.data.read_raw(80), Some(vec![0u8; 80]));
    assert_eq!(released.key.capacity(), 32);
    assert_eq!(released.key.read_raw(32), Some(vec![0u8; 32]));
    assert_eq!(store.get_secret("k"), Some("new".to_string()));
    let refused = store.replace_secret_with_key("k".to_string(), "lost".to_string(), vec![1, 2]);
    assert!(matches!(refused, Err(StoreError::InvalidKey)));
    assert_eq!(store.get_secret("k"), Some("new".to_string()));
}

#[test]
fn block_has_room_for_the_sealed_bytes_and_the_padding() {
    let mut store = SecureStore::with_page_size(16);
    assert_eq!(
        store.store_secret_with_key("k".to_string(), "x".repeat(33), key_of_bytes(0x80)),
        Ok(())
    );
    // 33 sealed bytes and 32 of padding need five pages of 16 bytes.
    assert_eq!(store.remove_secret("k").unwrap().data.capacity(), 80);
}

#[test]
fn wipe_empties_the_store() {
    let mut store = SecureStore::with_page_size(64);
    assert_eq!(
        store.store_secret_with_key("a".to_string(), "1".to_string(), key_of_bytes(0x80)),
        Ok(())
    );
    assert_eq!(
        store.store_secret_with_key("b".to_string(), "2".to_string(), key_of_bytes(0x80)),
        Ok(())
    );
    let released = store.wipe();
    assert_eq!(released.len(), 2);
    for blocks in &released {
        assert_eq!(blocks.data.read_raw(64), Some(vec![0u8; 64]));
        assert_eq!(blocks.key.read_raw(64), Some(vec![0u8; 64]));
    }
    assert!(store.wipe().is_empty());
    assert_eq!(store.len(), 0);
    assert_eq!(store.get_secret("a"), None);
    assert_eq!(store.get_secret("b"), None);
}

#[test]
fn many_names_are_all_kept() {
    let mut store = SecureStore::with_page_size(4096);
    for i in 0..50u32 {
        let done = store.store_secret_with_key(
            format!("KEY_{}", i),
            format!("value-{}", i),
            key_of_bytes(0x80 + (i as u8)),
        );
        assert_eq!(done, Ok(()));
    }
    assert_eq!(store.len(), 50);
    for i in 0..50u32 {
        assert_eq!(store.get_secret(&format!("KEY_{}", i)), Some(format!("value-{}", i)));
    }
}
