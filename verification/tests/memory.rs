use secretd::memory::{aligned_size, BlockError, Protection, SecureMemoryBlock};

#[test]
fn aligned_size_rounds_up_to_whole_pages() {
    assert_eq!(aligned_size(1, 4096), Some(4096));
    assert_eq!(aligned_size(4096, 4096), Some(4096));
    assert_eq!(aligned_size(4097, 4096), Some(8192));
    assert_eq!(aligned_size(33, 16), Some(48));
    assert_eq!(aligned_size(7, 1), Some(7));
}

#[test]
fn aligned_size_refuses_what_cannot_be_had() {
    assert_eq!(aligned_size(0, 4096), None);
    assert_eq!(aligned_size(10, 0), None);
    assert_eq!(aligned_size(usize::MAX, 4096), None);
    assert_eq!(aligned_size(isize::MAX as usize, 4096), None);
    assert_eq!(aligned_size(1, usize::MAX), None);
    let limit = isize::MAX as usize;
    assert_eq!(aligned_size(limit, 1), Some(limit));
    assert_eq!(aligned_size(limit - 4094, 4096), None);
    assert_eq!(aligned_size(limit - 4095, 4096), Some(limit - 4095));
    assert_eq!(aligned_size(limit - 4096, 4096), Some(limit - 4095));
}

#[test]
fn block_is_made_zeroed_and_open() {
    let block = SecureMemoryBlock::with_page_size(10, 64).unwrap();
    assert_eq!(block.capacity(), 64);
    assert!(block.is_accessible());
    assert_eq!(block.read(), Vec::<u8>::new());
    assert_eq!(block.read_raw(64), Some(vec![0u8; 64]));
}

#[test]
fn block_of_no_size_is_an_allocation_error() {
    assert!(matches!(SecureMemoryBlock::with_page_size(0, 64), Err(BlockError::AllocationError)));
    assert!(matches!(SecureMemoryBlock::with_page_size(8, 0), Err(BlockError::AllocationError)));
    assert!(matches!(
        SecureMemoryBlock::with_page_size(usize::MAX, 4096),
        Err(BlockError::AllocationError)
    ));
    assert!(matches!(SecureMemoryBlock::new(0), Err(BlockError::AllocationError)));
}

#[test]
fn block_uses_the_page_size_of_the_machine() {
    let page = page_size::get();
    let block = SecureMemoryBlock::new(1).unwrap();
    assert_eq!(block.capacity(), page);
    let block = SecureMemoryBlock::new(page + 1).unwrap();
    assert_eq!(block.capacity(), 2 * page);
}

#[test]
fn write_then_read_gives_the_bytes_back() {
    let mut block = SecureMemoryBlock::with_page_size(16, 16).unwrap();
    assert_eq!(block.write(&[1, 2, 3, 4, 5]), Ok(()));
    assert_eq!(block.read(), vec![1, 2, 3, 4, 5]);
    assert_eq!(block.capacity(), 16);
}

#[test]
fn read_stops_at_the_first_zero_byte() {
    let mut block = SecureMemoryBlock::with_page_size(16, 16).unwrap();
    assert_eq!(block.write(&[9, 8, 0, 7, 6]), Ok(()));
    assert_eq!(block.read(), vec![9, 8]);
    assert_eq!(block.read_raw(5), Some(vec![9, 8, 0, 7, 6]));
}

#[test]
fn read_of_a_full_block_gives_all_of_it() {
    let mut block = SecureMemoryBlock::with_page_size(4, 4).unwrap();
    assert_eq!(block.write(&[1, 2, 3, 4]), Ok(()));
    assert_eq!(block.read(), vec![1, 2, 3, 4]);
}

#[test]
fn write_leaves_nothing_of_the_earlier_content() {
    let mut block = SecureMemoryBlock::with_page_size(8, 8).unwrap();
    assert_eq!(block.write(&[1, 2, 3, 4, 5, 6, 7, 8]), Ok(()));
    assert_eq!(block.write(&[9, 9]), Ok(()));
    assert_eq!(block.read(), vec![9, 9]);
    assert_eq!(block.read_raw(8), Some(vec![9, 9, 0, 0, 0, 0, 0, 0]));
}

#[test]
fn write_beyond_capacity_is_refused_and_changes_nothing() {
    let mut block = SecureMemoryBlock::with_page_size(4, 4).unwrap();
    assert_eq!(block.write(&[1, 2, 3]), Ok(()));
    assert_eq!(block.write(&[5, 5, 5, 5, 5]), Err(BlockError::CapacityExceeded));
    assert_eq!(block.read_raw(4), Some(vec![1, 2, 3, 0]));
}

#[test]
fn clear_zero_fills_the_block() {
    let mut block = SecureMemoryBlock::with_page_size(4, 4).unwrap();
    assert_eq!(block.write(&[1, 2, 3, 4]), Ok(()));
    block.clear();
    assert_eq!(block.read_raw(4), Some(vec![0, 0, 0, 0]));
    assert_eq!(block.read(), Vec::<u8>::new());
}

#[test]
fn read_raw_beyond_capacity_gives_nothing() {
    let block = SecureMemoryBlock::with_page_size(4, 4).unwrap();
    assert_eq!(block.read_raw(5), None);
    assert_eq!(block.read_raw(0), Some(Vec::new()));
}

#[test]
fn lock_and_protect_set_the_access_flag() {
    let mut block = SecureMemoryBlock::with_page_size(4, 4).unwrap();
    assert_eq!(block.write(&[1, 2]), Ok(()));
    assert_eq!(block.lock(), Ok(()));
    assert!(!block.is_accessible());
    assert_eq!(block.protect(Protection::ReadWrite), Ok(()));
    assert!(block.is_accessible());
    assert_eq!(block.read(), vec![1, 2]);
    assert_eq!(block.protect(Protection::NoAccess), Ok(()));
    assert!(!block.is_accessible());
}
