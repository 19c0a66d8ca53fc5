use url_shorter::allocator::Allocator;
use url_shorter::errors::AllocateError;

#[test]
fn allocations_count_up_from_the_seed() {
    let mut allocator = Allocator::new(0);
    assert_eq!(allocator.allocate(), Ok(1));
    assert_eq!(allocator.allocate(), Ok(2));
    assert_eq!(allocator.allocate(), Ok(3));
}

#[test]
fn seeded_allocator_skips_spent_identifiers() {
    let mut allocator = Allocator::new(7);
    assert_eq!(allocator.allocate(), Ok(8));
}

#[test]
fn spent_identifier_space_is_reported() {
    let mut allocator = Allocator::new(u64::MAX);
    assert_eq!(
        allocator.allocate(),
        Err(AllocateError::AllocationExhausted)
    );
    // The failure is stable: nothing was handed out.
    assert_eq!(
        allocator.allocate(),
        Err(AllocateError::AllocationExhausted)
    );
}
