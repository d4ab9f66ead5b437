//! The host status code type and the mapping of store errors onto it.

use kvstore::{nsresult, DataError, StoreError, NS_ERROR_FAILURE, NS_ERROR_NOT_IMPLEMENTED, NS_OK};

#[test]
fn success_and_failure_split_on_the_high_bit() {
    assert!(nsresult(NS_OK).succeeded());
    assert!(!nsresult(NS_OK).failed());
    assert!(nsresult(NS_ERROR_FAILURE).failed());
    assert!(!nsresult(NS_ERROR_FAILURE).succeeded());
    assert!(nsresult(0x7FFF_FFFF).succeeded());
    assert!(nsresult(0x8000_0000).failed());
}

#[test]
fn to_result_keeps_the_code() {
    assert_eq!(nsresult(NS_OK).to_result(), Ok(nsresult(NS_OK)));
    assert_eq!(
        nsresult(NS_ERROR_FAILURE).to_result(),
        Err(nsresult(NS_ERROR_FAILURE))
    );
}

#[test]
fn error_names_for_known_codes() {
    assert_eq!(nsresult(NS_OK).error_name(), "NS_OK");
    assert_eq!(nsresult(NS_ERROR_FAILURE).error_name(), "NS_ERROR_FAILURE");
    assert_eq!(nsresult(0x12345).error_name(), "NS_ERROR_UNKNOWN");
}

#[test]
fn store_errors_map_to_failure_codes() {
    assert_eq!(
        StoreError::DirectoryDoesNotExist.to_nsresult(),
        nsresult(NS_ERROR_FAILURE)
    );
    assert_eq!(
        StoreError::Data(DataError::DecodingError).to_nsresult(),
        nsresult(NS_ERROR_NOT_IMPLEMENTED)
    );
    assert!(StoreError::TooManyStores.to_nsresult().failed());
    assert!(StoreError::KeyAbsent.to_nsresult().failed());
    assert!(StoreError::IterationFinished.to_nsresult().failed());
}
