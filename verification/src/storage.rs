pub mod fs_store;
pub mod storage_error;
pub mod tracking;
