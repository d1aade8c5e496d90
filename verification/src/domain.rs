pub mod calendar;
pub mod chain;
pub mod domain_error;
pub mod entry;
pub mod log_filename;
pub mod meta;
pub mod note;
pub mod record_filename;
pub mod stamp_format;
pub mod stamp_provider;
