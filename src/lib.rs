pub mod keys;
pub mod store;
pub mod time;

pub use keys::{DailyTracingKey, InvalidDailyTracingKey, InvalidRpi, InvalidTracingKey, Rpi, TracingKey};
pub use store::{encode_record, DailyTracingKeyStore, FetchError, LoadError, StoredKey, DAYS_WINDOW, FETCH_BOUND, RECORD_LEN};
