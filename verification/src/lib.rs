//! A collector of crypto-currency price frames: it gathers the quotes of one
//! moment into a frame keyed by pair, renders each quote as a database row,
//! keeps a rolling window of rows per pair, and plans the statements that
//! store a frame.
pub mod assoc;
pub mod decimal;
pub mod record;
pub mod frame;
pub mod config;
pub mod queue;
pub mod storage;
pub mod notify;

pub use config::{Configuration, choose_config, config_is_valid, default_config};
pub use decimal::{decimal_text, parse_i64, signed_decimal_text};
pub use frame::{Frame, build_frame, fetch_due};
pub use notify::{Notify, notification_text};
pub use queue::{Queue, queue_frames};
pub use record::{CryptoFiat, arrange_vec, default_int, default_string, pair_key};
pub use storage::{Statement, create_table_statement, insert_row_statement, write_plan};
