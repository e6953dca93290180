//! A crawler for the Gopher protocol: address grammar, menu parsing, and the
//! bookkeeping that decides which discovered addresses are fetched.
pub mod item;
pub mod menu;
pub mod page;
pub mod spider;
mod text;
pub mod url;

pub use item::GopherItem;
pub use menu::{DirEntry, Menu};
pub use page::{FetchPlan, Fetched, PageResult, fetch_plan, reply_error, request_line};
pub use spider::{MAX_SELECTOR_DEPTH, Spider, selector_depth};
pub use url::{DEFAULT_PORT, GopherURL, ParseError};
