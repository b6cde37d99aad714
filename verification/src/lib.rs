//! Session sync, review and capture logic of a desktop coding client.

pub mod appshots;
pub mod badges;
pub mod changes;
pub mod chat_client;
pub mod comments;
pub mod drafts;
pub mod folds;
pub mod graph;
pub mod highlights;
pub mod history;
pub mod i18n;
pub mod i18n_zh;
pub mod ids;
pub mod link;
pub mod macos;
pub mod pane;
pub mod pane_view;
pub mod patch;
pub mod portal;
pub mod proto;
pub mod pull_request_menu;
pub mod pull_requests;
pub mod queue;
pub mod requests;
pub mod row_places;
pub mod rows;
pub mod search;
pub mod semantic;
pub mod session;
pub mod settings;
pub mod text;
pub mod wake;
pub mod windows;
pub mod x11;
