pub mod text;
pub mod error;
pub mod future;
pub mod checker;
pub mod executor;
pub mod discover;
pub mod template;
pub mod init;
pub mod test_view;
pub mod runtime;
pub mod webview;
pub mod future2;
pub mod json;
