pub mod text;
pub mod model;
pub mod storage;
pub mod input;
pub mod terminal;
pub mod session;
pub mod tabs;
pub mod i18n;
pub mod credentials;
pub mod connection_form;
pub mod theme;
pub mod widget_theme;
pub mod messages;
pub mod app_state;
pub mod dialog;
pub mod text_field;
pub mod render;
pub mod session_flow;
