pub mod retry;
pub mod accessor;
pub mod archive;
pub mod auth;
pub mod config;
pub mod director;
pub mod dispatcher;
pub mod error;
pub mod extractor;
pub mod foreach;
pub mod laws;
pub mod matcher;
pub mod model;
pub mod node_filter;
pub mod operator;
pub mod regex_support;
pub mod render;
pub mod text;
pub mod validator;
pub mod value;
pub mod rsyslog_collector;
pub mod uds_writer_collector;
pub mod webhook_collector;
