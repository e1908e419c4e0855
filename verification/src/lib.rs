//! The verified core of a desktop shell around a local agent.
//!
//! The shell starts the agent, stands between it and the window as a proxy that
//! asks for a token, and keeps the session with it. What of this is computed or
//! decided is decided here; files, sockets, processes and the window belong to
//! the application around the library. Where outside work and decisions take
//! turns, the library holds a state that takes events and says what to do next.

// Texts, dates and plain data.
pub mod calendar;
pub mod http;
pub mod json;
pub mod state;
pub mod string_map;
pub mod text;

// The proxy.
pub mod auth;
pub mod boot_page;
pub mod cookie;
pub mod decode;
pub mod exchange;
pub mod exchange_laws;
pub mod forward;
pub mod page;
pub mod theme;
pub mod ws;

// The agent.
pub mod launch;
pub mod lifecycle;
pub mod locks;
pub mod settings;
pub mod startup;

// The application.
pub mod config;
pub mod tray;
