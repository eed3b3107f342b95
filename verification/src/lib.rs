//! The decisions behind the Oh My Pi desktop host, verified.
pub mod agents;
pub mod bridge;
pub mod clock;
pub mod dto;
pub mod external;
pub mod favourites;
pub mod idle;
pub mod json;
pub mod models;
pub mod notify;
pub mod order;
pub mod panel;
pub mod paths;
pub mod policy;
pub mod pty;
pub mod pump;
pub mod search;
pub mod session;
pub mod settings;
pub mod table;
pub mod text;
pub mod threads;
