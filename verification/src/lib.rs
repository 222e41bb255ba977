//! `llm-box` runs an assistant in a container whose network traffic goes through a broker. The
//! broker lets through what an operator has approved, and logs the rest for the operator to decide
//! on. This library holds the rules of that: what a destination is, what a session may reach, how
//! a decision changes it, what the broker does with a request, and how containers are run. Every
//! function is verified against its contract; what reads and writes files and sockets is left to
//! the program around it.
//!
//! - Text: [`text`], [`pieces`], [`number`], [`order`], [`text_set`], [`paths`].
//! - Destinations: [`egress`], [`canonical`], [`target_set`], [`connectors`], [`kinds`].
//! - Sessions: [`pending`], [`dismissals`], [`store`], [`session`], [`decisions`], [`config`],
//!   [`locks`].
//! - The network: [`http`], [`broker`], [`requests`], [`approvals`], [`proxy`],
//!   [`static_files`].
//! - The approvals page: [`webui`], [`ui`], [`page`].
//! - Running the assistant: [`runtime`], [`containers`], [`commands`], [`choices`].
//! - What is taken on trust: [`outside`], and one function of the standard library in [`text`].

pub mod approvals;
pub mod broker;
pub mod canonical;
pub mod choices;
pub mod commands;
pub mod config;
pub mod connectors;
pub mod containers;
pub mod decisions;
pub mod dismissals;
pub mod egress;
pub mod http;
pub mod kinds;
pub mod locks;
pub mod number;
pub mod order;
pub mod outside;
pub mod page;
pub mod paths;
pub mod pending;
pub mod pieces;
pub mod proxy;
pub mod requests;
pub mod runtime;
pub mod session;
pub mod static_files;
pub mod store;
pub mod target_set;
pub mod text;
pub mod text_set;
pub mod ui;
pub mod webui;
