//! A panel that manages Minecraft servers on Docker Compose: what it decides and computes.
//!
//! - [`registry`] and [`compose`]: the servers, their definitions and their compose files;
//! - [`backup`]: the backup sidecar and the archives it leaves;
//! - [`docker`] and [`stream`]: status, players and output of a container;
//! - [`logbuffer`]: the console and the events read off it;
//! - [`files`] and [`paths`]: the file browser and the mods;
//! - [`users`], [`session`] and [`access`]: accounts, the session cookie, who may ask what;
//! - [`handlers`]: the answers to requests;
//! - [`setup`] and [`net`]: the dialogues of the first run, and where the panel listens;
//! - [`host`] and [`db`]: the machine, and the rows of the database;
//! - [`text`], [`numbers`], [`json`], [`urlcode`] and [`patterns`]: what all of them are
//!   stated with.
//!
//! Files, sockets, processes and the clock are outside: whoever uses the library reads them,
//! hands over what was read and performs what was decided.
pub mod access;
pub mod backup;
pub mod compose;
pub mod db;
pub mod docker;
pub mod files;
pub mod handlers;
pub mod host;
pub mod json;
pub mod logbuffer;
pub mod net;
pub mod numbers;
pub mod paths;
pub mod patterns;
pub mod registry;
pub mod session;
pub mod setup;
pub mod stream;
pub mod text;
pub mod urlcode;
pub mod users;
