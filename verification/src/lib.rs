//! The dispatch core of a serverless edge node.
//!
//! A node answers HTTP requests by running the function that is deployed
//! for the request's hostname inside a script isolate. An isolate cannot
//! leave the thread it was built on, so each hostname is pinned to one
//! worker thread, which builds the isolate on the first request and reuses
//! it afterwards. Static assets of a deployment are served from the blob
//! store without an isolate. The catalog of deployments follows a control
//! channel that announces their creation, update and deletion.
//!
//! The library decides; the program around it reads the request, talks to
//! the stores and the script engine, and writes the response:
//!
//! - [`dispatch`] routes a request, plans it against the catalog, says what
//!   it emits and marshals the outcome;
//! - [`affinity`] pins hostnames to worker threads;
//! - [`isolate`] is a worker's isolate cache;
//! - [`catalog`] and [`subscriber`] keep the deployments;
//! - [`node`] states what holds of all of them together;
//! - [`deployment`], [`table`] and [`text`] hold the data they share.

pub mod affinity;
pub mod catalog;
pub mod deployment;
pub mod dispatch;
pub mod isolate;
pub mod node;
pub mod subscriber;
pub mod table;
pub mod text;
