//! Signed notes for a gossip network: peers author short notes under a topic,
//! sign them, exchange them as bytes, and fold what they receive into a local
//! model that is the same on every peer whatever the order of arrival.
pub mod app;
pub mod components;
pub mod controller;
pub mod crypto;
pub mod model;
pub mod note;
pub mod order;
pub mod timestamp;
pub mod wire;
