//! Metadata store, expiration sweeps, share-subscription leader election and
//! the metadata cache of an MQTT placement service.
pub mod order;
pub mod kv;
pub mod codec;
pub mod records;
pub mod store;
pub mod expire;
pub mod share_sub;
pub mod cluster;
pub mod cache;
pub mod service;
pub mod http_response;
pub mod broker_storage;
