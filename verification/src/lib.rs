pub mod aggregator;
pub mod beacon_state;
pub mod beacon_topics;
pub mod bitfield;
pub mod bytes;
pub mod discovery_config;
pub mod enr_fields;
pub mod eth2;
pub mod gossip_config;
pub mod gossip_protocol;
pub mod gossip_topics;
pub mod lean_state;
pub mod light_client;
pub mod lean_topics;
pub mod meta_data;
pub mod messages;
pub mod req_resp;
pub mod rlp;
pub mod scoring;
pub mod sorting;
pub mod subnet;
pub mod sync_committee;
pub mod text;
pub mod validate;
