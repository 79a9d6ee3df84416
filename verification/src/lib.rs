//! Logic of a proxy that restreams television channels as local HLS playlists.
#![allow(unused_imports)]

pub mod assets;
pub mod clock;
pub mod config;
pub mod db;
pub mod domain;
pub mod handlers;
pub mod laws;
pub mod laws_endpoints;
pub mod laws_playlists;
pub mod laws_service;
pub mod laws_sessions;
pub mod laws_text;
pub mod metrics;
pub mod outside;
pub mod rewriter;
pub mod session;
pub mod sorting;
pub mod startup;
pub mod text;
pub mod upstream;
