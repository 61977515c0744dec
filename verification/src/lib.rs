//! Verified core of a multi-platform conferencing traffic capture service.
//!
//! A frame is parsed once ([`capture`]), routed to the first platform whose
//! classifier claims it ([`framework`], [`platforms`]), turned into an RTP
//! record ([`models`]), de-duplicated and batched ([`channels`]), and folded
//! into per-client quality-of-experience sessions ([`sessions`]).

pub mod capture;
pub mod channels;
pub mod framework;
pub mod ip_ranges;
pub mod models;
pub mod platforms;
pub mod sessions;
pub mod text;
