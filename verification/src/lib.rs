#![allow(unused_imports)]

pub mod account;
pub mod config;
pub mod constants;
pub mod cookies;
pub mod dto;
pub mod encoding;
pub mod json;
pub mod login;
pub mod lyrics;
pub mod pages;
pub mod playback;
pub mod proxy;
pub mod qr;
pub mod request;
pub mod session;
pub mod songs;
pub mod text;
pub mod vip;
