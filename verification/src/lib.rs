//! Package management core for Gentoo-like systems: names, versions, atoms,
//! dependency expressions and configuration files.
pub mod conf;
pub mod deps;
pub mod eapi;
pub mod ebuild;
pub mod error;
pub mod files;
pub mod grammar;
pub mod keyword;
pub mod makenv;
pub mod package;
pub mod policy;
pub mod profile;
pub mod repository;
pub mod text;
pub mod useflag;
pub mod vdb;
