//! Line-based configuration files of repositories, profiles and the user's configuration:
//! `package.mask`, `use.mask`, `package.use`, `package.accept_keywords` and the like.
pub mod entry;
pub mod linefile;
pub mod pkgfile;
pub mod pkguse;
