//! Unix `crypt()`-style password hashing (MD5-crypt, SHA-256-crypt,
//! SHA-512-crypt) and the account-record logic built on it.
pub mod crypt;
pub mod encode;
pub mod error;
pub mod hash;
pub mod kdf;
pub mod laws;
pub mod md5_crypt;
pub mod rounds;
pub mod salt;
pub mod setting;
pub mod sha_crypt;
pub mod shadow;
pub mod store;
pub mod text;
