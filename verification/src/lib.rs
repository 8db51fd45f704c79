//! Fetching books from znanium.ru.
//!
//! The library decides what is to be done with the browser and the files to get
//! into an account ([`session`]) and to fetch a book ([`book`]), and makes PDF
//! documents of the pages ([`render`], [`document`]). The browser and the files
//! themselves are worked from outside.
pub mod book;
pub mod cookies;
pub mod decimal;
pub mod document;
pub mod links;
pub mod names;
pub mod numbering;
pub mod range;
pub mod render;
pub mod session;
pub mod text;
pub mod writer;
