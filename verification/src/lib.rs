//! A birthday calendar built from a stream of vCards.
//!
//! The library turns the bytes of a vCard collection into an ordered calendar
//! of birthdays and into the rows of the page that shows it. Reading the
//! environment, fetching the cards over HTTP and writing the markup are left
//! to the caller, which hands in plain values and gets plain values back.

pub mod birthday;
pub mod calendar;
pub mod config;
pub mod contact;
pub mod decimal;
pub mod escape;
pub mod gateway;
pub mod order;
pub mod page;
