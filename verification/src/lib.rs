//! Drill logic for Ancient Greek paradigms: answer checking with optional
//! diacritics, paradigm tables, study filters, spaced repetition and the
//! grammatical tag vocabulary.
pub mod browse;
pub mod builder;
pub mod catalog;
pub mod category;
pub mod diacritics;
pub mod filter;
pub mod form;
pub mod paradigm;
pub mod i18n;
pub mod quiz;
pub mod search;
pub mod session;
pub mod settings;
pub mod study;
pub mod sm2;
pub mod tags;
pub mod text;
