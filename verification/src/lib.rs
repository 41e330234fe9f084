//! Degree-status evaluation: decides how far a student's course history
//! fulfils the course banks of a degree catalog.
//!
//! A catalog names course banks, each with a rule and a credit that it
//! requires. An evaluation goes through the banks in the order of the
//! catalog. Each bank claims courses of the student under its rule and earns
//! their credit; what it earns beyond its requirement is kept in a ledger
//! and passed on to the banks that the catalog's overflow edges name. The
//! outcome is a report of the courses with the bank that each was credited
//! to, and of what every bank requires and has received.
//!
//! Credit amounts are whole numbers of hundredths of a credit point, so that
//! `350` stands for three and a half points.
//!
//! The entry point is [`processor::calculate_degree_status`]; what it
//! computes is defined in [`evaluation`], and [`laws`] states what holds of
//! every evaluation.

pub mod bank_rule;
pub mod catalog;
pub mod catalog_id;
pub mod configuration;
pub mod course;
pub mod degree_status;
pub mod evaluation;
pub mod laws;
pub mod ledger;
pub mod processor;
pub mod replacement;
pub mod text;
pub mod user;
