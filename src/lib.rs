//! Generates a service-manager unit file from a template by replacing
//! `<%token%>` placeholders with values derived from the command line.
pub mod text;
pub mod replace;
pub mod template;
pub mod unit;
