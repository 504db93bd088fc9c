//! Generation, editing, storage and export of Thai government documents.
pub mod blocks;
pub mod database;
pub mod docx;
pub mod edit;
pub mod error;
pub mod fields;
pub mod general;
pub mod general_store;
pub mod general_tables;
pub mod generation;
pub mod ingest;
pub mod json;
pub mod memory;
pub mod mock;
pub mod number;
pub mod overlay;
pub mod pages;
pub mod pdf;
pub mod providers;
pub mod reading;
pub mod render;
pub mod requests;
pub mod revising;
pub mod rules;
pub mod schemas;
pub mod search;
pub mod settings;
pub mod sort;
pub mod sqlite;
pub mod tables;
pub mod text;
pub mod unicode;
pub mod upload;
pub mod vectors;
