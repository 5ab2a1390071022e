//! Directory-tree listing with per-file line counts.
//!
//! The library holds the logic of the listing: counting the lines of a file's
//! bytes, ordering the entries of a directory (by case-insensitive name or by
//! line count), and laying out one text row per entry with its tree
//! connector, its label and the prefix handed to a subdirectory's listing.
//! Reading directories and files, and printing, are left to the caller.
pub mod lines;
pub mod listing;
pub mod order;
pub mod style;
