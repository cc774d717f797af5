//! Planning, validation and bookkeeping for the TPC-H and TPC-DS command line
//! data generators: Parquet column encodings, output locations, write
//! statistics, row iteration and table planning.

pub mod encoding;
pub mod statistics;
pub mod row_iter;
pub mod output_location;
pub mod tables;
pub mod runner;
pub mod column_encodings;
pub mod csv;
