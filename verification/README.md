# tpcgen_cli

The decision logic of the TPC-H / TPC-DS data generator command line tools,
verified with Verus:

* `encoding` — Parquet column encodings: parsing `COLUMN=ENCODING`
  arguments and rejecting encodings `--column-encoding` cannot use.
* `column_encodings` — applying those choices to the parquet writer
  properties builder, for the leaf columns of a schema.
* `statistics` — write statistics and the human readable byte sizes they are
  reported in (computed exactly as the floating point formatting shows them).
* `output_location` — where output goes: files under a directory or stdout.
* `row_iter` — streaming rows from a row generator over a range of source rows.
* `tables`, `runner` — TPC-DS tables, planning their parts and progress
  bars, the order in which planned tables are scheduled and the threads each
  is given.
* `csv` — TPC-DS CSV output settings, and the check that every requested
  table has a CSV header before any file is created.

`app/` holds the I/O around the library: creating directories and writing
files, encoding Parquet row groups in parallel, reporting statistics when
writing is done, and running planned tables concurrently.
