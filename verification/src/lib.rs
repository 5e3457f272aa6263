//! A control plane for versioned tables: catalog snapshots, an ontology, access
//! control, authentication, lineage, a job queue, streams and transforms, held
//! in memory, and the decision logic of the adapter that keeps the same state
//! in a relational database beside an Iceberg warehouse.
pub mod acl;
pub mod acl_laws;
pub mod ambient;
pub mod append_laws;
pub mod auth;
pub mod auth_laws;
pub mod base_laws;
pub mod catalog;
pub mod catalog_laws;
pub mod commit_laws;
pub mod commit_mirror;
pub mod end_caps;
pub mod error;
pub mod fault_laws;
pub mod fixture;
pub mod framing;
pub mod gc_laws;
pub mod graph;
pub mod iceberg_catalog;
pub mod iceberg_compact;
pub mod iceberg_control_plane;
pub mod iceberg_flush;
pub mod iceberg_gc;
pub mod iceberg_inline;
pub mod iceberg_landing;
pub mod iceberg_mirror;
pub mod iceberg_schema_evolution;
pub mod iceberg_stats;
pub mod iceberg_type;
pub mod iceberg_writer;
pub mod inline_append;
pub mod inline_cells;
pub mod inline_columns;
pub mod inline_delta;
pub mod inline_laws;
pub mod inline_read;
pub mod jobs;
pub mod key;
pub mod lake_laws;
pub mod landing_laws;
pub mod lineage;
pub mod lineage_laws;
pub mod memory;
pub mod mirror_laws;
pub mod mv_bootstrap;
pub mod mv_laws;
pub mod mv_floor;
pub mod names;
pub mod ontology;
pub mod ontology_laws;
pub mod operation_laws;
pub mod ordered;
pub mod queue;
pub mod queue_laws;
pub mod round_trip_laws;
pub mod s3_storage;
pub mod settle;
pub mod signing;
pub mod snapshot_laws;
pub mod sql_catalog;
pub mod statement_laws;
pub mod store_laws;
pub mod stored_lineage;
pub mod stored_rules;
pub mod stream;
pub mod stream_laws;
pub mod text;
pub mod transaction;
pub mod transform_laws;
pub mod transforms;
pub mod turn_laws;
pub mod types;
pub mod vecs;
pub mod words;
