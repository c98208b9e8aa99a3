//! Contributor ingestion and commit-time origin inference for hosted
//! source repositories.
//!
//! - [`fetcher`] walks a paginated commit listing and sums commits per author,
//!   stopping at the last page, the page cap or the first failure.
//! - [`ingest`] holds the decisions of an ingestion pass: whether to fetch,
//!   the stand-in identity for a missing profile, and how outcomes count.
//! - [`store`] says how contribution counts are written: upserts on the
//!   natural key that replace rather than add.
//! - [`gitlog`] reads the version-control tool's output into commit samples,
//!   author details and contributor addresses.
//! - [`analysis`] folds samples into histograms and classifies a contributor.
//! - [`report`] ranks and splits the analyses of a repository.
//! - [`repository`] names repositories from URLs and finds registered ones.
//! - [`timezone`] knows the target region's offset labels and reads offsets.
//! - [`ranking`] and [`text`] are shared helpers.

pub mod analysis;
pub mod fetcher;
pub mod gitlog;
pub mod ingest;
pub mod ranking;
pub mod report;
pub mod repository;
pub mod store;
pub mod text;
pub mod timezone;
