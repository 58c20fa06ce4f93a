//! A small HTTP front end for a forecast calculator: the job queue that feeds a
//! fixed pool of workers, a byte-exact request framer, the route table and the
//! response writer.
pub mod queue;
pub mod bytes;
pub mod request;
pub mod response;
pub mod router;
pub mod fields;
