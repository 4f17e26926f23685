//! Serving a registry source: decoding the requests the kernel queues on a source
//! descriptor, and building the frames that answer them.
#![allow(non_camel_case_types)]

pub mod c_array;
pub mod child_rules;
pub mod completeness;
pub mod entries;
pub mod errno;
pub mod frame;
pub mod guids;
pub mod laws;
pub mod little_endian;
pub mod records;
pub mod replies;
pub mod request;
pub mod response;
pub mod rules;
pub mod source;
pub mod terms;
pub mod vocabulary;
pub mod wire;
