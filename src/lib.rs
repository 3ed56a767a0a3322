//! File-exchange core of a desktop image tool: decoding tagged image payloads,
//! planning the export of a batch of files, filtering a folder listing down to
//! supported images, and choosing the program that reveals a folder.

pub mod batch;
pub mod launch;
pub mod payload;
pub mod scan;

