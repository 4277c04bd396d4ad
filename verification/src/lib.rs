//! A minimal embedded virtual file system.
//!
//! A backing container of bytes is carved either into variable-length segments
//! or into fixed-size blocks, and a hierarchical file table maps path
//! components to the regions that hold each file's content.
//!
//! - [`container`]: the backing container, a growable run of bytes.
//! - [`fs`] and [`segment`]: segment-mode storage.
//! - [`blocks`], [`block_laws`] and [`io`]: block-mode storage, its model and
//!   what holds of it.
//! - [`name`], [`tree`] and [`file_table`]: the directory tree and its
//!   persisted root.
//! - [`file_allocator`]: files by path, their content in blocks.

pub mod block_laws;
pub mod blocks;
pub mod container;
pub mod error;
pub mod file_allocator;
pub mod file_table;
pub mod fs;
pub mod io;
pub mod name;
pub mod segment;
pub mod tree;

pub use error::FsError;
pub use file_allocator::FileAllocator;
pub use file_table::{FileTable, FtItem, MagiusDirectory, MagiusFile};
pub use fs::MagiusFs;
pub use io::MagiusFsIo;
pub use segment::BytesSegment;
