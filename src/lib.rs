//! Decoders for two binary formats of the Java platform: the compiled class
//! file (magic `0xCAFEBABE`) and the module image archive (magic `0xCAFEDADA`).
//!
//! Both decoders are pure functions over a byte slice supplied by the caller.
//! Every decoding step is stated as a spec function over the input bytes, and
//! the executable decoders are proved to compute exactly those results.

pub mod access_flags;
pub mod archive;
pub mod bytes;
pub mod class_file;
pub mod class_parser;
pub mod constant_pool;

pub use archive::{Archive, JImageError};
pub use class_file::{ClassFile, ClassFileError};
pub use class_parser::Parser;
pub use constant_pool::ConstantPool;
