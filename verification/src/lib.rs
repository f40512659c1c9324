//! A verified codec between a dynamically-typed scripting value graph and the
//! Action Message Format (AMF0/AMF3) element-tree representation, together
//! with the sandboxed local object store built on top of it.

pub mod codec;
pub mod library;
pub mod lso_io;
pub mod numbits;
pub mod point;
pub mod registry;
pub mod shared_object;
pub mod so_key;
pub mod strutil;
pub mod url_info;
pub mod value;
pub mod wire;
