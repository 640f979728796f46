//! Java-style buffers and byte streams.
pub mod buffers;
pub mod streams;

pub use buffers::{Buffer, ByteBuffer, FloatBuffer, IntBuffer};
pub use streams::{
    BufferedOutputStream, ByteArrayInputStream, ByteArrayOutputStream, DataInputStream,
    DataOutputStream, StreamError,
};
