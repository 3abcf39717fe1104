pub mod block;
pub mod chain;
pub mod decode;
pub mod digest;
pub mod encode;
