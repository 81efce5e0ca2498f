pub mod decode;
pub mod emit;
pub mod frame;
pub mod jsonval;
pub mod stream;
pub mod value;
