pub mod compiler;
pub mod greeting;
