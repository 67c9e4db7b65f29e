pub mod text;
pub mod botdb;
pub mod keyed;
pub mod random;
pub mod cmdutil;
