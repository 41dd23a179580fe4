pub mod eval;
pub mod field;
pub mod gen;
pub mod node;
pub mod pair;
pub mod prg;
pub mod seed;

pub use field::Fp;
pub use field::MODULUS;
pub use node::{CodeWord, IntermediateNode, Key, MaskedNode, Node};
pub use pair::Pair;
pub use seed::Seed;
pub use seed::SEED_LEN;
