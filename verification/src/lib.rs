pub mod compile;
pub mod emulator;
pub mod erasure;
pub mod formers;
pub mod kernel;
pub mod lowering;
pub mod message;
pub mod signature;
pub mod target;
pub mod term;
pub mod value;

pub use erasure::{enorm, erase, EClosure, ENeutral, ETerm, EValue};
pub use kernel::{check, eval, infer, normalize, quote, sort_level_of_type, Context, KernelError};
pub use signature::{check_axioms, check_signature};
pub use term::{Constructor, Inductive, Sig, Term};
pub use value::{Closure, Neutral, Value};
