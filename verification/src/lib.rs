mod error;
mod expr;
mod numeric;
mod table;
mod token;

pub use error::{EvalErrorModel, MathEvalError, MathParseError, ParseErrorModel};
pub use expr::{Functions, Op, OpModel, UnaryFn, Variables};
pub use numeric::Numeric;
pub use table::Bindings;
pub use token::{TokModel, Token, tokenise};
