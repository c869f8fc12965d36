//! A greeting program: an account owned by the program stores a record
//! holding a name, written from the instruction's payload.

pub mod program;
pub mod record;

pub use program::process_instruction;
pub use record::GreetingAccount;
