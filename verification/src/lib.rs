//! Native-function bridge of an embedded bytecode virtual machine.
//!
//! A host program extends a running interpreter with externally implemented
//! ("native") functions: it registers them by name, has the loaded program's
//! import declarations resolved against that registry, and then asks for a
//! named function of the program to be executed.  During execution, an
//! external-call instruction invokes the bound native callable, handing it a
//! typed accessor over the current frame's operand stack.
//!
//! Reading a bytecode file from disk, and the wire format itself, are the
//! business of an external decoder; this crate works on the decoded program.

pub mod code;
pub mod errors;
pub mod interpreter;
pub mod registry;
pub mod state;
pub mod value;

pub use code::CodeHolder;
pub use code::FunctionDef;
pub use code::Instruction;
pub use errors::RVMError;
pub use interpreter::Interpreter;
pub use interpreter::NativeFn;
pub use registry::NativeRegistry;
pub use state::ResurgenceState;
pub use value::Value;
