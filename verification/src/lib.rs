//! A personal task journal: an ordered list of free-text tasks, each with
//! its creation time, kept in a single file.  The library owns everything
//! between the file's content and the caller: reading the stored list,
//! appending a task, removing one by its 1-based position, and writing the
//! list back out — each operation specified and proved, including that the
//! content written for any list reads back as exactly that list.  Opening,
//! reading and writing the file itself, and showing the result, are left
//! to the program around the library.

pub mod encode;
pub mod journal;
pub mod parse;
pub mod roundtrip;
pub mod task;

pub use task::Task;
pub use task::TaskView;
