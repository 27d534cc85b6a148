//! Array-backed sequence containers: a stack over a contiguous array, a queue
//! and a deque over a circular buffer, and a deque made of two stacks.
//!
//! Every container keeps its elements in a vector of optional slots: a slot is
//! live when it holds `Some`, vacant when it holds `None`, so only live
//! elements are ever read, moved or dropped. The capacity of the backing
//! store follows one shared resize policy, see [`resize_policy`].

pub mod array_deque;
pub mod array_queue;
pub mod array_stack;
pub mod dual_array_deque;
mod error;
pub mod queue;
pub mod resize_policy;
mod slots;
pub mod stack;

pub use array_deque::ArrayDeque;
pub use array_queue::ArrayQueue;
pub use array_stack::ArrayStack;
pub use dual_array_deque::DualArrayDeque;
pub use error::IndexOutOfRange;
pub use queue::Queue;
pub use stack::Stack;
