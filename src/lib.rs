pub mod deque;
pub mod model;
pub mod queue;
pub mod ring;
pub mod stack;
