pub mod debug_text;
pub mod fixed_array;
pub mod map;
pub mod stack;

pub use debug_text::DebugText;
pub use fixed_array::{FixedArray, FixedArrayIntoIter, Retain};
pub use map::{Bucket, BucketMap, Entry, EvictionPolicy, HashFn, HashKey, SetResult, Value, ValuePriority};
pub use stack::{Copyable, Stack};
