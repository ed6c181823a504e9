//! A decentralised, task-parallel runtime: every worker runs the same driver
//! and decides by itself which tasks it owns; workers synchronise pairwise on
//! the data their tasks touch.
//!
//! - `record`: the counters kept for each piece of data, and when they grant
//!   an access.
//! - `data`: the container that holds a value and orders the accesses to it.
//! - `runtime`: the numbering of the tasks, their mapping to the workers, and
//!   the launch of the workers.
//! - `task`: the submission of a task by a worker.
//! - `agreement`, `protocol`, `computation`: what is proved of the whole: the
//!   workers agree on the tasks and their owners, the accesses to a piece of
//!   data happen in the order of the tasks, and the workers never all wait
//!   for each other.
//! - `sync`: the locks and condition variables that the container is built
//!   on.
//! - `experiments`: example workloads.
//! - `cli`, `monitor`: the parts of a benchmarking tool that compute.

pub mod agreement;
pub mod cli;
pub mod computation;
pub mod data;
pub mod experiments;
pub mod monitor;
pub mod protocol;
pub mod record;
pub mod runtime;
pub mod sync;
pub mod task;

pub use data::Data;
pub use data::Published;
pub use data::Ref;
pub use data::RefMut;
pub use record::Access;
pub use record::DataLocalState;
pub use record::DataLockedState;
pub use record::TaskId;
pub use runtime::get_round_robin_mapping;
pub use runtime::go;
pub use runtime::ExecutorId;
pub use runtime::GoError;
pub use runtime::Mapping;
pub use runtime::RoundRobinMapping;
pub use runtime::Runtime;
pub use runtime::TaskOwnership;
