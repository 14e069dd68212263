//! Job scheduling built around a three-valued priority: reject, queue
//! normally, or queue ahead of normal work.

pub mod deadline;
pub mod fair_queue;
pub mod inversion;
pub mod job;
pub mod load_balancer;
pub mod name_map;
pub mod priority;
pub mod resource_pool;
pub mod scheduler;
pub mod seq_util;

pub use deadline::DeadlineTracker;
pub use fair_queue::FairQueue;
pub use inversion::PriorityInversionDetector;
pub use job::{Job, JobId};
pub use load_balancer::{LoadBalancer, WorkerState};
pub use name_map::NameMap;
pub use priority::Priority;
pub use resource_pool::ResourcePool;
pub use scheduler::JobScheduler;
