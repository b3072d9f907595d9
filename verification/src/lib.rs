//! A behavior-tree evaluation engine for autonomous agents. A host builds a
//! static tree of composite, decorator and leaf nodes over its own action and
//! condition identifiers, then ticks the tree each simulation step; the
//! engine returns `Running`, `Success` or `Failure` and keeps per-node
//! resumption state in a slab addressed by stable pre-order ids.

pub mod blackboard;
pub mod builder;
pub mod config;
pub mod context;
pub mod decorator;
pub mod error;
pub mod leaf;
pub mod node;
pub mod observer;
pub mod parallel;
pub mod preset;
pub mod rng;
pub mod status;
pub mod tick;
pub mod tree;
pub mod utility;

pub use blackboard::{Blackboard, BlackboardValue};
pub use builder::TreeBuilder;
pub use config::TreeConfig;
pub use context::Context;
pub use decorator::Decorator;
pub use error::TreeError;
pub use leaf::{ActionHandler, ConditionHandler};
pub use node::BehaviorNode;
pub use observer::{NoOpObserver, Observer, ObserverEvent, RecordingObserver};
pub use parallel::ParallelPolicy;
pub use rng::{NoRng, RngSource};
pub use status::Status;
pub use tick::{assign_ids, child_id_for_index, reset_subtree, subtree_size, tick_node, NodeState};
pub use tree::BehaviorTree;
pub use utility::SelectionMethod;
