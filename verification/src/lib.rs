//! Runtime core of a deterministic reactor framework.
//!
//! A program is a statically assembled graph of reactors that talk through
//! ports, actions and timers. Reactions run at *tags* (a logical instant and
//! a microstep); within a tag they run level by level, so that what a program
//! observes is a function of its inputs alone.
//!
//! The crate has three parts. The [`assembler`] builds a program and has its
//! dependencies analysed ([`depgraph`], [`dataflow`]). The [`event_queue`] and
//! the [`scheduler`] decide which tag comes next and when the program ends.
//! The [`context`] processes one tag: it runs the reactions of the tag and
//! gathers what they write, schedule and ask for.
//!
//! Nothing in this crate waits, reads a clock or starts a thread. The event
//! loop that does so asks the scheduler for every step and reports back what
//! happened.

pub mod actions;
pub mod assembler;
pub mod context;
pub mod dataflow;
pub mod debug;
pub mod depgraph;
pub mod error;
pub mod event_queue;
pub mod ids;
pub mod ports;
pub mod reactions;
pub mod scheduler;
pub mod time;
pub mod timers;
pub mod waves;

pub use crate::actions::ActionId;
pub use crate::assembler::{Assembler, RunnableReactor, World};
pub use crate::context::{process_tag, CleanupCtx, ReactionCtx, ReactorBehavior, TagOutcome};
pub use crate::dataflow::DataflowInfo;
pub use crate::debug::DebugInfoProvider;
pub use crate::error::AssemblyError;
pub use crate::event_queue::{Event, EventPayload, EventQueue};
pub use crate::ids::{
    new_global_rid, GlobalReactionId, LocalReactionId, ReactorId, TriggerId,
};
pub use crate::ports::{PortId, PortKind, PortPool};
pub use crate::reactions::ExecutableReactions;
pub use crate::scheduler::{ReceiveWait, RuntimeFault, SchedulerOptions, Step, SyncScheduler};
pub use crate::time::{Nanos, Tag};
pub use crate::timers::Timer;
pub use crate::waves::{due_timers, shutdown_wave, startup_wave};
