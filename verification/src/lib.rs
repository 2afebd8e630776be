//! Per-shard attachment reconciliation core.
//!
//! For each tenant shard the control plane keeps a desired placement
//! (`IntentState`), a best-effort view of what pageservers actually have
//! installed (`ObservedState`), and a monotone sequence number that gives
//! waiters a happens-before relation to reconcile attempts.  The
//! [`tenant_state::TenantState`] aggregate ties these together and decides
//! when a background reconcile task is needed, when an in-flight task can
//! satisfy a new waiter, and when an in-flight task must be superseded.

pub mod intent;
pub mod node;
pub mod observed;
pub mod scheduler;
pub mod tenant_state;
pub mod seqwait;
pub mod types;
