//! Session runtime: the durable session log, turns over it, and the rules around them.
pub mod compaction_request;
pub mod completion;
pub mod config;
pub mod events;
pub mod execution;
pub mod execution_fence;
pub mod hitl;
pub mod ids;
pub mod interrupt;
pub mod local_orchestrator;
pub mod mutations;
pub mod nats_admin;
pub mod nats_attachments;
pub mod nats_client_session;
pub mod nats_event_sink;
pub mod nats_hook_provider;
pub mod nats_lease;
pub mod nats_local_server;
pub mod nats_metrics;
pub mod nats_session;
pub mod nats_session_index;
pub mod nats_session_log;
pub mod poller;
pub mod projection;
pub mod recovery;
pub mod replay;
pub mod session_log;
pub mod session_reconstruct;
pub mod text;
pub mod turn;
pub mod watchdog;
pub mod window;
