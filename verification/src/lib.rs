//! Plugin supervision subsystem: the length-framed JSON wire protocol
//! spoken with plugin processes, the per-plugin key/value store, the
//! process registry with its enable map and restart counters, route
//! dispatch, lifecycle events, and structured logging.
//!
//! Everything here is the decision half of the supervisor.  The embedding
//! runtime owns the processes, sockets, files and clocks; it feeds
//! outcomes back in as plain values and performs the actions these
//! functions decide on.

pub mod codec;
pub mod dispatch;
pub mod envelope;
pub mod errors;
pub mod events;
pub mod jsontext;
pub mod kv;
pub mod logging;
pub mod records;
pub mod registry;
pub mod supervisor;
pub mod textorder;

pub use codec::{MAX_MESSAGE_SIZE, PluginProtocol, encode_frame, decode_frame, frame_payload_len};
pub use envelope::{Envelope, InitPayload, KvAction, LifecycleAction, encode_envelope,
    decode_envelope};
pub use errors::{ForwardError, ProtocolError};
pub use events::{EventLog, EventType, PluginEvent};
pub use kv::{KvStore, PluginKvEntry};
pub use logging::{LogConfig, LogEntry, LogLevel};
pub use records::{AdminUser, AuthUser, LoginAttempt, NetworkInterface, QuickAction, Session,
    Setting, TaskHistory, TaskMessage, User, UserRole, validate_password};
pub use registry::{PluginMetadata, PluginProcess, PluginStatus, validate_metadata};
pub use supervisor::{DiscoveryError, EnableMap, PluginSupervisor, RestartDecision,
    SupervisorError};
