//! Shared core of the HIT campus network auto-login client: the Srun portal protocol
//! (HMAC-MD5 password, XEncode info block, Srun Base64, SHA-1 checksum), reading the
//! portal's pages and replies, the check-and-login workflow, and run coordination.
use vstd::prelude::*;

pub mod config;
pub mod connectivity;
pub mod coordinator;
pub mod crypto;
pub mod parsing;
pub mod pattern;
pub mod portal;
pub mod status;
pub mod system;
pub mod text;
pub mod workflow;
pub mod xencode;

pub use config::Configuration;
pub use coordinator::{RunGuard, RunTrigger, WorkflowCoordinator};
pub use crypto::{custom_base64, hmac_md5, make_login_parameters, sha1_hex, LoginParameters};
pub use parsing::{parse_json_or_jsonp, parse_portal_fields, JsonObject, PortalFields};
pub use portal::{
    FormQueryEncoder, HttpReply, PortalInterpretation, PortalLogin, PortalRequest,
    PortalResponseInterpreter,
};
pub use workflow::{
    CoreError, Workflow, WorkflowCommand, WorkflowEvent, WorkflowLimits, WorkflowResult,
    WorkflowRun, WorkflowStep,
};
pub use xencode::xencode;

verus! {

/// Wireless network that the workflow joins when it is offline.
pub const DEFAULT_SSID: &'static str = "HIT-WLAN";

} // verus!
