pub mod text;
pub mod crypto;
pub mod sse;
pub mod operation;
pub mod os_date;
pub mod mcp;
pub mod glob;
pub mod policy;
pub mod credential;
pub mod dns_wire;
pub mod cgroup;
pub mod smtp;
pub mod smtp_probe;
pub mod cli;
pub mod modes;
pub mod api;
pub mod install;
pub mod builtins;
pub mod redact;
pub mod dns;
pub mod machinectl;
pub mod gates;
pub mod lua_vm;
pub mod apt;
pub mod systemd;
pub mod yaml;
pub mod oci;
pub mod http_client;
pub mod http_response;
pub mod download;
pub mod ws_session;
pub mod serve;
pub mod process;
