//! Inspection commands over JSON documents, Kubernetes clusters, kernel state, Loki servers and
//! LXD daemons: what each command makes of what was read for it, and what it then shows.
pub mod clock;
pub mod fields;
pub mod format;
pub mod gather;
pub mod json;
pub mod k8s;
pub mod linux;
pub mod loki;
pub mod lxc;
pub mod number;
pub mod order;
pub mod output;
pub mod path;
pub mod pattern;
pub mod text;
pub mod value;
