pub mod autonomous;
pub mod compaction;
pub mod error;
pub mod evolution;
pub mod frontmatter;
pub mod goal;
pub mod harness;
pub mod harness_ops;
pub mod hash;
pub mod heartbeat;
pub mod ids;
pub mod kernel;
pub mod lock;
pub mod message;
pub mod output;
pub mod paths;
pub mod ports;
pub mod report;
pub mod review;
pub mod runner;
pub mod schedule;
pub mod search;
pub mod session;
pub mod shell;
pub mod skill;
pub mod skills;
pub mod subagent;
pub mod summariser;
pub mod supervisor;
pub mod text;
pub mod time;
pub mod transcript;
pub mod timespec;
