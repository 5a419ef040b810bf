//! Archives EC2 machine images to S3.
//!
//! The library decides and computes: it reads arguments, profiles and replies, signs requests,
//! and says step by step what a run does next. The program around it talks to the network, the
//! file system and the terminal.
pub mod aws;
pub mod config;
pub mod constants;
pub mod credentials;
pub mod error;
pub mod history;
pub mod ini;
pub mod log;
pub mod number;
pub mod outside;
pub mod prompt;
pub mod rollback;
pub mod text;
pub mod types;
pub mod workflow;
pub mod xml;

pub use aws::AwsClient;
pub use config::{parse_args, validate_config, Config};
pub use credentials::{resolve_credentials, resolve_region};
pub use error::{AnyError, AwsError};
pub use log::Logger;
pub use types::Credentials;
pub use workflow::run;
