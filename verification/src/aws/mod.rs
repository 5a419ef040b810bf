pub mod client;
pub mod copy;
pub mod endpoints;
pub mod headers;
pub mod reply;
pub mod request;
pub mod retry;
pub mod sign;
pub mod wait;

pub use client::AwsClient;
