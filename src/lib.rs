//! Classification of the accounts that follow a federation bridge on the
//! source network: which of them should be followed on the destination network.

pub mod actor;
pub mod classifier;
pub mod cli_args;
pub mod config;
pub mod export;
pub mod follower_status;
pub mod known_followers;
pub mod paging;
pub mod relationships;
pub mod utils;
pub mod webfinger;
