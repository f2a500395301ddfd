pub mod error;
pub mod catalog;
pub mod local_pack;
pub mod extraction;
pub mod matching;
pub mod applicability;
pub mod install_plan;
pub mod payload_inventory;
pub mod package_tree;
pub mod package_materialization;
pub mod staging;
