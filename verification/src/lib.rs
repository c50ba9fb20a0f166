//! The stormconsole library: the parsing, mapping and decision logic of the
//! StormCOS web console, with contracts checked by Verus.

pub mod text;
pub mod etcd;
pub mod value;
pub mod json;
pub mod nav;
pub mod events;
pub mod create;
pub mod access;
pub mod sort;
pub mod upstream;
pub mod proxy;
pub mod logs;
pub mod k8s;
pub mod view;
pub mod registry;
pub mod feed;
pub mod plugins;
