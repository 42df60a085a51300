//! The elements of a registry and the values they carry.

pub mod config;
pub mod common;
pub mod element;
pub mod entry;
pub mod feature;
pub mod json;
pub mod registry;
pub mod sysml;

pub use config::ConfigElement;
pub use common::ElementCore;
pub use element::{
    BlockDefinitionElement, Element, ImplementationElement, InternalBlockDiagramElement,
    ReqElement, SequenceDiagramElement, TestCaseElement, UseCaseElement,
};
pub use entry::Entry;
pub use feature::{FeatureElement, ParameterSchema, VariabilityGroup};
pub use json::JsonValue;
pub use registry::Registry;
pub use sysml::{SysmlConnector, SysmlOperation, SysmlPart, SysmlPort, SysmlProperty};
