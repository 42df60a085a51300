//! The typed records of a block definition.

use vstd::prelude::*;

verus! {

/// A property of a block.
#[derive(Debug, Clone)]
pub struct SysmlProperty {
    pub name: String,
    pub property_type: String,
    pub default: String,
    pub unit: String,
}

/// An operation of a block.
#[derive(Debug, Clone)]
pub struct SysmlOperation {
    pub name: String,
    pub params: String,
    pub returns: String,
}

/// A port of a block; `direction` is one of "in", "out", "inout".
#[derive(Debug, Clone)]
pub struct SysmlPort {
    pub name: String,
    pub direction: String,
    pub protocol: String,
}

/// A part of a block; `part_type` is the identifier of the block it is made of.
#[derive(Debug, Clone)]
pub struct SysmlPart {
    pub name: String,
    pub part_type: String,
    pub multiplicity: String,
}

/// A connector between two ports.
#[derive(Debug, Clone)]
pub struct SysmlConnector {
    pub from: String,
    pub to: String,
    pub flow: String,
}

} // verus!
