//! What every element has: an identifier, a title and tags.

use crate::types::config::ConfigElement;
use crate::types::element::{
    BlockDefinitionElement, ImplementationElement, InternalBlockDiagramElement, ReqElement,
    SequenceDiagramElement, TestCaseElement, UseCaseElement,
};
use crate::types::entry::{has_key, Entry};
use crate::types::feature::FeatureElement;
use crate::types::json::{has_tag, JsonValue};
use vstd::prelude::*;

verus! {

/// The part that all elements share.
pub trait ElementCore {
    /// The identifier of the element.
    spec fn core_id(&self) -> Seq<char>;

    /// The title of the element.
    spec fn core_title(&self) -> Seq<char>;

    /// The tags of the element.
    spec fn core_tags(&self) -> Seq<Entry<JsonValue>>;

    fn id(&self) -> (r: &String)
        ensures
            r@ == self.core_id(),
    ;

    fn title(&self) -> (r: &String)
        ensures
            r@ == self.core_title(),
    ;

    fn tags(&self) -> (r: &Vec<Entry<JsonValue>>)
        ensures
            r@ == self.core_tags(),
    ;

    /// Whether the element has a tag of the name.
    fn has_tag(&self, key: &str) -> (r: bool)
        ensures
            r == has_key(self.core_tags(), key@),
    {
        has_tag(self.tags(), key)
    }
}

impl ElementCore for FeatureElement {
    open spec fn core_id(&self) -> Seq<char> {
        self.id@
    }

    open spec fn core_title(&self) -> Seq<char> {
        self.title@
    }

    open spec fn core_tags(&self) -> Seq<Entry<JsonValue>> {
        self.tags@
    }

    fn id(&self) -> (r: &String) {
        &self.id
    }

    fn title(&self) -> (r: &String) {
        &self.title
    }

    fn tags(&self) -> (r: &Vec<Entry<JsonValue>>) {
        &self.tags
    }
}

impl ElementCore for ReqElement {
    open spec fn core_id(&self) -> Seq<char> {
        self.id@
    }

    open spec fn core_title(&self) -> Seq<char> {
        self.title@
    }

    open spec fn core_tags(&self) -> Seq<Entry<JsonValue>> {
        self.tags@
    }

    fn id(&self) -> (r: &String) {
        &self.id
    }

    fn title(&self) -> (r: &String) {
        &self.title
    }

    fn tags(&self) -> (r: &Vec<Entry<JsonValue>>) {
        &self.tags
    }
}

impl ElementCore for UseCaseElement {
    open spec fn core_id(&self) -> Seq<char> {
        self.id@
    }

    open spec fn core_title(&self) -> Seq<char> {
        self.title@
    }

    open spec fn core_tags(&self) -> Seq<Entry<JsonValue>> {
        self.tags@
    }

    fn id(&self) -> (r: &String) {
        &self.id
    }

    fn title(&self) -> (r: &String) {
        &self.title
    }

    fn tags(&self) -> (r: &Vec<Entry<JsonValue>>) {
        &self.tags
    }
}

impl ElementCore for ConfigElement {
    open spec fn core_id(&self) -> Seq<char> {
        self.id@
    }

    open spec fn core_title(&self) -> Seq<char> {
        self.title@
    }

    open spec fn core_tags(&self) -> Seq<Entry<JsonValue>> {
        self.tags@
    }

    fn id(&self) -> (r: &String) {
        &self.id
    }

    fn title(&self) -> (r: &String) {
        &self.title
    }

    fn tags(&self) -> (r: &Vec<Entry<JsonValue>>) {
        &self.tags
    }
}

impl ElementCore for BlockDefinitionElement {
    open spec fn core_id(&self) -> Seq<char> {
        self.id@
    }

    open spec fn core_title(&self) -> Seq<char> {
        self.title@
    }

    open spec fn core_tags(&self) -> Seq<Entry<JsonValue>> {
        self.tags@
    }

    fn id(&self) -> (r: &String) {
        &self.id
    }

    fn title(&self) -> (r: &String) {
        &self.title
    }

    fn tags(&self) -> (r: &Vec<Entry<JsonValue>>) {
        &self.tags
    }
}

impl ElementCore for InternalBlockDiagramElement {
    open spec fn core_id(&self) -> Seq<char> {
        self.id@
    }

    open spec fn core_title(&self) -> Seq<char> {
        self.title@
    }

    open spec fn core_tags(&self) -> Seq<Entry<JsonValue>> {
        self.tags@
    }

    fn id(&self) -> (r: &String) {
        &self.id
    }

    fn title(&self) -> (r: &String) {
        &self.title
    }

    fn tags(&self) -> (r: &Vec<Entry<JsonValue>>) {
        &self.tags
    }
}

impl ElementCore for SequenceDiagramElement {
    open spec fn core_id(&self) -> Seq<char> {
        self.id@
    }

    open spec fn core_title(&self) -> Seq<char> {
        self.title@
    }

    open spec fn core_tags(&self) -> Seq<Entry<JsonValue>> {
        self.tags@
    }

    fn id(&self) -> (r: &String) {
        &self.id
    }

    fn title(&self) -> (r: &String) {
        &self.title
    }

    fn tags(&self) -> (r: &Vec<Entry<JsonValue>>) {
        &self.tags
    }
}

impl ElementCore for ImplementationElement {
    open spec fn core_id(&self) -> Seq<char> {
        self.id@
    }

    open spec fn core_title(&self) -> Seq<char> {
        self.title@
    }

    open spec fn core_tags(&self) -> Seq<Entry<JsonValue>> {
        self.tags@
    }

    fn id(&self) -> (r: &String) {
        &self.id
    }

    fn title(&self) -> (r: &String) {
        &self.title
    }

    fn tags(&self) -> (r: &Vec<Entry<JsonValue>>) {
        &self.tags
    }
}

impl ElementCore for TestCaseElement {
    open spec fn core_id(&self) -> Seq<char> {
        self.id@
    }

    open spec fn core_title(&self) -> Seq<char> {
        self.title@
    }

    open spec fn core_tags(&self) -> Seq<Entry<JsonValue>> {
        self.tags@
    }

    fn id(&self) -> (r: &String) {
        &self.id
    }

    fn title(&self) -> (r: &String) {
        &self.title
    }

    fn tags(&self) -> (r: &Vec<Entry<JsonValue>>) {
        &self.tags
    }
}

} // verus!
