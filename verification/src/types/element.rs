//! The elements that a registry holds.

use crate::types::config::ConfigElement;
use crate::types::entry::Entry;
use crate::types::feature::FeatureElement;
use crate::text::text_list;
use crate::types::json::{
    list_tag, list_tag_or_empty, tag_text, tag_texts, tag_texts_or_empty, text_tag, JsonValue,
};
use crate::types::sysml::{SysmlConnector, SysmlOperation, SysmlPart, SysmlPort, SysmlProperty};
use vstd::prelude::*;

verus! {

/// A requirement.
#[derive(Debug, Clone)]
pub struct ReqElement {
    pub id: String,
    pub title: String,
    pub tags: Vec<Entry<JsonValue>>,
    pub parent: Option<String>,
    pub derives_from: Option<String>,
}

/// A use case.
#[derive(Debug, Clone)]
pub struct UseCaseElement {
    pub id: String,
    pub title: String,
    pub tags: Vec<Entry<JsonValue>>,
}

/// A block definition with its typed records.
#[derive(Debug, Clone)]
pub struct BlockDefinitionElement {
    pub id: String,
    pub title: String,
    pub tags: Vec<Entry<JsonValue>>,
    pub properties: Vec<SysmlProperty>,
    pub operations: Vec<SysmlOperation>,
    pub ports: Vec<SysmlPort>,
    pub parts: Vec<SysmlPart>,
    pub connectors: Vec<SysmlConnector>,
}

/// An internal block diagram.
#[derive(Debug, Clone)]
pub struct InternalBlockDiagramElement {
    pub id: String,
    pub title: String,
    pub tags: Vec<Entry<JsonValue>>,
    pub parts: Vec<SysmlPart>,
    pub ports: Vec<SysmlPort>,
    pub connectors: Vec<SysmlConnector>,
}

/// A sequence diagram.
#[derive(Debug, Clone)]
pub struct SequenceDiagramElement {
    pub id: String,
    pub title: String,
    pub tags: Vec<Entry<JsonValue>>,
}

/// An implementation.
#[derive(Debug, Clone)]
pub struct ImplementationElement {
    pub id: String,
    pub title: String,
    pub tags: Vec<Entry<JsonValue>>,
}

/// A test case.
#[derive(Debug, Clone)]
pub struct TestCaseElement {
    pub id: String,
    pub title: String,
    pub tags: Vec<Entry<JsonValue>>,
}

impl ReqElement {
    /// The kind of the requirement: the tag `type`.
    pub fn req_type(&self) -> (r: Option<String>)
        ensures
            match r {
                Some(s) => text_tag(self.tags@, "type"@) == Some(s@),
                None => text_tag(self.tags@, "type"@) is None,
            },
    {
        tag_text(&self.tags, "type")
    }

    /// The safety level of the requirement: the tag `safety`.
    pub fn safety_level(&self) -> (r: Option<String>)
        ensures
            match r {
                Some(s) => text_tag(self.tags@, "safety"@) == Some(s@),
                None => text_tag(self.tags@, "safety"@) is None,
            },
    {
        tag_text(&self.tags, "safety")
    }

    /// The security properties of the requirement: the tag `security`.
    pub fn security_properties(&self) -> (r: Option<Vec<String>>)
        ensures
            match r {
                Some(v) => list_tag(self.tags@, "security"@) == Some(text_list(v@)),
                None => list_tag(self.tags@, "security"@) is None,
            },
    {
        tag_texts(&self.tags, "security")
    }
}

impl UseCaseElement {
    /// The actor of the use case: the tag `actor`.
    pub fn actor(&self) -> (r: Option<String>)
        ensures
            match r {
                Some(s) => text_tag(self.tags@, "actor"@) == Some(s@),
                None => text_tag(self.tags@, "actor"@) is None,
            },
    {
        tag_text(&self.tags, "actor")
    }

    /// What must hold before the use case: the tag `pre-condition`.
    pub fn precondition(&self) -> (r: Option<String>)
        ensures
            match r {
                Some(s) => text_tag(self.tags@, "pre-condition"@) == Some(s@),
                None => text_tag(self.tags@, "pre-condition"@) is None,
            },
    {
        tag_text(&self.tags, "pre-condition")
    }
}

impl BlockDefinitionElement {
    /// The properties of the block.
    pub fn properties(&self) -> (r: &Vec<SysmlProperty>)
        ensures
            *r == self.properties,
    {
        &self.properties
    }

    /// The operations of the block.
    pub fn operations(&self) -> (r: &Vec<SysmlOperation>)
        ensures
            *r == self.operations,
    {
        &self.operations
    }

    /// The ports of the block.
    pub fn ports(&self) -> (r: &Vec<SysmlPort>)
        ensures
            *r == self.ports,
    {
        &self.ports
    }

    /// The parts of which the block is made.
    pub fn parts(&self) -> (r: &Vec<SysmlPart>)
        ensures
            *r == self.parts,
    {
        &self.parts
    }

    /// The connectors of the block.
    pub fn connectors(&self) -> (r: &Vec<SysmlConnector>)
        ensures
            *r == self.connectors,
    {
        &self.connectors
    }

    /// The elements that the block refers to: the tag `sysml-references`.
    pub fn references(&self) -> (r: Vec<String>)
        ensures
            text_list(r@) == list_tag_or_empty(self.tags@, "sysml-references"@),
    {
        tag_texts_or_empty(&self.tags, "sysml-references")
    }

    /// The constraints of the block: the tag `sysml-constraints`.
    pub fn constraints(&self) -> (r: Vec<String>)
        ensures
            text_list(r@) == list_tag_or_empty(self.tags@, "sysml-constraints"@),
    {
        tag_texts_or_empty(&self.tags, "sysml-constraints")
    }

    /// The stereotype of the block: the tag `stereotype`.
    pub fn stereotype(&self) -> (r: Option<String>)
        ensures
            match r {
                Some(s) => text_tag(self.tags@, "stereotype"@) == Some(s@),
                None => text_tag(self.tags@, "stereotype"@) is None,
            },
    {
        tag_text(&self.tags, "stereotype")
    }

    /// The first port of the name.
    pub fn find_port(&self, name: &str) -> (r: Option<&SysmlPort>)
        ensures
            match r {
                Some(p) => exists|i: int|
                    0 <= i < self.ports@.len() && *p == self.ports@[i] && self.ports@[i].name@ == name@
                        && forall|j: int| 0 <= j < i ==> (#[trigger] self.ports@[j]).name@ != name@,
                None => forall|j: int|
                    0 <= j < self.ports@.len() ==> (#[trigger] self.ports@[j]).name@ != name@,
            },
    {
        let wanted = name.to_owned();
        let mut i: usize = 0;
        while i < self.ports.len()
            invariant
                i <= self.ports.len(),
                wanted@ == name@,
                forall|j: int| 0 <= j < i ==> (#[trigger] self.ports@[j]).name@ != name@,
            decreases self.ports.len() - i,
        {
            if self.ports[i].name == wanted {
                return Some(&self.ports[i]);
            }
            i = i + 1;
        }
        None
    }

    /// The first part of the name.
    pub fn find_part(&self, name: &str) -> (r: Option<&SysmlPart>)
        ensures
            match r {
                Some(p) => exists|i: int|
                    0 <= i < self.parts@.len() && *p == self.parts@[i] && self.parts@[i].name@ == name@
                        && forall|j: int| 0 <= j < i ==> (#[trigger] self.parts@[j]).name@ != name@,
                None => forall|j: int|
                    0 <= j < self.parts@.len() ==> (#[trigger] self.parts@[j]).name@ != name@,
            },
    {
        let wanted = name.to_owned();
        let mut i: usize = 0;
        while i < self.parts.len()
            invariant
                i <= self.parts.len(),
                wanted@ == name@,
                forall|j: int| 0 <= j < i ==> (#[trigger] self.parts@[j]).name@ != name@,
            decreases self.parts.len() - i,
        {
            if self.parts[i].name == wanted {
                return Some(&self.parts[i]);
            }
            i = i + 1;
        }
        None
    }
}

impl InternalBlockDiagramElement {
    /// The parts of the diagram.
    pub fn parts(&self) -> (r: &Vec<SysmlPart>)
        ensures
            *r == self.parts,
    {
        &self.parts
    }

    /// The ports of the diagram.
    pub fn ports(&self) -> (r: &Vec<SysmlPort>)
        ensures
            *r == self.ports,
    {
        &self.ports
    }

    /// The connectors of the diagram.
    pub fn connectors(&self) -> (r: &Vec<SysmlConnector>)
        ensures
            *r == self.connectors,
    {
        &self.connectors
    }

    /// The elements that the diagram refers to: the tag `ibd-references`.
    pub fn references(&self) -> (r: Vec<String>)
        ensures
            text_list(r@) == list_tag_or_empty(self.tags@, "ibd-references"@),
    {
        tag_texts_or_empty(&self.tags, "ibd-references")
    }
}

/// An element of any kind.
#[derive(Debug, Clone)]
pub enum Element {
    Feature(FeatureElement),
    Req(ReqElement),
    UseCase(UseCaseElement),
    Config(ConfigElement),
    BlockDefinition(BlockDefinitionElement),
    InternalBlockDiagram(InternalBlockDiagramElement),
    SequenceDiagram(SequenceDiagramElement),
    Implementation(ImplementationElement),
    TestCase(TestCaseElement),
}

impl Element {
    /// The element's identifier.
    pub open spec fn id_of(&self) -> Seq<char> {
        match self {
            Element::Feature(e) => e.id@,
            Element::Req(e) => e.id@,
            Element::UseCase(e) => e.id@,
            Element::Config(e) => e.id@,
            Element::BlockDefinition(e) => e.id@,
            Element::InternalBlockDiagram(e) => e.id@,
            Element::SequenceDiagram(e) => e.id@,
            Element::Implementation(e) => e.id@,
            Element::TestCase(e) => e.id@,
        }
    }

    /// The element's title.
    pub open spec fn title_of(&self) -> Seq<char> {
        match self {
            Element::Feature(e) => e.title@,
            Element::Req(e) => e.title@,
            Element::UseCase(e) => e.title@,
            Element::Config(e) => e.title@,
            Element::BlockDefinition(e) => e.title@,
            Element::InternalBlockDiagram(e) => e.title@,
            Element::SequenceDiagram(e) => e.title@,
            Element::Implementation(e) => e.title@,
            Element::TestCase(e) => e.title@,
        }
    }

    /// The word by which the host names the element's kind.
    pub open spec fn kind_of(&self) -> Seq<char> {
        match self {
            Element::Feature(_) => "feature"@,
            Element::Req(_) => "req"@,
            Element::UseCase(_) => "use_case"@,
            Element::Config(_) => "config"@,
            Element::BlockDefinition(_) => "block_definition"@,
            Element::InternalBlockDiagram(_) => "internal_block_diagram"@,
            Element::SequenceDiagram(_) => "sequence_diagram"@,
            Element::Implementation(_) => "implementation"@,
            Element::TestCase(_) => "test_case"@,
        }
    }

    /// The identifier of the element.
    pub fn id(&self) -> (r: &String)
        ensures
            r@ == self.id_of(),
    {
        match self {
            Element::Feature(e) => &e.id,
            Element::Req(e) => &e.id,
            Element::UseCase(e) => &e.id,
            Element::Config(e) => &e.id,
            Element::BlockDefinition(e) => &e.id,
            Element::InternalBlockDiagram(e) => &e.id,
            Element::SequenceDiagram(e) => &e.id,
            Element::Implementation(e) => &e.id,
            Element::TestCase(e) => &e.id,
        }
    }

    /// The title of the element.
    pub fn title(&self) -> (r: &String)
        ensures
            r@ == self.title_of(),
    {
        match self {
            Element::Feature(e) => &e.title,
            Element::Req(e) => &e.title,
            Element::UseCase(e) => &e.title,
            Element::Config(e) => &e.title,
            Element::BlockDefinition(e) => &e.title,
            Element::InternalBlockDiagram(e) => &e.title,
            Element::SequenceDiagram(e) => &e.title,
            Element::Implementation(e) => &e.title,
            Element::TestCase(e) => &e.title,
        }
    }

    /// The word by which the host names the kind of the element.
    pub fn kind_name(&self) -> (r: &'static str)
        ensures
            r@ == self.kind_of(),
    {
        match self {
            Element::Feature(_) => "feature",
            Element::Req(_) => "req",
            Element::UseCase(_) => "use_case",
            Element::Config(_) => "config",
            Element::BlockDefinition(_) => "block_definition",
            Element::InternalBlockDiagram(_) => "internal_block_diagram",
            Element::SequenceDiagram(_) => "sequence_diagram",
            Element::Implementation(_) => "implementation",
            Element::TestCase(_) => "test_case",
        }
    }

    /// The feature, where the element is one.
    pub fn as_feature(&self) -> (r: Option<&FeatureElement>)
        ensures
            r is Some == self is Feature,
            r matches Some(e) ==> *e == self->Feature_0,
    {
        if let Element::Feature(f) = self {
            Some(f)
        } else {
            None
        }
    }

    /// The requirement, where the element is one.
    pub fn as_req(&self) -> (r: Option<&ReqElement>)
        ensures
            r is Some == self is Req,
            r matches Some(e) ==> *e == self->Req_0,
    {
        if let Element::Req(e) = self {
            Some(e)
        } else {
            None
        }
    }

    /// The use case, where the element is one.
    pub fn as_use_case(&self) -> (r: Option<&UseCaseElement>)
        ensures
            r is Some == self is UseCase,
            r matches Some(e) ==> *e == self->UseCase_0,
    {
        if let Element::UseCase(e) = self {
            Some(e)
        } else {
            None
        }
    }

    /// The configuration, where the element is one.
    pub fn as_config(&self) -> (r: Option<&ConfigElement>)
        ensures
            r is Some == self is Config,
            r matches Some(e) ==> *e == self->Config_0,
    {
        if let Element::Config(e) = self {
            Some(e)
        } else {
            None
        }
    }

    /// The block definition, where the element is one.
    pub fn as_block_definition(&self) -> (r: Option<&BlockDefinitionElement>)
        ensures
            r is Some == self is BlockDefinition,
            r matches Some(e) ==> *e == self->BlockDefinition_0,
    {
        if let Element::BlockDefinition(e) = self {
            Some(e)
        } else {
            None
        }
    }

    /// The internal block diagram, where the element is one.
    pub fn as_internal_block_diagram(&self) -> (r: Option<&InternalBlockDiagramElement>)
        ensures
            r is Some == self is InternalBlockDiagram,
            r matches Some(e) ==> *e == self->InternalBlockDiagram_0,
    {
        if let Element::InternalBlockDiagram(e) = self {
            Some(e)
        } else {
            None
        }
    }

    /// The sequence diagram, where the element is one.
    pub fn as_sequence_diagram(&self) -> (r: Option<&SequenceDiagramElement>)
        ensures
            r is Some == self is SequenceDiagram,
            r matches Some(e) ==> *e == self->SequenceDiagram_0,
    {
        if let Element::SequenceDiagram(e) = self {
            Some(e)
        } else {
            None
        }
    }

    /// The implementation, where the element is one.
    pub fn as_implementation(&self) -> (r: Option<&ImplementationElement>)
        ensures
            r is Some == self is Implementation,
            r matches Some(e) ==> *e == self->Implementation_0,
    {
        if let Element::Implementation(e) = self {
            Some(e)
        } else {
            None
        }
    }

    /// The test case, where the element is one.
    pub fn as_test_case(&self) -> (r: Option<&TestCaseElement>)
        ensures
            r is Some == self is TestCase,
            r matches Some(e) ==> *e == self->TestCase_0,
    {
        if let Element::TestCase(e) = self {
            Some(e)
        } else {
            None
        }
    }
}

} // verus!
