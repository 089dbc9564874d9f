//! Names of the kinds of properties that cards take.
use vstd::prelude::*;

verus! {

/// A kind of property.
#[derive(Debug, Clone, Copy, PartialEq, Eq)]
pub enum PropertyName {
    Integer,
    Float,
    Number,
    Value,
    Text,
    Variable,
    Object,
    Boolean,
}

/// Every kind of property, in declaration order.
pub open spec fn spec_all_props() -> Seq<PropertyName> {
    seq![
        PropertyName::Integer,
        PropertyName::Float,
        PropertyName::Number,
        PropertyName::Value,
        PropertyName::Text,
        PropertyName::Variable,
        PropertyName::Object,
        PropertyName::Boolean,
    ]
}

impl PropertyName {
    /// The name of the kind.
    pub open spec fn spec_str(self) -> Seq<char> {
        match self {
            PropertyName::Integer => "Integer"@,
            PropertyName::Float => "Float"@,
            PropertyName::Number => "Number"@,
            PropertyName::Value => "Value"@,
            PropertyName::Text => "Text"@,
            PropertyName::Variable => "Variable"@,
            PropertyName::Object => "Object"@,
            PropertyName::Boolean => "Boolean"@,
        }
    }

    /// Every kind of property.
    pub fn all_props() -> (r: Vec<PropertyName>)
        ensures
            r@ == spec_all_props(),
    {
        let r = vec![
            PropertyName::Integer,
            PropertyName::Float,
            PropertyName::Number,
            PropertyName::Value,
            PropertyName::Text,
            PropertyName::Variable,
            PropertyName::Object,
            PropertyName::Boolean,
        ];
        assert(r@ =~= spec_all_props());
        r
    }

    /// The name of the kind.
    pub fn to_str(self) -> (r: &'static str)
        ensures
            r@ == self.spec_str(),
    {
        match self {
            PropertyName::Integer => "Integer",
            PropertyName::Float => "Float",
            PropertyName::Number => "Number",
            PropertyName::Value => "Value",
            PropertyName::Text => "Text",
            PropertyName::Variable => "Variable",
            PropertyName::Object => "Object",
            PropertyName::Boolean => "Boolean",
        }
    }
}

/// Every kind of property is listed once.
pub proof fn lemma_all_props_complete(p: PropertyName)
    ensures
        spec_all_props().contains(p),
        spec_all_props().len() == 8,
{
    let s = spec_all_props();
    match p {
        PropertyName::Integer => assert(s[0] == p),
        PropertyName::Float => assert(s[1] == p),
        PropertyName::Number => assert(s[2] == p),
        PropertyName::Value => assert(s[3] == p),
        PropertyName::Text => assert(s[4] == p),
        PropertyName::Variable => assert(s[5] == p),
        PropertyName::Object => assert(s[6] == p),
        PropertyName::Boolean => assert(s[7] == p),
    }
}

} // verus!
