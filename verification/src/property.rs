//! Owned, dynamically typed property values: the result of a successful
//! dynamic decode.

use vstd::prelude::*;

verus! {

/// The kinds of payload a property field can carry.
#[derive(Clone, Copy, PartialEq, Eq, Structural, Debug)]
pub enum PropertyKind {
    Bool,
    UInt,
    Str,
}

/// An owned, dynamically typed field value.  Its concrete kind is known only
/// at runtime, by inspecting the variant.
#[derive(Debug, Clone, PartialEq, Eq)]
pub enum PropertyValue {
    Bool(bool),
    UInt(u64),
    Str(Vec<u8>),
}

/// Mathematical model of a `PropertyValue`.
pub enum PropertyValueModel {
    Bool(bool),
    UInt(u64),
    Str(Seq<u8>),
}

impl View for PropertyValue {
    type V = PropertyValueModel;

    open spec fn view(&self) -> PropertyValueModel {
        match self {
            PropertyValue::Bool(b) => PropertyValueModel::Bool(*b),
            PropertyValue::UInt(n) => PropertyValueModel::UInt(*n),
            PropertyValue::Str(s) => PropertyValueModel::Str(s@),
        }
    }
}

/// The kind of a property value.
pub open spec fn kind_of(v: PropertyValueModel) -> PropertyKind {
    match v {
        PropertyValueModel::Bool(_) => PropertyKind::Bool,
        PropertyValueModel::UInt(_) => PropertyKind::UInt,
        PropertyValueModel::Str(_) => PropertyKind::Str,
    }
}

impl PropertyValue {
    /// The kind of this value.
    pub fn kind(&self) -> (k: PropertyKind)
        ensures
            k == kind_of(self@),
    {
        match self {
            PropertyValue::Bool(_) => PropertyKind::Bool,
            PropertyValue::UInt(_) => PropertyKind::UInt,
            PropertyValue::Str(_) => PropertyKind::Str,
        }
    }
}

/// One named field of a property bag.
#[derive(Debug, Clone, PartialEq, Eq)]
pub struct PropertyField {
    pub name: Vec<u8>,
    pub value: PropertyValue,
}

/// Mathematical model of a `PropertyField`.
#[verifier::ext_equal]
pub struct PropertyFieldModel {
    pub name: Seq<u8>,
    pub value: PropertyValueModel,
}

impl View for PropertyField {
    type V = PropertyFieldModel;

    open spec fn view(&self) -> PropertyFieldModel {
        PropertyFieldModel { name: self.name@, value: self.value@ }
    }
}

/// An owned, dynamically typed property bag: the short name of the concrete
/// type it was decoded as, and its named fields in input order.
#[derive(Debug, Clone, PartialEq, Eq)]
pub struct DynamicProperties {
    pub short_name: Vec<u8>,
    pub props: Vec<PropertyField>,
}

/// Mathematical model of a `DynamicProperties` value.
#[verifier::ext_equal]
pub struct DynamicPropertiesModel {
    pub short_name: Seq<u8>,
    pub props: Seq<PropertyFieldModel>,
}

/// The models of a sequence of property fields.
pub open spec fn fields_view(fs: Seq<PropertyField>) -> Seq<PropertyFieldModel> {
    fs.map_values(|f: PropertyField| f@)
}

impl View for DynamicProperties {
    type V = DynamicPropertiesModel;

    open spec fn view(&self) -> DynamicPropertiesModel {
        DynamicPropertiesModel {
            short_name: self.short_name@,
            props: fields_view(self.props@),
        }
    }
}

} // verus!
