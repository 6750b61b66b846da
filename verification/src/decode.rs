//! The dynamic properties deserializer: the top-level decode entry point.
//!
//! It drives a `Reader` over the raw input, reads the captured type-name
//! annotation, resolves it against the type registry, and dispatches to the
//! resolved registration to materialise the final dynamic property value.

use vstd::prelude::*;

use crate::bytes_util::bytes_eq;
use crate::property::DynamicProperties;
use crate::property::DynamicPropertiesModel;
use crate::property::PropertyField;
use crate::property::kind_of;
use crate::property::fields_view;
use crate::property::PropertyFieldModel;
use crate::reader::Reader;
use crate::reader::parse_document;
use crate::type_registry::FieldDescriptorModel;
use crate::type_registry::PropertyTypeRegistration;
use crate::type_registry::PropertyTypeRegistrationModel;
use crate::type_registry::PropertyTypeRegistry;
use crate::type_registry::spec_lookup;

verus! {

/// What a failed decode reports.  The three kinds keep "corrupt data",
/// "forgot to register a type" and "registered type rejected the payload"
/// apart.
#[derive(Clone, Copy, PartialEq, Eq, Structural, Debug)]
pub enum DecodeError {
    /// The input is not syntactically a serialized property bag.
    Malformed,
    /// The annotation names no registered type, or the value carries no
    /// annotation at all.
    UnknownType,
    /// The annotation resolved, but the registered type's shape rejected
    /// the field payload.
    TypeMismatch,
}

/// Whether raw fields fit a registered shape: one payload field per
/// descriptor field, with the same name and the same kind at each position.
pub open spec fn shape_matches(
    desc: Seq<FieldDescriptorModel>,
    fs: Seq<PropertyFieldModel>,
) -> bool {
    &&& desc.len() == fs.len()
    &&& forall|k: int|
        0 <= k < desc.len() ==> desc[k].name == fs[k].name && desc[k].kind == kind_of(fs[k].value)
}

/// What decoding an input against a registry returns, for every input: the
/// materialised property bag, or the exact error kind.
pub open spec fn spec_decode(s: Seq<u8>, regs: Seq<PropertyTypeRegistrationModel>) -> Result<
    DynamicPropertiesModel,
    DecodeError,
> {
    match parse_document(s) {
        Option::None => Err(DecodeError::Malformed),
        Option::Some(doc) => match doc.0 {
            Option::None => Err(DecodeError::UnknownType),
            Option::Some(name) => match spec_lookup(regs, name) {
                Option::None => Err(DecodeError::UnknownType),
                Option::Some(reg) => if shape_matches(reg.fields, doc.1) {
                    Ok(DynamicPropertiesModel { short_name: name, props: doc.1 })
                } else {
                    Err(DecodeError::TypeMismatch)
                },
            },
        },
    }
}

impl PropertyTypeRegistration {
    /// The erased dispatch step bound to this registration: run its decode
    /// shape against raw fields already read from the stream, and
    /// materialise the dynamic property value, or reject the payload.
    pub fn deserialize(&self, short_name: Vec<u8>, props: Vec<PropertyField>) -> (r: Result<
        DynamicProperties,
        DecodeError,
    >)
        ensures
            match r {
                Ok(dp) => {
                    &&& shape_matches(self@.fields, fields_view(props@))
                    &&& dp@ == (DynamicPropertiesModel {
                        short_name: short_name@,
                        props: fields_view(props@),
                    })
                },
                Err(e) => {
                    &&& e == DecodeError::TypeMismatch
                    &&& !shape_matches(self@.fields, fields_view(props@))
                },
            },
    {
        let n = self.fields.len();
        proof {
            assert(self@.fields.len() == self.fields@.len());
            assert(fields_view(props@).len() == props@.len());
        }
        if props.len() != n {
            return Err(DecodeError::TypeMismatch);
        }
        let mut k: usize = 0;
        while k < n
            invariant
                k <= n,
                n == self.fields@.len(),
                n == props@.len(),
                forall|t: int|
                    0 <= t < k ==> self@.fields[t].name == fields_view(props@)[t].name
                        && self@.fields[t].kind == kind_of(fields_view(props@)[t].value),
            decreases n - k,
        {
            proof {
                assert(self@.fields[k as int] == self.fields@[k as int]@);
                assert(fields_view(props@)[k as int] == props@[k as int]@);
            }
            let desc = &self.fields[k];
            let field = &props[k];
            if !bytes_eq(&desc.name, &field.name) {
                proof {
                    assert(!(self@.fields[k as int].name == fields_view(props@)[k as int].name));
                }
                return Err(DecodeError::TypeMismatch);
            }
            let got = field.value.kind();
            if got != desc.kind {
                proof {
                    assert(!(self@.fields[k as int].kind == kind_of(
                        fields_view(props@)[k as int].value,
                    )));
                }
                return Err(DecodeError::TypeMismatch);
            }
            k = k + 1;
        }
        let dp = DynamicProperties { short_name, props };
        proof {
            assert(dp@ == (DynamicPropertiesModel {
                short_name: dp.short_name@,
                props: fields_view(dp.props@),
            }));
        }
        Ok(dp)
    }
}

/// The top-level seed: it owns a borrowed view of the registry for the
/// duration of one decode call and drives a private reader over the input.
pub struct DynamicPropertiesDeserializer<'a> {
    pub registry: &'a PropertyTypeRegistry,
}

impl<'a> DynamicPropertiesDeserializer<'a> {
    /// Decode one serialized property bag.  The result is a function of the
    /// input bytes and the registry alone, so decode calls running on
    /// different threads over one read-only registry behave as if run
    /// sequentially; the captured-type-name slot lives inside the private
    /// reader this call constructs.
    pub fn deserialize(&self, input: &Vec<u8>) -> (r: Result<DynamicProperties, DecodeError>)
        ensures
            match r {
                Ok(dp) => spec_decode(input@, self.registry@) == Ok::<DynamicPropertiesModel, DecodeError>(dp@),
                Err(e) => spec_decode(input@, self.registry@) == Err::<DynamicPropertiesModel, DecodeError>(e),
            },
    {
        let mut reader = Reader::new(input);
        reader.read_annotation();
        let body = reader.read_body();
        match body {
            None => Err(DecodeError::Malformed),
            Some(props) => match reader.captured_name {
                None => Err(DecodeError::UnknownType),
                Some(name) => match self.registry.get(&name) {
                    None => Err(DecodeError::UnknownType),
                    Some(reg) => reg.deserialize(name, props),
                },
            },
        }
    }
}

/// Decode a serialized property bag against a populated registry: capture
/// the type annotation while parsing, resolve it, and dispatch to the
/// registration found.  Never panics; every failure is one of the three
/// `DecodeError` kinds, exactly as `spec_decode` lays down.
pub fn deserialize_dynamic_properties(input: &Vec<u8>, registry: &PropertyTypeRegistry) -> (r:
    Result<DynamicProperties, DecodeError>)
    ensures
        match r {
            Ok(dp) => spec_decode(input@, registry@) == Ok::<DynamicPropertiesModel, DecodeError>(dp@),
            Err(e) => spec_decode(input@, registry@) == Err::<DynamicPropertiesModel, DecodeError>(e),
        },
{
    let deserializer = DynamicPropertiesDeserializer { registry };
    deserializer.deserialize(input)
}

/// Unknown-type: a well-formed input whose annotation names a type absent
/// from the registry decodes to the unknown-type error, never to a value.
pub proof fn lemma_unregistered_name_errors(s: Seq<u8>, regs: Seq<PropertyTypeRegistrationModel>)
    requires
        parse_document(s) is Some,
        parse_document(s)->Some_0.0 is Some,
        spec_lookup(regs, parse_document(s)->Some_0.0->Some_0) is None,
    ensures
        spec_decode(s, regs) == Err::<DynamicPropertiesModel, DecodeError>(DecodeError::UnknownType),
{
}

/// Absent annotation: a well-formed input that carries no type annotation
/// decodes to the unknown-type error, whatever the registry holds; no type
/// is ever guessed.
pub proof fn lemma_missing_annotation_errors(s: Seq<u8>, regs: Seq<PropertyTypeRegistrationModel>)
    requires
        parse_document(s) is Some,
        parse_document(s)->Some_0.0 is None,
    ensures
        spec_decode(s, regs) == Err::<DynamicPropertiesModel, DecodeError>(DecodeError::UnknownType),
{
}

/// Malformed field data: a well-formed input whose annotation resolves to a
/// registration, but whose payload does not fit that registration's shape,
/// decodes to the type-mismatch error and returns no value.
pub proof fn lemma_shape_mismatch_errors(s: Seq<u8>, regs: Seq<PropertyTypeRegistrationModel>)
    requires
        parse_document(s) is Some,
        parse_document(s)->Some_0.0 is Some,
        spec_lookup(regs, parse_document(s)->Some_0.0->Some_0) is Some,
        !shape_matches(
            spec_lookup(regs, parse_document(s)->Some_0.0->Some_0)->Some_0.fields,
            parse_document(s)->Some_0.1,
        ),
    ensures
        spec_decode(s, regs) == Err::<DynamicPropertiesModel, DecodeError>(DecodeError::TypeMismatch),
{
}

} // verus!
