//! The round-trip law: a well-formed property bag, serialized and then
//! decoded through a registry that resolves its short name to a matching
//! shape, comes back unchanged.

use vstd::prelude::*;

use crate::decode::DecodeError;
use crate::decode::shape_matches;
use crate::decode::spec_decode;
use crate::property::DynamicPropertiesModel;
use crate::property::PropertyFieldModel;
use crate::property::PropertyValueModel;
use crate::reader::digits_end;
use crate::reader::ident_end;
use crate::reader::is_digit;
use crate::reader::is_ident_byte;
use crate::reader::parse_annotation;
use crate::reader::parse_body;
use crate::reader::parse_document;
use crate::reader::parse_field;
use crate::reader::parse_fields;
use crate::reader::parse_more_fields;
use crate::reader::parse_value;
use crate::reader::digits_val;
use crate::reader::str_end;
use crate::type_registry::PropertyTypeRegistrationModel;
use crate::type_registry::spec_lookup;
use crate::writer::dec_digits;
use crate::writer::print_document;
use crate::writer::print_field;
use crate::writer::print_fields;
use crate::writer::print_more_fields;
use crate::writer::print_value;

verus! {

/// The bytes `w` stand at position `i` of `s`.
pub open spec fn occurs_at(s: Seq<u8>, i: int, w: Seq<u8>) -> bool {
    &&& 0 <= i
    &&& i + w.len() <= s.len()
    &&& s.subrange(i, i + w.len()) == w
}

/// A usable name: a nonempty identifier.
pub open spec fn wf_name(w: Seq<u8>) -> bool {
    &&& w.len() > 0
    &&& forall|k: int| 0 <= k < w.len() ==> is_ident_byte(w[k])
}

/// A serializable value: a byte string must not hold a quote byte, since
/// the format writes strings without escapes.
pub open spec fn wf_value(v: PropertyValueModel) -> bool {
    match v {
        PropertyValueModel::Str(s) => forall|k: int| 0 <= k < s.len() ==> s[k] != 34,
        _ => true,
    }
}

/// A serializable field: a usable name and a serializable value.
pub open spec fn wf_field(f: PropertyFieldModel) -> bool {
    &&& wf_name(f.name)
    &&& wf_value(f.value)
}

/// A serializable property bag.
pub open spec fn wf_dynamic_properties(dp: DynamicPropertiesModel) -> bool {
    &&& wf_name(dp.short_name)
    &&& forall|k: int| 0 <= k < dp.props.len() ==> wf_field(#[trigger] dp.props[k])
}

proof fn lemma_occurs_split(s: Seq<u8>, i: int, a: Seq<u8>, b: Seq<u8>)
    requires
        occurs_at(s, i, a + b),
    ensures
        occurs_at(s, i, a),
        occurs_at(s, i + a.len(), b),
{
    let ab = a + b;
    assert forall|k: int| 0 <= k < a.len() implies s[i + k] == a[k] by {
        assert(s.subrange(i, i + ab.len())[k] == s[i + k]);
        assert(ab[k] == a[k]);
    }
    assert(s.subrange(i, i + a.len()) =~= a);
    assert forall|k: int| 0 <= k < b.len() implies s[i + a.len() + k] == b[k] by {
        assert(s.subrange(i, i + ab.len())[a.len() + k] == s[i + a.len() + k]);
        assert(ab[a.len() + k] == b[k]);
    }
    assert(s.subrange(i + a.len(), i + a.len() + b.len()) =~= b);
}

proof fn lemma_occurs_byte(s: Seq<u8>, i: int, c: u8)
    requires
        occurs_at(s, i, seq![c]),
    ensures
        0 <= i < s.len(),
        s[i] == c,
{
    assert(s.subrange(i, i + 1)[0] == s[i]);
}

proof fn lemma_ident_end_exact(s: Seq<u8>, i: int, w: Seq<u8>)
    requires
        occurs_at(s, i, w),
        forall|k: int| 0 <= k < w.len() ==> is_ident_byte(w[k]),
        i + w.len() == s.len() || !is_ident_byte(s[i + w.len()]),
    ensures
        ident_end(s, i) == i + w.len(),
    decreases w.len(),
{
    if w.len() == 0 {
        assert(ident_end(s, i) == i);
    } else {
        assert(s.subrange(i, i + w.len())[0] == s[i]);
        assert(is_ident_byte(s[i]));
        assert forall|k: int| 0 <= k < w.len() - 1 implies s[i + 1 + k] == w.drop_first()[k] by {
            assert(s.subrange(i, i + w.len())[k + 1] == s[i + 1 + k]);
        }
        assert(s.subrange(i + 1, i + 1 + w.drop_first().len()) =~= w.drop_first());
        lemma_ident_end_exact(s, i + 1, w.drop_first());
    }
}

proof fn lemma_digits_end_exact(s: Seq<u8>, i: int, w: Seq<u8>)
    requires
        occurs_at(s, i, w),
        forall|k: int| 0 <= k < w.len() ==> is_digit(w[k]),
        i + w.len() == s.len() || !is_digit(s[i + w.len()]),
    ensures
        digits_end(s, i) == i + w.len(),
    decreases w.len(),
{
    if w.len() == 0 {
        assert(digits_end(s, i) == i);
    } else {
        assert(s.subrange(i, i + w.len())[0] == s[i]);
        assert(is_digit(s[i]));
        assert forall|k: int| 0 <= k < w.len() - 1 implies s[i + 1 + k] == w.drop_first()[k] by {
            assert(s.subrange(i, i + w.len())[k + 1] == s[i + 1 + k]);
        }
        assert(s.subrange(i + 1, i + 1 + w.drop_first().len()) =~= w.drop_first());
        lemma_digits_end_exact(s, i + 1, w.drop_first());
    }
}

proof fn lemma_str_end_exact(s: Seq<u8>, i: int, w: Seq<u8>)
    requires
        occurs_at(s, i, w),
        forall|k: int| 0 <= k < w.len() ==> w[k] != 34,
        i + w.len() < s.len(),
        s[i + w.len()] == 34,
    ensures
        str_end(s, i) == i + w.len(),
    decreases w.len(),
{
    if w.len() == 0 {
        assert(str_end(s, i) == i);
    } else {
        assert(s.subrange(i, i + w.len())[0] == s[i]);
        assert(s[i] != 34);
        assert forall|k: int| 0 <= k < w.len() - 1 implies s[i + 1 + k] == w.drop_first()[k] by {
            assert(s.subrange(i, i + w.len())[k + 1] == s[i + 1 + k]);
        }
        assert(s.subrange(i + 1, i + 1 + w.drop_first().len()) =~= w.drop_first());
        lemma_str_end_exact(s, i + 1, w.drop_first());
    }
}

proof fn lemma_dec_digits(n: int)
    requires
        n >= 0,
    ensures
        dec_digits(n).len() >= 1,
        forall|k: int| 0 <= k < dec_digits(n).len() ==> is_digit(#[trigger] dec_digits(n)[k]),
        digits_val(dec_digits(n)) == n,
    decreases n,
{
    if n < 10 {
        assert(dec_digits(n) == seq![(48 + n) as u8]);
        assert(dec_digits(n).drop_last() =~= Seq::<u8>::empty());
        assert(digits_val(Seq::<u8>::empty()) == 0);
        assert(digits_val(dec_digits(n)) == n);
    } else {
        lemma_dec_digits(n / 10);
        let w = dec_digits(n / 10);
        let d = (48 + n % 10) as u8;
        assert(dec_digits(n) == w.push(d));
        assert(w.push(d).drop_last() =~= w);
        assert(w.push(d).last() == d);
        vstd::arithmetic::div_mod::lemma_fundamental_div_mod(n, 10);
        assert(digits_val(dec_digits(n)) == digits_val(w) * 10 + (d - 48));
        assert(digits_val(dec_digits(n)) == n);
        assert forall|k: int| 0 <= k < dec_digits(n).len() implies is_digit(
            #[trigger] dec_digits(n)[k],
        ) by {
            if k < w.len() {
                assert(dec_digits(n)[k] == w[k]);
            } else {
                assert(dec_digits(n)[k] == d);
            }
        }
    }
}

proof fn lemma_parse_value_exact(s: Seq<u8>, i: int, v: PropertyValueModel)
    requires
        wf_value(v),
        occurs_at(s, i, print_value(v)),
        i + print_value(v).len() == s.len() || s[i + print_value(v).len()] == 44 || s[i
            + print_value(v).len()] == 41,
    ensures
        parse_value(s, i) == Some((v, i + print_value(v).len())),
{
    let w = print_value(v);
    let e = i + w.len();
    match v {
        PropertyValueModel::Bool(b) => {
            if b {
                assert forall|k: int| 0 <= k < 4 implies s[i + k] == w[k] by {
                    assert(s.subrange(i, i + w.len())[k] == s[i + k]);
                }
                assert(s[i] == 116);
                assert(s.subrange(i, i + 4) =~= seq![116u8, 114u8, 117u8, 101u8]);
            } else {
                assert forall|k: int| 0 <= k < 5 implies s[i + k] == w[k] by {
                    assert(s.subrange(i, i + w.len())[k] == s[i + k]);
                }
                assert(s[i] == 102);
                if i + 4 <= s.len() && s.subrange(i, i + 4) == seq![116u8, 114u8, 117u8, 101u8] {
                    assert(s.subrange(i, i + 4)[0] == s[i]);
                }
                assert(s.subrange(i, i + 5) =~= seq![102u8, 97u8, 108u8, 115u8, 101u8]);
            }
        },
        PropertyValueModel::UInt(n) => {
            lemma_dec_digits(n as int);
            lemma_digits_end_exact(s, i, w);
            assert(s.subrange(i, i + w.len())[0] == s[i]);
            assert(is_digit(s[i]));
            assert(s.subrange(i, digits_end(s, i)) == w);
            assert(digits_val(s.subrange(i, digits_end(s, i))) == n);
        },
        PropertyValueModel::Str(body) => {
            assert(w =~= (seq![34u8] + body) + seq![34u8]);
            lemma_occurs_split(s, i, seq![34u8] + body, seq![34u8]);
            lemma_occurs_split(s, i, seq![34u8], body);
            lemma_occurs_byte(s, i, 34);
            lemma_occurs_byte(s, i + 1 + body.len(), 34);
            lemma_str_end_exact(s, i + 1, body);
            assert(str_end(s, i + 1) == i + 1 + body.len());
            assert(s.subrange(i + 1, i + 1 + body.len()) == body);
        },
    }
}

proof fn lemma_parse_field_exact(s: Seq<u8>, i: int, f: PropertyFieldModel)
    requires
        wf_field(f),
        occurs_at(s, i, print_field(f)),
        i + print_field(f).len() == s.len() || s[i + print_field(f).len()] == 44 || s[i
            + print_field(f).len()] == 41,
    ensures
        parse_field(s, i) == Some((f, i + print_field(f).len())),
{
    let w = print_field(f);
    let nl = f.name.len() as int;
    assert(w =~= f.name + (seq![58u8] + print_value(f.value)));
    lemma_occurs_split(s, i, f.name, seq![58u8] + print_value(f.value));
    lemma_occurs_split(s, i + nl, seq![58u8], print_value(f.value));
    lemma_occurs_byte(s, i + nl, 58);
    lemma_ident_end_exact(s, i, f.name);
    assert(ident_end(s, i) == i + nl);
    assert(s.subrange(i, i + nl) == f.name);
    lemma_parse_value_exact(s, i + nl + 1, f.value);
    assert(parse_value(s, i + nl + 1) == Some((f.value, i + w.len())));
    assert((PropertyFieldModel { name: f.name, value: f.value }) =~= f);
}

proof fn lemma_parse_more_fields_exact(s: Seq<u8>, i: int, fs: Seq<PropertyFieldModel>)
    requires
        forall|k: int| 0 <= k < fs.len() ==> wf_field(#[trigger] fs[k]),
        occurs_at(s, i, print_more_fields(fs) + seq![41u8]),
    ensures
        parse_more_fields(s, i) == Some((fs, i + print_more_fields(fs).len())),
    decreases fs.len(),
{
    if fs.len() == 0 {
        assert(print_more_fields(fs) + seq![41u8] =~= seq![41u8]);
        lemma_occurs_byte(s, i, 41);
        assert(fs =~= Seq::<PropertyFieldModel>::empty());
    } else {
        let pf = print_field(fs[0]);
        let rest = print_more_fields(fs.drop_first());
        assert(print_more_fields(fs) + seq![41u8] =~= seq![44u8] + (pf + (rest + seq![41u8])));
        lemma_occurs_split(s, i, seq![44u8], pf + (rest + seq![41u8]));
        lemma_occurs_byte(s, i, 44);
        lemma_occurs_split(s, i + 1, pf, rest + seq![41u8]);
        let e0 = i + 1 + pf.len();
        // the byte after the field is a comma or the closing parenthesis
        if fs.drop_first().len() == 0 {
            assert(rest + seq![41u8] =~= seq![41u8]);
            lemma_occurs_byte(s, e0, 41);
        } else {
            assert(rest == seq![44u8] + print_field(fs.drop_first()[0]) + print_more_fields(
                fs.drop_first().drop_first(),
            ));
            assert((rest + seq![41u8])[0] == 44);
            assert(s.subrange(e0, e0 + (rest + seq![41u8]).len())[0] == s[e0]);
            assert(s[e0] == 44);
        }
        lemma_parse_field_exact(s, i + 1, fs[0]);
        lemma_parse_more_fields_exact(s, e0, fs.drop_first());
        assert(seq![fs[0]] + fs.drop_first() =~= fs);
        assert(s[i] != 41);
    }
}

proof fn lemma_parse_fields_exact(s: Seq<u8>, i: int, fs: Seq<PropertyFieldModel>)
    requires
        forall|k: int| 0 <= k < fs.len() ==> wf_field(#[trigger] fs[k]),
        occurs_at(s, i, print_fields(fs) + seq![41u8]),
    ensures
        parse_fields(s, i) == Some((fs, i + print_fields(fs).len())),
{
    if fs.len() == 0 {
        assert(print_fields(fs) + seq![41u8] =~= seq![41u8]);
        lemma_occurs_byte(s, i, 41);
        assert(fs =~= Seq::<PropertyFieldModel>::empty());
    } else {
        let pf = print_field(fs[0]);
        let rest = print_more_fields(fs.drop_first());
        assert(print_fields(fs) + seq![41u8] =~= pf + (rest + seq![41u8]));
        lemma_occurs_split(s, i, pf, rest + seq![41u8]);
        let e0 = i + pf.len();
        if fs.drop_first().len() == 0 {
            assert(rest + seq![41u8] =~= seq![41u8]);
            lemma_occurs_byte(s, e0, 41);
        } else {
            assert(rest == seq![44u8] + print_field(fs.drop_first()[0]) + print_more_fields(
                fs.drop_first().drop_first(),
            ));
            assert((rest + seq![41u8])[0] == 44);
            assert(s.subrange(e0, e0 + (rest + seq![41u8]).len())[0] == s[e0]);
            assert(s[e0] == 44);
        }
        lemma_parse_field_exact(s, i, fs[0]);
        lemma_parse_more_fields_exact(s, e0, fs.drop_first());
        assert(seq![fs[0]] + fs.drop_first() =~= fs);
        // the first byte is an identifier byte of the field name, never `)`
        assert(pf =~= fs[0].name + (seq![58u8] + print_value(fs[0].value)));
        lemma_occurs_split(s, i, fs[0].name, seq![58u8] + print_value(fs[0].value));
        assert(s.subrange(i, i + fs[0].name.len())[0] == s[i]);
        assert(is_ident_byte(s[i]));
        assert(s[i] != 41);
    }
}

/// Round-trip: a well-formed property bag, serialized with its short name
/// annotation and decoded back through a registry that resolves that short
/// name to a registration of the matching shape, decodes successfully to
/// the value it was serialized from.
pub proof fn lemma_round_trip(dp: DynamicPropertiesModel, regs: Seq<PropertyTypeRegistrationModel>)
    requires
        wf_dynamic_properties(dp),
        spec_lookup(regs, dp.short_name) is Some,
        shape_matches(spec_lookup(regs, dp.short_name)->Some_0.fields, dp.props),
    ensures
        spec_decode(print_document(dp), regs) == Ok::<DynamicPropertiesModel, DecodeError>(dp),
{
    let s = print_document(dp);
    let name = dp.short_name;
    let nl = name.len() as int;
    let pf = print_fields(dp.props);
    assert(s =~= name + (seq![40u8] + (pf + seq![41u8])));
    assert(s.subrange(0, s.len() as int) =~= s);
    assert(occurs_at(s, 0, name + (seq![40u8] + (pf + seq![41u8]))));
    lemma_occurs_split(s, 0, name, seq![40u8] + (pf + seq![41u8]));
    lemma_occurs_split(s, nl, seq![40u8], pf + seq![41u8]);
    lemma_occurs_byte(s, nl, 40);
    // the annotation is read back exactly
    lemma_ident_end_exact(s, 0, name);
    assert(s.subrange(0, nl)[0] == s[0]);
    assert(is_ident_byte(s[0]));
    assert(parse_annotation(s) == (Some(name), nl)) by {
        assert(ident_end(s, 0) == nl);
        assert(s.subrange(0, nl) == name);
    }
    // the field list is read back exactly
    lemma_parse_fields_exact(s, nl + 1, dp.props);
    let j = nl + 1 + pf.len();
    assert(parse_body(s, nl) == Some(dp.props)) by {
        assert(s[nl] == 40);
        assert(parse_fields(s, nl + 1) == Some((dp.props, j)));
        assert(j + 1 == s.len());
    }
    assert(parse_document(s) == Some((Some(name), dp.props)));
    assert((DynamicPropertiesModel { short_name: name, props: dp.props }) =~= dp);
}

} // verus!
