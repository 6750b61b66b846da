//! Serializing a property bag back into the self-describing text format:
//! the short type name as annotation, then the parenthesised,
//! comma-separated field list.

use vstd::prelude::*;

use crate::property::DynamicProperties;
use crate::property::DynamicPropertiesModel;
use crate::property::PropertyField;
use crate::property::PropertyFieldModel;
use crate::property::PropertyValue;
use crate::property::PropertyValueModel;

verus! {

/// The decimal digits of a number, most significant first.
pub open spec fn dec_digits(n: int) -> Seq<u8>
    decreases n,
{
    if n < 10 {
        seq![(48 + n) as u8]
    } else {
        dec_digits(n / 10).push((48 + n % 10) as u8)
    }
}

/// The bytes a field value serializes to.
pub open spec fn print_value(v: PropertyValueModel) -> Seq<u8> {
    match v {
        PropertyValueModel::Bool(b) => if b {
            seq![116u8, 114u8, 117u8, 101u8]
        } else {
            seq![102u8, 97u8, 108u8, 115u8, 101u8]
        },
        PropertyValueModel::UInt(n) => dec_digits(n as int),
        PropertyValueModel::Str(s) => seq![34u8] + s + seq![34u8],
    }
}

/// The bytes one `name:value` field serializes to.
pub open spec fn print_field(f: PropertyFieldModel) -> Seq<u8> {
    f.name + seq![58u8] + print_value(f.value)
}

/// The bytes of every field after the first, each preceded by a comma.
pub open spec fn print_more_fields(fs: Seq<PropertyFieldModel>) -> Seq<u8>
    decreases fs.len(),
{
    if fs.len() == 0 {
        Seq::empty()
    } else {
        seq![44u8] + print_field(fs[0]) + print_more_fields(fs.drop_first())
    }
}

/// The bytes of a comma-separated field list.
pub open spec fn print_fields(fs: Seq<PropertyFieldModel>) -> Seq<u8> {
    if fs.len() == 0 {
        Seq::empty()
    } else {
        print_field(fs[0]) + print_more_fields(fs.drop_first())
    }
}

/// The bytes a whole property bag serializes to: annotation, opening
/// parenthesis, fields, closing parenthesis.
pub open spec fn print_document(dp: DynamicPropertiesModel) -> Seq<u8> {
    dp.short_name + seq![40u8] + print_fields(dp.props) + seq![41u8]
}

/// Append the bytes of `b` to `out`.
fn push_bytes(out: &mut Vec<u8>, b: &Vec<u8>)
    ensures
        final(out)@ == old(out)@ + b@,
{
    let n = b.len();
    let mut i: usize = 0;
    proof {
        assert(out@ =~= old(out)@ + b@.subrange(0, 0));
    }
    while i < n
        invariant
            i <= n,
            n == b@.len(),
            out@ == old(out)@ + b@.subrange(0, i as int),
        decreases n - i,
    {
        out.push(b[i]);
        proof {
            assert(old(out)@ + b@.subrange(0, i as int) + seq![b@[i as int]] =~= old(out)@
                + b@.subrange(0, i + 1 as int));
        }
        i = i + 1;
    }
    proof {
        assert(b@.subrange(0, n as int) =~= b@);
    }
}

/// Append the decimal digits of `n` to `out`.
fn push_uint(out: &mut Vec<u8>, n: u64)
    ensures
        final(out)@ == old(out)@ + dec_digits(n as int),
    decreases n,
{
    if n < 10 {
        out.push(48 + n as u8);
        proof {
            assert(old(out)@ + dec_digits(n as int) =~= old(out)@.push((48 + n) as u8));
        }
    } else {
        push_uint(out, n / 10);
        out.push(48 + (n % 10) as u8);
        proof {
            assert(old(out)@ + dec_digits(n as int) =~= (old(out)@ + dec_digits(n as int / 10)).push(
                (48 + n as int % 10) as u8,
            ));
        }
    }
}

/// Append the serialized form of one field value to `out`.
fn push_value(out: &mut Vec<u8>, v: &PropertyValue)
    ensures
        final(out)@ == old(out)@ + print_value(v@),
{
    match v {
        PropertyValue::Bool(b) => {
            if *b {
                out.push(116);
                out.push(114);
                out.push(117);
                out.push(101);
                proof {
                    assert(out@ =~= old(out)@ + print_value(v@));
                }
            } else {
                out.push(102);
                out.push(97);
                out.push(108);
                out.push(115);
                out.push(101);
                proof {
                    assert(out@ =~= old(out)@ + print_value(v@));
                }
            }
        },
        PropertyValue::UInt(n) => {
            push_uint(out, *n);
        },
        PropertyValue::Str(s) => {
            out.push(34);
            push_bytes(out, s);
            out.push(34);
            proof {
                assert(out@ =~= old(out)@ + print_value(v@));
            }
        },
    }
}

/// Append the serialized form of one `name:value` field to `out`.
fn push_field(out: &mut Vec<u8>, f: &PropertyField)
    ensures
        final(out)@ == old(out)@ + print_field(f@),
{
    push_bytes(out, &f.name);
    out.push(58);
    push_value(out, &f.value);
    proof {
        assert(out@ =~= old(out)@ + print_field(f@));
    }
}

/// Serialize a property bag: its short type name as the annotation, then
/// its fields in order, exactly as `print_document` lays down.
pub fn serialize_dynamic_properties(dp: &DynamicProperties) -> (r: Vec<u8>)
    ensures
        r@ == print_document(dp@),
{
    let ghost fsm = dp@.props;
    let mut out: Vec<u8> = Vec::new();
    push_bytes(&mut out, &dp.short_name);
    out.push(40);
    let ghost prefix = dp.short_name@ + seq![40u8];
    proof {
        assert(out@ =~= prefix);
    }
    let n = dp.props.len();
    let mut i: usize = 0;
    while i < n
        invariant
            i <= n,
            n == dp.props@.len(),
            fsm == dp@.props,
            prefix == dp.short_name@ + seq![40u8],
            out@ + (if i == 0 {
                print_fields(fsm)
            } else {
                print_more_fields(fsm.skip(i as int))
            }) == prefix + print_fields(fsm),
        decreases n - i,
    {
        proof {
            assert(fsm[i as int] == dp.props@[i as int]@);
        }
        if i == 0 {
            push_field(&mut out, &dp.props[0]);
            proof {
                assert(print_fields(fsm) == print_field(fsm[0]) + print_more_fields(
                    fsm.drop_first(),
                ));
                assert(fsm.drop_first() =~= fsm.skip(1));
                assert((out@ + print_more_fields(fsm.skip(1))) =~= (prefix + print_fields(fsm)));
            }
        } else {
            out.push(44);
            push_field(&mut out, &dp.props[i]);
            proof {
                assert(fsm.skip(i as int)[0] == fsm[i as int]);
                assert(fsm.skip(i as int).drop_first() =~= fsm.skip(i + 1 as int));
                assert(print_more_fields(fsm.skip(i as int)) == seq![44u8] + print_field(
                    fsm[i as int],
                ) + print_more_fields(fsm.skip(i + 1 as int)));
                assert((out@ + print_more_fields(fsm.skip(i + 1 as int))) =~= (prefix
                    + print_fields(fsm)));
            }
        }
        i = i + 1;
    }
    proof {
        if n == 0 {
            assert(print_fields(fsm) == Seq::<u8>::empty());
            assert(out@ + Seq::<u8>::empty() =~= out@);
        } else {
            assert(fsm.skip(n as int).len() == 0);
            assert(print_more_fields(fsm.skip(n as int)) == Seq::<u8>::empty());
            assert(out@ + Seq::<u8>::empty() =~= out@);
        }
        assert(out@ =~= prefix + print_fields(fsm));
    }
    out.push(41);
    proof {
        assert(out@ =~= print_document(dp@));
    }
    out
}

} // verus!
