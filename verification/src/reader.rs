//! The streaming reader for the self-describing text format.
//!
//! A serialized property bag is `Name(field:value,...)`: an optional type
//! annotation (an identifier) directly in front of a parenthesised,
//! comma-separated field list.  A field is `name:value`; a value is `true`,
//! `false`, an unsigned decimal number, or a double-quoted byte string
//! without quote bytes.  The spec functions below define the grammar; the
//! `Reader` at the bottom is the verified streaming parser over it, with the
//! captured-type-name slot that the dynamic deserializer reads.
//!
//! An annotation is a run of ASCII identifier bytes, so an annotation that
//! is not valid UTF-8 never reaches the registry: the document is reported
//! malformed, like every other syntax error, instead of aborting.

use vstd::prelude::*;

use crate::bytes_util::vec_range;
use crate::property::PropertyField;
use crate::property::PropertyFieldModel;
use crate::property::PropertyValue;
use crate::property::PropertyValueModel;
use crate::property::fields_view;

verus! {

/// Identifier bytes: ASCII letters, digits and underscore.
pub open spec fn is_ident_byte(b: u8) -> bool {
    (65 <= b <= 90) || (97 <= b <= 122) || (48 <= b <= 57) || b == 95
}

/// ASCII decimal digits.
pub open spec fn is_digit(b: u8) -> bool {
    48 <= b <= 57
}

/// First position at or after `i` that does not hold an identifier byte.
pub open spec fn ident_end(s: Seq<u8>, i: int) -> int
    decreases s.len() - i,
{
    if 0 <= i < s.len() && is_ident_byte(s[i]) {
        ident_end(s, i + 1)
    } else {
        i
    }
}

/// First position at or after `i` that does not hold a digit.
pub open spec fn digits_end(s: Seq<u8>, i: int) -> int
    decreases s.len() - i,
{
    if 0 <= i < s.len() && is_digit(s[i]) {
        digits_end(s, i + 1)
    } else {
        i
    }
}

/// First position at or after `i` that holds a quote byte, or the end.
pub open spec fn str_end(s: Seq<u8>, i: int) -> int
    decreases s.len() - i,
{
    if 0 <= i < s.len() && s[i] != 34 {
        str_end(s, i + 1)
    } else {
        i
    }
}

pub proof fn lemma_ident_end(s: Seq<u8>, i: int)
    requires
        0 <= i <= s.len(),
    ensures
        i <= ident_end(s, i) <= s.len(),
        forall|k: int| i <= k < ident_end(s, i) ==> is_ident_byte(s[k]),
        ident_end(s, i) < s.len() ==> !is_ident_byte(s[ident_end(s, i)]),
    decreases s.len() - i,
{
    if i < s.len() && is_ident_byte(s[i]) {
        lemma_ident_end(s, i + 1);
    }
}

pub proof fn lemma_digits_end(s: Seq<u8>, i: int)
    requires
        0 <= i <= s.len(),
    ensures
        i <= digits_end(s, i) <= s.len(),
        forall|k: int| i <= k < digits_end(s, i) ==> is_digit(s[k]),
        digits_end(s, i) < s.len() ==> !is_digit(s[digits_end(s, i)]),
    decreases s.len() - i,
{
    if i < s.len() && is_digit(s[i]) {
        lemma_digits_end(s, i + 1);
    }
}

pub proof fn lemma_str_end(s: Seq<u8>, i: int)
    requires
        0 <= i <= s.len(),
    ensures
        i <= str_end(s, i) <= s.len(),
        forall|k: int| i <= k < str_end(s, i) ==> s[k] != 34,
        str_end(s, i) < s.len() ==> s[str_end(s, i)] == 34,
    decreases s.len() - i,
{
    if i < s.len() && s[i] != 34 {
        lemma_str_end(s, i + 1);
    }
}

/// The number a digit string denotes, most significant digit first.
pub open spec fn digits_val(w: Seq<u8>) -> int
    decreases w.len(),
{
    if w.len() == 0 {
        0
    } else {
        digits_val(w.drop_last()) * 10 + (w.last() - 48)
    }
}

pub proof fn lemma_digits_val_nonneg(w: Seq<u8>)
    requires
        forall|k: int| 0 <= k < w.len() ==> is_digit(w[k]),
    ensures
        digits_val(w) >= 0,
    decreases w.len(),
{
    if w.len() > 0 {
        lemma_digits_val_nonneg(w.drop_last());
    }
}

/// An identifier at `i`: its bytes and the position after it.
pub open spec fn parse_ident(s: Seq<u8>, i: int) -> Option<(Seq<u8>, int)> {
    let j = ident_end(s, i);
    if j > i {
        Some((s.subrange(i, j), j))
    } else {
        None
    }
}

/// An unsigned decimal number at `i`.  A digit string whose value does not
/// fit in a `u64` is malformed.
pub open spec fn parse_uint(s: Seq<u8>, i: int) -> Option<(PropertyValueModel, int)> {
    let j = digits_end(s, i);
    if j > i && digits_val(s.subrange(i, j)) <= u64::MAX {
        Some((PropertyValueModel::UInt(digits_val(s.subrange(i, j)) as u64), j))
    } else {
        None
    }
}

/// A double-quoted byte string at `i`.
pub open spec fn parse_str(s: Seq<u8>, i: int) -> Option<(PropertyValueModel, int)> {
    if 0 <= i < s.len() && s[i] == 34 {
        let j = str_end(s, i + 1);
        if j < s.len() {
            Some((PropertyValueModel::Str(s.subrange(i + 1, j)), j + 1))
        } else {
            None
        }
    } else {
        None
    }
}

/// A field value at `i`: a quoted string, a number, `true` or `false`.
pub open spec fn parse_value(s: Seq<u8>, i: int) -> Option<(PropertyValueModel, int)> {
    if 0 <= i < s.len() && s[i] == 34 {
        parse_str(s, i)
    } else if 0 <= i < s.len() && is_digit(s[i]) {
        parse_uint(s, i)
    } else if 0 <= i && i + 4 <= s.len() && s.subrange(i, i + 4) == seq![116u8, 114u8, 117u8, 101u8] {
        Some((PropertyValueModel::Bool(true), i + 4))
    } else if 0 <= i && i + 5 <= s.len() && s.subrange(i, i + 5) == seq![
        102u8,
        97u8,
        108u8,
        115u8,
        101u8,
    ] {
        Some((PropertyValueModel::Bool(false), i + 5))
    } else {
        None
    }
}

/// A `name:value` field at `i`.
pub open spec fn parse_field(s: Seq<u8>, i: int) -> Option<(PropertyFieldModel, int)> {
    match parse_ident(s, i) {
        Option::None => None,
        Option::Some((name, j)) => {
            if j < s.len() && s[j] == 58 {
                match parse_value(s, j + 1) {
                    Option::None => None,
                    Option::Some((v, k)) => Some((PropertyFieldModel { name, value: v }, k)),
                }
            } else {
                None
            }
        },
    }
}

/// The fields after the first one: `,field` repeated, up to the closing
/// parenthesis, which is not consumed.
pub open spec fn parse_more_fields(s: Seq<u8>, i: int) -> Option<(Seq<PropertyFieldModel>, int)>
    decreases s.len() - i,
{
    if 0 <= i < s.len() && s[i] == 41 {
        Some((Seq::empty(), i))
    } else if 0 <= i < s.len() && s[i] == 44 {
        match parse_field(s, i + 1) {
            Option::None => None,
            Option::Some((f, j)) => {
                if i < j <= s.len() {
                    match parse_more_fields(s, j) {
                        Option::None => None,
                        Option::Some((fs, k)) => Some((seq![f] + fs, k)),
                    }
                } else {
                    None
                }
            },
        }
    } else {
        None
    }
}

/// A possibly empty field list at `i`, up to the closing parenthesis, which
/// is not consumed.
pub open spec fn parse_fields(s: Seq<u8>, i: int) -> Option<(Seq<PropertyFieldModel>, int)> {
    if 0 <= i < s.len() && s[i] == 41 {
        Some((Seq::empty(), i))
    } else {
        match parse_field(s, i) {
            Option::None => None,
            Option::Some((f, j)) => {
                if i < j <= s.len() {
                    match parse_more_fields(s, j) {
                        Option::None => None,
                        Option::Some((fs, k)) => Some((seq![f] + fs, k)),
                    }
                } else {
                    None
                }
            },
        }
    }
}

/// The optional type annotation in front of a value, and the position after
/// it.  No annotation is not an error here; the dynamic deserializer treats
/// it as an unknown type.
pub open spec fn parse_annotation(s: Seq<u8>) -> (Option<Seq<u8>>, int) {
    if 0 < s.len() && is_ident_byte(s[0]) {
        let j = ident_end(s, 0);
        (Some(s.subrange(0, j)), j)
    } else {
        (None, 0)
    }
}

/// The parenthesised field list of a property bag, starting at `i` and
/// consuming the rest of the input.
pub open spec fn parse_body(s: Seq<u8>, i: int) -> Option<Seq<PropertyFieldModel>> {
    if 0 <= i < s.len() && s[i] == 40 {
        match parse_fields(s, i + 1) {
            Option::None => None,
            Option::Some((fs, j)) => {
                if j + 1 == s.len() {
                    Some(fs)
                } else {
                    None
                }
            },
        }
    } else {
        None
    }
}

/// A whole serialized property bag: the optional type annotation and the
/// field list.  `None` is a syntax error.
pub open spec fn parse_document(s: Seq<u8>) -> Option<(Option<Seq<u8>>, Seq<PropertyFieldModel>)> {
    let (ann, i) = parse_annotation(s);
    match parse_body(s, i) {
        Option::None => None,
        Option::Some(fs) => Some((ann, fs)),
    }
}

pub proof fn lemma_parse_value_advances(s: Seq<u8>, i: int)
    requires
        0 <= i,
        parse_value(s, i) is Some,
    ensures
        i < parse_value(s, i)->Some_0.1 <= s.len(),
{
    if i < s.len() && s[i] == 34 {
        lemma_str_end(s, i + 1);
    } else if i < s.len() && is_digit(s[i]) {
        lemma_digits_end(s, i);
    }
}

pub proof fn lemma_parse_field_advances(s: Seq<u8>, i: int)
    requires
        0 <= i,
        parse_field(s, i) is Some,
    ensures
        i < parse_field(s, i)->Some_0.1 <= s.len(),
{
    lemma_ident_end(s, i);
    let j = ident_end(s, i);
    lemma_parse_value_advances(s, j + 1);
}

fn ident_byte(b: u8) -> (r: bool)
    ensures
        r == is_ident_byte(b),
{
    (65 <= b && b <= 90) || (97 <= b && b <= 122) || (48 <= b && b <= 57) || b == 95
}

fn digit_byte(b: u8) -> (r: bool)
    ensures
        r == is_digit(b),
{
    48 <= b && b <= 57
}

fn ident_end_x(input: &Vec<u8>, i: usize) -> (j: usize)
    requires
        i <= input@.len(),
    ensures
        j == ident_end(input@, i as int),
        i <= j <= input@.len(),
{
    let n = input.len();
    let mut j = i;
    while j < n && ident_byte(input[j])
        invariant
            i <= j <= n,
            n == input@.len(),
            ident_end(input@, i as int) == ident_end(input@, j as int),
        decreases n - j,
    {
        j = j + 1;
    }
    j
}

fn digits_end_x(input: &Vec<u8>, i: usize) -> (j: usize)
    requires
        i <= input@.len(),
    ensures
        j == digits_end(input@, i as int),
        i <= j <= input@.len(),
{
    let n = input.len();
    let mut j = i;
    while j < n && digit_byte(input[j])
        invariant
            i <= j <= n,
            n == input@.len(),
            digits_end(input@, i as int) == digits_end(input@, j as int),
        decreases n - j,
    {
        j = j + 1;
    }
    j
}

fn str_end_x(input: &Vec<u8>, i: usize) -> (j: usize)
    requires
        i <= input@.len(),
    ensures
        j == str_end(input@, i as int),
        i <= j <= input@.len(),
{
    let n = input.len();
    let mut j = i;
    while j < n && input[j] != 34
        invariant
            i <= j <= n,
            n == input@.len(),
            str_end(input@, i as int) == str_end(input@, j as int),
        decreases n - j,
    {
        j = j + 1;
    }
    j
}

fn parse_ident_x(input: &Vec<u8>, i: usize) -> (r: Option<(Vec<u8>, usize)>)
    requires
        i <= input@.len(),
    ensures
        match r {
            Some(p) => {
                &&& parse_ident(input@, i as int) == Some((p.0@, p.1 as int))
                &&& i < p.1 <= input@.len()
            },
            None => parse_ident(input@, i as int) is None,
        },
{
    let j = ident_end_x(input, i);
    if j > i {
        Some((vec_range(input, i, j), j))
    } else {
        None
    }
}

fn parse_uint_x(input: &Vec<u8>, i: usize) -> (r: Option<(u64, usize)>)
    requires
        i <= input@.len(),
    ensures
        match r {
            Some(p) => {
                &&& parse_uint(input@, i as int) == Some(
                    (PropertyValueModel::UInt(p.0), p.1 as int),
                )
                &&& i < p.1 <= input@.len()
            },
            None => parse_uint(input@, i as int) is None,
        },
{
    let ghost s = input@;
    let end = digits_end_x(input, i);
    proof {
        lemma_digits_end(s, i as int);
    }
    if end == i {
        return None;
    }
    let ghost w = s.subrange(i as int, end as int);
    proof {
        lemma_digits_val_nonneg(w);
        assert(s.subrange(i as int, i as int) =~= w.subrange(0, 0));
    }
    let mut val: u64 = 0;
    let mut overflow = false;
    let mut k = i;
    while k < end
        invariant
            i <= k <= end <= input@.len(),
            s == input@,
            w == s.subrange(i as int, end as int),
            forall|t: int| i <= t < end ==> is_digit(s[t]),
            !overflow ==> val == digits_val(s.subrange(i as int, k as int)),
            overflow ==> digits_val(s.subrange(i as int, k as int)) > u64::MAX,
        decreases end - k,
    {
        let d = input[k] - 48;
        proof {
            assert(is_digit(s[k as int]));
            assert(s.subrange(i as int, k + 1 as int).drop_last() =~= s.subrange(
                i as int,
                k as int,
            ));
            assert(s.subrange(i as int, k + 1 as int).last() == s[k as int]);
            lemma_digits_val_nonneg(s.subrange(i as int, k as int));
            assert(forall|t: int|
                0 <= t < s.subrange(i as int, k as int).len() ==> is_digit(
                    #[trigger] s.subrange(i as int, k as int)[t],
                ));
        }
        if overflow {
            proof {
                assert(digits_val(s.subrange(i as int, k + 1 as int)) == digits_val(
                    s.subrange(i as int, k as int),
                ) * 10 + d);
            }
        } else if val > (u64::MAX - d as u64) / 10 {
            overflow = true;
            proof {
                assert(digits_val(s.subrange(i as int, k + 1 as int)) > u64::MAX);
            }
        } else {
            val = val * 10 + d as u64;
        }
        k = k + 1;
    }
    proof {
        assert(s.subrange(i as int, end as int) == w);
    }
    if overflow {
        return None;
    }
    Some((val, end))
}

fn parse_str_x(input: &Vec<u8>, i: usize) -> (r: Option<(PropertyValue, usize)>)
    requires
        i <= input@.len(),
    ensures
        match r {
            Some(p) => {
                &&& parse_str(input@, i as int) == Some((p.0@, p.1 as int))
                &&& i < p.1 <= input@.len()
            },
            None => parse_str(input@, i as int) is None,
        },
{
    let n = input.len();
    if i < n && input[i] == 34 {
        let j = str_end_x(input, i + 1);
        proof {
            lemma_str_end(input@, i + 1 as int);
        }
        if j < n {
            Some((PropertyValue::Str(vec_range(input, i + 1, j)), j + 1))
        } else {
            None
        }
    } else {
        None
    }
}

fn parse_value_x(input: &Vec<u8>, i: usize) -> (r: Option<(PropertyValue, usize)>)
    requires
        i <= input@.len(),
    ensures
        match r {
            Some(p) => {
                &&& parse_value(input@, i as int) == Some((p.0@, p.1 as int))
                &&& i < p.1 <= input@.len()
            },
            None => parse_value(input@, i as int) is None,
        },
{
    let ghost s = input@;
    let n = input.len();
    if i < n && input[i] == 34 {
        parse_str_x(input, i)
    } else if i < n && digit_byte(input[i]) {
        match parse_uint_x(input, i) {
            Some((v, j)) => Some((PropertyValue::UInt(v), j)),
            None => None,
        }
    } else if n - i >= 4 && input[i] == 116 && input[i + 1] == 114 && input[i + 2] == 117 && input[i
        + 3] == 101 {
        proof {
            assert(s.subrange(i as int, i + 4 as int) =~= seq![116u8, 114u8, 117u8, 101u8]);
        }
        Some((PropertyValue::Bool(true), i + 4))
    } else if n - i >= 5 && input[i] == 102 && input[i + 1] == 97 && input[i + 2] == 108 && input[i
        + 3] == 115 && input[i + 4] == 101 {
        proof {
            assert(s.subrange(i as int, i + 5 as int) =~= seq![102u8, 97u8, 108u8, 115u8, 101u8]);
        }
        Some((PropertyValue::Bool(false), i + 5))
    } else {
        proof {
            if i + 4 <= s.len() && s.subrange(i as int, i + 4 as int) == seq![
                116u8,
                114u8,
                117u8,
                101u8,
            ] {
                assert(s[i as int] == s.subrange(i as int, i + 4 as int)[0]);
                assert(s[i + 1] == s.subrange(i as int, i + 4 as int)[1]);
                assert(s[i + 2] == s.subrange(i as int, i + 4 as int)[2]);
                assert(s[i + 3] == s.subrange(i as int, i + 4 as int)[3]);
            }
            if i + 5 <= s.len() && s.subrange(i as int, i + 5 as int) == seq![
                102u8,
                97u8,
                108u8,
                115u8,
                101u8,
            ] {
                assert(s[i as int] == s.subrange(i as int, i + 5 as int)[0]);
                assert(s[i + 1] == s.subrange(i as int, i + 5 as int)[1]);
                assert(s[i + 2] == s.subrange(i as int, i + 5 as int)[2]);
                assert(s[i + 3] == s.subrange(i as int, i + 5 as int)[3]);
                assert(s[i + 4] == s.subrange(i as int, i + 5 as int)[4]);
            }
        }
        None
    }
}

fn parse_field_x(input: &Vec<u8>, i: usize) -> (r: Option<(PropertyField, usize)>)
    requires
        i <= input@.len(),
    ensures
        match r {
            Some(p) => {
                &&& parse_field(input@, i as int) == Some((p.0@, p.1 as int))
                &&& i < p.1 <= input@.len()
            },
            None => parse_field(input@, i as int) is None,
        },
{
    let n = input.len();
    match parse_ident_x(input, i) {
        None => None,
        Some((name, j)) => {
            if j < n && input[j] == 58 {
                match parse_value_x(input, j + 1) {
                    None => None,
                    Some((v, k)) => Some((PropertyField { name, value: v }, k)),
                }
            } else {
                None
            }
        },
    }
}

fn parse_fields_x(input: &Vec<u8>, i: usize) -> (r: Option<(Vec<PropertyField>, usize)>)
    requires
        i <= input@.len(),
    ensures
        match r {
            Some(p) => {
                &&& parse_fields(input@, i as int) == Some((fields_view(p.0@), p.1 as int))
                &&& i <= p.1 <= input@.len()
            },
            None => parse_fields(input@, i as int) is None,
        },
{
    let ghost s = input@;
    let n = input.len();
    if i < n && input[i] == 41 {
        let fs: Vec<PropertyField> = Vec::new();
        proof {
            assert(fields_view(fs@) =~= Seq::<PropertyFieldModel>::empty());
        }
        return Some((fs, i));
    }
    let first = parse_field_x(input, i);
    match first {
        None => None,
        Some((f, j0)) => {
            let mut fields: Vec<PropertyField> = Vec::new();
            let ghost fm = f@;
            fields.push(f);
            let mut j = j0;
            proof {
                assert(fields_view(fields@) =~= seq![fm]);
            }
            while j < n && input[j] == 44
                invariant
                    i <= j <= n,
                    n == input@.len(),
                    s == input@,
                    match parse_more_fields(s, j as int) {
                        Option::Some(p) => parse_fields(s, i as int) == Some(
                            (fields_view(fields@) + p.0, p.1),
                        ),
                        Option::None => parse_fields(s, i as int) is None,
                    },
                decreases n - j,
            {
                match parse_field_x(input, j + 1) {
                    None => {
                        return None;
                    },
                    Some((f2, j2)) => {
                        proof {
                            lemma_parse_field_advances(s, j + 1);
                            assert(fields_view(fields@.push(f2)) =~= fields_view(fields@) + seq![
                                f2@,
                            ]);
                            assert(fields_view(fields@) + (seq![f2@] + parse_more_fields(
                                s,
                                j2 as int,
                            )->Some_0.0) =~= (fields_view(fields@) + seq![f2@]) + parse_more_fields(
                                s,
                                j2 as int,
                            )->Some_0.0);
                        }
                        fields.push(f2);
                        j = j2;
                    },
                }
            }
            if j < n && input[j] == 41 {
                proof {
                    assert(parse_more_fields(s, j as int) == Some(
                        (Seq::<PropertyFieldModel>::empty(), j as int),
                    ));
                    assert(fields_view(fields@) + Seq::<PropertyFieldModel>::empty() =~= fields_view(
                        fields@,
                    ));
                }
                Some((fields, j))
            } else {
                None
            }
        },
    }
}

/// The streaming decoder adapter: it wraps the raw input, tracks the read
/// position, and captures the most recently seen type-name annotation into
/// a slot that the dynamic properties deserializer reads.  Every decode
/// call constructs its own private reader, so the slot is never shared
/// between calls.
pub struct Reader<'a> {
    pub input: &'a Vec<u8>,
    pub pos: usize,
    pub captured_name: Option<Vec<u8>>,
}

impl<'a> Reader<'a> {
    /// A fresh reader over the whole input, with nothing captured yet.
    pub fn new(input: &'a Vec<u8>) -> (r: Reader<'a>)
        ensures
            r.input == input,
            r.pos == 0,
            r.captured_name is None,
    {
        Reader { input, pos: 0, captured_name: None }
    }

    /// Read the optional leading type annotation, capture it into the
    /// shared slot (clearing the slot when the input has none), and leave
    /// the position on the first byte after it.
    pub fn read_annotation(&mut self)
        requires
            old(self).pos == 0,
        ensures
            final(self).input == old(self).input,
            final(self).pos <= final(self).input@.len(),
            ({
                let (ann, j) = parse_annotation(old(self).input@);
                &&& final(self).pos == j
                &&& match final(self).captured_name {
                    Option::Some(n) => ann == Some(n@),
                    Option::None => ann is None,
                }
            }),
    {
        let n = self.input.len();
        if n > 0 && ident_byte(self.input[0]) {
            let j = ident_end_x(self.input, 0);
            self.captured_name = Some(vec_range(self.input, 0, j));
            self.pos = j;
        } else {
            self.captured_name = None;
            self.pos = 0;
        }
    }

    /// Read the parenthesised field list that makes up the rest of the
    /// input, returning the raw fields in input order; `None` is a syntax
    /// error.  The captured annotation is left untouched.
    pub fn read_body(&mut self) -> (r: Option<Vec<PropertyField>>)
        requires
            old(self).pos <= old(self).input@.len(),
        ensures
            final(self).input == old(self).input,
            final(self).captured_name == old(self).captured_name,
            match r {
                Option::Some(fs) => parse_body(old(self).input@, old(self).pos as int) == Some(
                    fields_view(fs@),
                ),
                Option::None => parse_body(old(self).input@, old(self).pos as int) is None,
            },
    {
        let n = self.input.len();
        let i = self.pos;
        if i < n && self.input[i] == 40 {
            match parse_fields_x(self.input, i + 1) {
                None => None,
                Some((fs, j)) => {
                    if j == n - 1 {
                        self.pos = n;
                        Some(fs)
                    } else {
                        None
                    }
                },
            }
        } else {
            None
        }
    }
}

} // verus!

