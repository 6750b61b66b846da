//! The runtime type registry: a table from short type names to per-type
//! decode descriptors.  Registering under an already-used short name
//! overwrites the earlier entry (last writer wins).

use vstd::prelude::*;

use crate::bytes_util::bytes_eq;
use crate::bytes_util::vec_range;
use crate::property::PropertyKind;

verus! {

/// The expected shape of one field of a registered concrete type.
#[derive(Debug, Clone)]
pub struct FieldDescriptor {
    pub name: Vec<u8>,
    pub kind: PropertyKind,
}

/// Mathematical model of a `FieldDescriptor`.
#[verifier::ext_equal]
pub struct FieldDescriptorModel {
    pub name: Seq<u8>,
    pub kind: PropertyKind,
}

impl View for FieldDescriptor {
    type V = FieldDescriptorModel;

    open spec fn view(&self) -> FieldDescriptorModel {
        FieldDescriptorModel { name: self.name@, kind: self.kind }
    }
}

/// What the embedding application states about a concrete type when it
/// registers it: a process-unique type identity, the fully qualified path of
/// the type, and the shape its decode routine accepts.
#[derive(Debug, Clone)]
pub struct TypeDescriptor {
    pub ty: u64,
    pub type_path: Vec<u8>,
    pub fields: Vec<FieldDescriptor>,
}

/// Mathematical model of a `TypeDescriptor`.
#[verifier::ext_equal]
pub struct TypeDescriptorModel {
    pub ty: u64,
    pub type_path: Seq<u8>,
    pub fields: Seq<FieldDescriptorModel>,
}

impl View for TypeDescriptor {
    type V = TypeDescriptorModel;

    open spec fn view(&self) -> TypeDescriptorModel {
        TypeDescriptorModel {
            ty: self.ty,
            type_path: self.type_path@,
            fields: self.fields@.map_values(|f: FieldDescriptor| f@),
        }
    }
}

/// One entry of the registry: the identity of a registered concrete type,
/// its short lookup name, and the shape driving its decode routine.
#[derive(Debug, Clone)]
pub struct PropertyTypeRegistration {
    pub ty: u64,
    pub short_name: Vec<u8>,
    pub fields: Vec<FieldDescriptor>,
}

/// Mathematical model of a `PropertyTypeRegistration`.
#[verifier::ext_equal]
pub struct PropertyTypeRegistrationModel {
    pub ty: u64,
    pub short_name: Seq<u8>,
    pub fields: Seq<FieldDescriptorModel>,
}

impl View for PropertyTypeRegistration {
    type V = PropertyTypeRegistrationModel;

    open spec fn view(&self) -> PropertyTypeRegistrationModel {
        PropertyTypeRegistrationModel {
            ty: self.ty,
            short_name: self.short_name@,
            fields: self.fields@.map_values(|f: FieldDescriptor| f@),
        }
    }
}

/// Helper for `short_name_of`: scan backward from position `i` for the
/// rightmost `::` separator; the short name is what follows it.
pub open spec fn short_name_from(path: Seq<u8>, i: int) -> Seq<u8>
    decreases i,
{
    if i < 2 {
        path
    } else if path[i - 2] == 58 && path[i - 1] == 58 {
        path.subrange(i, path.len() as int)
    } else {
        short_name_from(path, i - 1)
    }
}

/// The short name of a fully qualified type path: its final path segment,
/// the suffix after the last `::`, or the whole path if it has none.
pub open spec fn short_name_of(path: Seq<u8>) -> Seq<u8> {
    short_name_from(path, path.len() as int)
}

/// The final path segment of a fully qualified type path.
pub fn last_segment(path: &Vec<u8>) -> (r: Vec<u8>)
    ensures
        r@ == short_name_of(path@),
{
    let n = path.len();
    let mut i: usize = n;
    while i >= 2
        invariant
            i <= n,
            n == path@.len(),
            short_name_of(path@) == short_name_from(path@, i as int),
        decreases i,
    {
        if path[i - 2] == 58 && path[i - 1] == 58 {
            return vec_range(path, i, n);
        }
        i = i - 1;
    }
    vec_range(path, 0, n)
}

/// The registration a descriptor gives rise to.
pub open spec fn spec_registration_of(d: TypeDescriptorModel) -> PropertyTypeRegistrationModel {
    PropertyTypeRegistrationModel {
        ty: d.ty,
        short_name: short_name_of(d.type_path),
        fields: d.fields,
    }
}

impl PropertyTypeRegistration {
    /// Construct the registration of a concrete type: its identity, its
    /// decode shape, and its short name, derived from the fully qualified
    /// type path by keeping only the final path segment.
    pub fn of(descriptor: TypeDescriptor) -> (r: Self)
        ensures
            r@ == spec_registration_of(descriptor@),
    {
        let short_name = last_segment(&descriptor.type_path);
        PropertyTypeRegistration { ty: descriptor.ty, short_name, fields: descriptor.fields }
    }
}

/// Look a short name up in a registration sequence: the first entry whose
/// short name matches, if any.
pub open spec fn spec_lookup(
    regs: Seq<PropertyTypeRegistrationModel>,
    name: Seq<u8>,
) -> Option<PropertyTypeRegistrationModel>
    decreases regs.len(),
{
    if regs.len() == 0 {
        None
    } else if regs[0].short_name == name {
        Some(regs[0])
    } else {
        spec_lookup(regs.drop_first(), name)
    }
}

/// Insert a registration: replace the first entry with the same short name,
/// or append if the short name is new.
pub open spec fn spec_insert(
    regs: Seq<PropertyTypeRegistrationModel>,
    r: PropertyTypeRegistrationModel,
) -> Seq<PropertyTypeRegistrationModel>
    decreases regs.len(),
{
    if regs.len() == 0 {
        seq![r]
    } else if regs[0].short_name == r.short_name {
        seq![r] + regs.drop_first()
    } else {
        seq![regs[0]] + spec_insert(regs.drop_first(), r)
    }
}

/// The registry: a table from short type names to registrations.  The short
/// names of distinct entries are distinct; `spec_insert` keeps them so.
pub struct PropertyTypeRegistry {
    pub registrations: Vec<PropertyTypeRegistration>,
}

impl View for PropertyTypeRegistry {
    type V = Seq<PropertyTypeRegistrationModel>;

    open spec fn view(&self) -> Seq<PropertyTypeRegistrationModel> {
        self.registrations@.map_values(|r: PropertyTypeRegistration| r@)
    }
}

/// No two entries share a short name.
pub open spec fn unique_short_names(regs: Seq<PropertyTypeRegistrationModel>) -> bool {
    forall|i: int, j: int|
        0 <= i < j < regs.len() ==> regs[i].short_name != regs[j].short_name
}

proof fn lemma_spec_insert_update(
    regs: Seq<PropertyTypeRegistrationModel>,
    r: PropertyTypeRegistrationModel,
    i: int,
)
    requires
        0 <= i < regs.len(),
        regs[i].short_name == r.short_name,
        forall|k: int| 0 <= k < i ==> regs[k].short_name != r.short_name,
    ensures
        spec_insert(regs, r) == regs.update(i, r),
    decreases i,
{
    if i == 0 {
        assert(spec_insert(regs, r) =~= regs.update(0, r));
    } else {
        assert(regs.drop_first()[i - 1] == regs[i]);
        assert(forall|k: int| 0 <= k < i - 1 ==> regs.drop_first()[k] == regs[k + 1]);
        lemma_spec_insert_update(regs.drop_first(), r, i - 1);
        assert(seq![regs[0]] + regs.drop_first().update(i - 1, r) =~= regs.update(i, r));
    }
}

proof fn lemma_spec_insert_push(
    regs: Seq<PropertyTypeRegistrationModel>,
    r: PropertyTypeRegistrationModel,
)
    requires
        forall|k: int| 0 <= k < regs.len() ==> regs[k].short_name != r.short_name,
    ensures
        spec_insert(regs, r) == regs.push(r),
    decreases regs.len(),
{
    if regs.len() == 0 {
        assert(spec_insert(regs, r) =~= regs.push(r));
    } else {
        assert(forall|k: int|
            0 <= k < regs.drop_first().len() ==> regs.drop_first()[k] == regs[k + 1]);
        lemma_spec_insert_push(regs.drop_first(), r);
        assert(seq![regs[0]] + regs.drop_first().push(r) =~= regs.push(r));
    }
}

impl PropertyTypeRegistry {
    /// Register a concrete type from its descriptor, storing its
    /// registration under the derived short name.  A prior entry with the
    /// same short name is overwritten: the last writer wins.
    pub fn register(&mut self, descriptor: TypeDescriptor)
        ensures
            final(self)@ == spec_insert(old(self)@, spec_registration_of(descriptor@)),
    {
        let registration = PropertyTypeRegistration::of(descriptor);
        let ghost regm = registration@;
        let n = self.registrations.len();
        let mut i: usize = 0;
        while i < n
            invariant
                i <= n,
                n == self.registrations@.len(),
                *self == *old(self),
                regm == registration@,
                regm == spec_registration_of(descriptor@),
                forall|k: int| 0 <= k < i ==> self@[k].short_name != regm.short_name,
            decreases n - i,
        {
            let entry = &self.registrations[i];
            let hit = bytes_eq(&entry.short_name, &registration.short_name);
            proof {
                assert(*entry == self.registrations@[i as int]);
                assert(self@[i as int] == self.registrations@[i as int]@);
                assert(self@[i as int].short_name == entry.short_name@);
                assert(regm.short_name == registration.short_name@);
            }
            if hit {
                proof {
                    assert(self@[i as int].short_name == regm.short_name);
                    lemma_spec_insert_update(self@, regm, i as int);
                }
                self.registrations.set(i, registration);
                proof {
                    assert(self.registrations@ == old(self).registrations@.update(
                        i as int,
                        registration,
                    ));
                    assert forall|k: int| 0 <= k < self@.len() implies self@[k] == old(
                        self,
                    )@.update(i as int, regm)[k] by {
                        assert(self@[k] == self.registrations@[k]@);
                        assert(old(self)@[k] == old(self).registrations@[k]@);
                    }
                    assert(self@ =~= old(self)@.update(i as int, regm));
                }
                return ;
            }
            i = i + 1;
        }
        proof {
            lemma_spec_insert_push(self@, regm);
        }
        self.registrations.push(registration);
        proof {
            assert(self@ =~= old(self)@.push(regm));
        }
    }

    /// The registration stored under an exact short name, or nothing when
    /// the name is unregistered.
    pub fn get(&self, name: &Vec<u8>) -> (r: Option<&PropertyTypeRegistration>)
        ensures
            match r {
                Some(reg) => spec_lookup(self@, name@) == Some(reg@),
                None => spec_lookup(self@, name@) is None,
            },
    {
        let n = self.registrations.len();
        let mut i: usize = 0;
        proof {
            assert(self@.skip(0) =~= self@);
        }
        while i < n
            invariant
                i <= n,
                n == self.registrations@.len(),
                spec_lookup(self@, name@) == spec_lookup(self@.skip(i as int), name@),
            decreases n - i,
        {
            let reg = &self.registrations[i];
            let hit = bytes_eq(&reg.short_name, name);
            proof {
                assert(self@[i as int] == self.registrations@[i as int]@);
                assert(self@.skip(i as int)[0] == self@[i as int]);
            }
            if hit {
                proof {
                    assert(spec_lookup(self@.skip(i as int), name@) == Some(self@[i as int]));
                }
                return Some(reg);
            }
            proof {
                assert(self@.skip(i as int).drop_first() =~= self@.skip(i + 1 as int));
            }
            i = i + 1;
        }
        proof {
            assert(self@.skip(n as int).len() == 0);
        }
        None
    }
}

impl Default for PropertyTypeRegistry {
    /// An empty registry.
    fn default() -> (r: Self)
        ensures
            r@ == Seq::<PropertyTypeRegistrationModel>::empty(),
    {
        let r = PropertyTypeRegistry { registrations: Vec::new() };
        proof {
            assert(r@ =~= Seq::<PropertyTypeRegistrationModel>::empty());
        }
        r
    }
}

/// Looking a name up after an insertion finds the inserted registration
/// exactly when the name is its short name; every other name resolves as
/// before.  In particular, of two registrations under one short name, only
/// the most recently registered one is resolvable: the last writer wins.
pub proof fn lemma_lookup_insert(
    regs: Seq<PropertyTypeRegistrationModel>,
    r: PropertyTypeRegistrationModel,
    name: Seq<u8>,
)
    ensures
        spec_lookup(spec_insert(regs, r), name) == if name == r.short_name {
            Some(r)
        } else {
            spec_lookup(regs, name)
        },
    decreases regs.len(),
{
    if regs.len() == 0 {
        let s = seq![r];
        assert(spec_insert(regs, r) == s);
        assert(s.drop_first() =~= Seq::<PropertyTypeRegistrationModel>::empty());
        assert(spec_lookup(s.drop_first(), name) is None);
        assert(s[0] == r);
        assert(spec_lookup(s, name) == if name == r.short_name {
            Some(r)
        } else {
            spec_lookup(regs, name)
        });
    } else if regs[0].short_name == r.short_name {
        let s = seq![r] + regs.drop_first();
        assert(s[0] == r);
        assert(s.drop_first() =~= regs.drop_first());
        lemma_lookup_insert(regs.drop_first(), r, name);
    } else {
        let s = seq![regs[0]] + spec_insert(regs.drop_first(), r);
        assert(s[0] == regs[0]);
        assert(s.drop_first() =~= spec_insert(regs.drop_first(), r));
        lemma_lookup_insert(regs.drop_first(), r, name);
    }
}

/// Registering two types whose paths collapse to the same short name leaves
/// only the most recently registered one resolvable under that name.
pub proof fn lemma_register_overwrite(
    regs: Seq<PropertyTypeRegistrationModel>,
    first: PropertyTypeRegistrationModel,
    second: PropertyTypeRegistrationModel,
)
    requires
        first.short_name == second.short_name,
    ensures
        spec_lookup(spec_insert(spec_insert(regs, first), second), first.short_name) == Some(
            second,
        ),
{
    lemma_lookup_insert(spec_insert(regs, first), second, first.short_name);
}

/// `spec_insert` keeps short names unique, so a registry grown only by
/// `register` from empty is a true map: each short name has one entry.
pub proof fn lemma_insert_preserves_unique(
    regs: Seq<PropertyTypeRegistrationModel>,
    r: PropertyTypeRegistrationModel,
)
    requires
        unique_short_names(regs),
    ensures
        unique_short_names(spec_insert(regs, r)),
    decreases regs.len(),
{
    if regs.len() == 0 {
    } else if regs[0].short_name == r.short_name {
        let s = seq![r] + regs.drop_first();
        assert(forall|i: int, j: int|
            0 <= i < j < regs.drop_first().len() ==> regs.drop_first()[i].short_name
                != regs.drop_first()[j].short_name);
        assert forall|i: int, j: int| 0 <= i < j < s.len() implies s[i].short_name
            != s[j].short_name by {
            if i == 0 {
                assert(s[j] == regs.drop_first()[j - 1]);
                assert(s[j] == regs[j]);
            } else {
                assert(s[i] == regs[i]);
                assert(s[j] == regs[j]);
            }
        }
    } else {
        assert(forall|i: int, j: int|
            0 <= i < j < regs.drop_first().len() ==> regs.drop_first()[i].short_name
                != regs.drop_first()[j].short_name);
        lemma_insert_preserves_unique(regs.drop_first(), r);
        let t = spec_insert(regs.drop_first(), r);
        let s = seq![regs[0]] + t;
        lemma_insert_members(regs.drop_first(), r);
        assert forall|i: int, j: int| 0 <= i < j < s.len() implies s[i].short_name
            != s[j].short_name by {
            if i == 0 {
                assert(s[j] == t[j - 1]);
                if t[j - 1] != r {
                    assert(regs.drop_first().contains(t[j - 1]));
                    let w = choose|w: int|
                        0 <= w < regs.drop_first().len() && regs.drop_first()[w] == t[j - 1];
                    assert(regs[w + 1] == t[j - 1]);
                    assert(regs[0].short_name != regs[w + 1].short_name);
                }
            } else {
                assert(s[i] == t[i - 1] && s[j] == t[j - 1]);
            }
        }
    }
}

/// Every entry of an inserted sequence is the inserted registration or one
/// of the old entries.
proof fn lemma_insert_members(
    regs: Seq<PropertyTypeRegistrationModel>,
    r: PropertyTypeRegistrationModel,
)
    ensures
        forall|k: int|
            0 <= k < spec_insert(regs, r).len() ==> spec_insert(regs, r)[k] == r || regs.contains(
                #[trigger] spec_insert(regs, r)[k],
            ),
    decreases regs.len(),
{
    if regs.len() == 0 {
    } else if regs[0].short_name == r.short_name {
        assert(forall|k: int|
            1 <= k < spec_insert(regs, r).len() ==> regs.contains(
                #[trigger] spec_insert(regs, r)[k],
            )) by {
            assert(forall|k: int|
                1 <= k < spec_insert(regs, r).len() ==> spec_insert(regs, r)[k] == regs[k]);
        }
    } else {
        lemma_insert_members(regs.drop_first(), r);
        let t = spec_insert(regs.drop_first(), r);
        assert forall|k: int| 0 <= k < spec_insert(regs, r).len() implies spec_insert(regs, r)[k]
            == r || regs.contains(#[trigger] spec_insert(regs, r)[k]) by {
            if k == 0 {
                assert(regs.contains(regs[0]));
            } else {
                assert(spec_insert(regs, r)[k] == t[k - 1]);
                if t[k - 1] != r {
                    assert(regs.drop_first().contains(t[k - 1]));
                    let w = choose|w: int|
                        0 <= w < regs.drop_first().len() && regs.drop_first()[w] == t[k - 1];
                    assert(regs[w + 1] == t[k - 1]);
                }
            }
        }
    }
}

} // verus!
