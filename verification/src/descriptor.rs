//! The data model: field descriptors, type descriptors, layout results, and
//! the validation that rejects malformed descriptors.

use vstd::prelude::*;
use vstd::string::StringExecFns;
use crate::align::is_pow2;
use crate::align::is_power_of_two;

verus! {

/// One field of a composite type: its byte size and its byte alignment.
///
/// A well-formed field has a power-of-two alignment. Zero-sized fields are
/// permitted; zero is a multiple of every alignment.
#[derive(Clone, Copy, Debug, PartialEq, Eq, Structural)]
pub struct FieldDescriptor {
    pub size: usize,
    pub alignment: usize,
}

/// A composite type to be laid out: either a struct with an ordered list of
/// fields (the declaration order supplied by the caller), or a tagged union
/// with a discriminant tag and one payload shape per variant.
#[derive(Debug)]
pub enum TypeDescriptor {
    Struct { fields: Vec<FieldDescriptor> },
    TaggedUnion { discriminant: FieldDescriptor, variants: Vec<FieldDescriptor> },
}

/// The computed layout of a composite type: its total byte size (always a
/// multiple of the alignment), its byte alignment (a power of two, at least
/// 1), and byte offsets.
///
/// Under the sequential strategy, `offsets` holds one entry per struct field
/// in declaration order, or, for a tagged union, the offsets of the
/// discriminant and of the variant payload region. Under the default
/// strategy the implementation may place fields anywhere, so no offsets are
/// exposed and `offsets` is empty.
#[derive(Debug)]
pub struct LayoutResult {
    pub size: usize,
    pub alignment: usize,
    pub offsets: Vec<usize>,
}

/// Why a descriptor was rejected: a field or discriminant alignment of zero,
/// an alignment that is not a power of two, or a tagged union with no
/// variants (no variants means no valid discriminant domain).
#[derive(Clone, Copy, Debug, PartialEq, Eq, Structural)]
pub enum InvalidDescriptor {
    ZeroAlignment,
    AlignmentNotPowerOfTwo,
    NoVariants,
}

impl InvalidDescriptor {
    /// The human-readable reason for the rejection.
    pub fn reason(&self) -> (r: String)
        ensures
            r@ == match *self {
                InvalidDescriptor::ZeroAlignment => "alignment must not be zero"@,
                InvalidDescriptor::AlignmentNotPowerOfTwo => "alignment must be a power of two"@,
                InvalidDescriptor::NoVariants => "a tagged union needs at least one variant"@,
            },
    {
        match *self {
            InvalidDescriptor::ZeroAlignment => String::from_str("alignment must not be zero"),
            InvalidDescriptor::AlignmentNotPowerOfTwo => String::from_str(
                "alignment must be a power of two",
            ),
            InvalidDescriptor::NoVariants => String::from_str(
                "a tagged union needs at least one variant",
            ),
        }
    }
}

/// A well-formed field: its alignment is a power of two (hence at least 1).
pub open spec fn field_ok(f: FieldDescriptor) -> bool {
    is_pow2(f.alignment as int)
}

/// Every field of `fields` is well-formed.
pub open spec fn fields_ok(fields: Seq<FieldDescriptor>) -> bool {
    forall|i: int| 0 <= i < fields.len() ==> field_ok(#[trigger] fields[i])
}

/// The error reported for one malformed field, `None` when it is well-formed.
/// An alignment of zero is reported as such; any other non-power-of-two
/// alignment as `AlignmentNotPowerOfTwo`.
pub open spec fn field_error(f: FieldDescriptor) -> Option<InvalidDescriptor> {
    if f.alignment == 0 {
        Some(InvalidDescriptor::ZeroAlignment)
    } else if !is_pow2(f.alignment as int) {
        Some(InvalidDescriptor::AlignmentNotPowerOfTwo)
    } else {
        None
    }
}

/// The first error among `fields`, scanned front to back.
pub open spec fn fields_error(fields: Seq<FieldDescriptor>) -> Option<InvalidDescriptor>
    decreases fields.len(),
{
    if fields.len() == 0 {
        None
    } else if field_error(fields.first()) is Some {
        field_error(fields.first())
    } else {
        fields_error(fields.drop_first())
    }
}

/// The error a validation pass reports for `d`, `None` when `d` is valid.
/// Struct fields are scanned in declaration order; for a tagged union the
/// discriminant is checked first, then the variant payloads in order, and
/// last that at least one variant exists.
pub open spec fn descriptor_error(d: TypeDescriptor) -> Option<InvalidDescriptor> {
    match d {
        TypeDescriptor::Struct { fields } => fields_error(fields@),
        TypeDescriptor::TaggedUnion { discriminant, variants } => {
            if field_error(discriminant) is Some {
                field_error(discriminant)
            } else if fields_error(variants@) is Some {
                fields_error(variants@)
            } else if variants@.len() == 0 {
                Some(InvalidDescriptor::NoVariants)
            } else {
                None
            }
        },
    }
}

/// `d` passes validation.
pub open spec fn descriptor_ok(d: TypeDescriptor) -> bool {
    descriptor_error(d) is None
}

/// A clean scan of `fields` means every field is well-formed, and the other
/// way round.
pub proof fn lemma_fields_error_none(fields: Seq<FieldDescriptor>)
    ensures
        fields_error(fields) is None <==> fields_ok(fields),
    decreases fields.len(),
{
    if fields.len() > 0 {
        lemma_fields_error_none(fields.drop_first());
        if field_error(fields.first()) is None && fields_ok(fields.drop_first()) {
            assert forall|i: int| 0 <= i < fields.len() implies field_ok(#[trigger] fields[i]) by {
                if i > 0 {
                    assert(fields.drop_first()[i - 1] == fields[i]);
                    assert(field_ok(fields.drop_first()[i - 1]));
                }
            }
        }
        if fields_ok(fields) {
            assert forall|i: int|
                0 <= i < fields.drop_first().len() implies field_ok(
                #[trigger] fields.drop_first()[i],
            ) by {
                assert(fields.drop_first()[i] == fields[i + 1]);
                assert(field_ok(fields[i + 1]));
            }
        }
    }
}

fn check_field(f: &FieldDescriptor) -> (r: Option<InvalidDescriptor>)
    ensures
        r == field_error(*f),
{
    if f.alignment == 0 {
        Some(InvalidDescriptor::ZeroAlignment)
    } else if !is_power_of_two(f.alignment) {
        Some(InvalidDescriptor::AlignmentNotPowerOfTwo)
    } else {
        None
    }
}

fn check_fields(fields: &Vec<FieldDescriptor>) -> (r: Option<InvalidDescriptor>)
    ensures
        r == fields_error(fields@),
{
    let mut i: usize = 0;
    proof {
        assert(fields@.skip(0) =~= fields@);
    }
    while i < fields.len()
        invariant
            i <= fields.len(),
            fields_error(fields@) == fields_error(fields@.skip(i as int)),
        decreases fields.len() - i,
    {
        let e = check_field(&fields[i]);
        proof {
            assert(fields@.skip(i as int).first() == fields@[i as int]);
            assert(fields@.skip(i as int).drop_first() =~= fields@.skip(i as int + 1));
        }
        if e.is_some() {
            return e;
        }
        i = i + 1;
    }
    proof {
        assert(fields@.skip(fields@.len() as int) =~= Seq::<FieldDescriptor>::empty());
    }
    None
}

/// Runs the validation pass and reports the first error, if any, exactly as
/// `descriptor_error` describes it.
pub fn check_descriptor(d: &TypeDescriptor) -> (r: Option<InvalidDescriptor>)
    ensures
        r == descriptor_error(*d),
{
    match d {
        TypeDescriptor::Struct { fields } => check_fields(fields),
        TypeDescriptor::TaggedUnion { discriminant, variants } => {
            let e = check_field(discriminant);
            if e.is_some() {
                return e;
            }
            let e2 = check_fields(variants);
            if e2.is_some() {
                return e2;
            }
            if variants.len() == 0 {
                Some(InvalidDescriptor::NoVariants)
            } else {
                None
            }
        },
    }
}

} // verus!
