//! The layout calculator: the mathematical model of both layout strategies,
//! the executable computations, and the laws that relate them.
//!
//! The sequential (C-compatible) strategy lays fields out in declaration
//! order: the running offset is rounded up to each field's alignment, the
//! field is placed, and the final offset is rounded up to the overall
//! alignment. The default (compiler-chosen) strategy may reorder fields; it
//! is computed here through one valid reference packing — the fields sorted
//! by descending alignment and then laid out sequentially — so callers may
//! rely on its size and alignment but not on any particular field offset.

use vstd::prelude::*;
use crate::align::align_up;
use crate::align::align_offset_up;
use crate::align::is_pow2;
use crate::align::lemma_align_up;
use crate::descriptor::FieldDescriptor;
use crate::descriptor::LayoutResult;
use crate::descriptor::TypeDescriptor;
use crate::descriptor::InvalidDescriptor;
use crate::descriptor::field_ok;
use crate::descriptor::fields_ok;
use crate::descriptor::descriptor_ok;
use crate::descriptor::descriptor_error;
use crate::descriptor::check_descriptor;
use crate::descriptor::lemma_fields_error_none;

verus! {

/// The largest alignment among `fields`, or 1 when there are none: the
/// alignment of a struct is the alignment of its most-aligned field.
pub open spec fn max_align(fields: Seq<FieldDescriptor>) -> int
    decreases fields.len(),
{
    if fields.len() == 0 {
        1
    } else {
        let rest = max_align(fields.drop_last());
        let a = fields.last().alignment as int;
        if a > rest {
            a
        } else {
            rest
        }
    }
}

/// The largest size among `fields`, or 0 when there are none: the payload
/// region of a tagged union must hold its largest variant.
pub open spec fn max_size(fields: Seq<FieldDescriptor>) -> int
    decreases fields.len(),
{
    if fields.len() == 0 {
        0
    } else {
        let rest = max_size(fields.drop_last());
        let s = fields.last().size as int;
        if s > rest {
            s
        } else {
            rest
        }
    }
}

/// The running offset after laying out `fields` sequentially from offset 0:
/// each field is placed at the previous offset rounded up to its alignment,
/// and the offset advances by its size.
pub open spec fn end_offset(fields: Seq<FieldDescriptor>) -> int
    decreases fields.len(),
{
    if fields.len() == 0 {
        0
    } else {
        align_up(end_offset(fields.drop_last()), fields.last().alignment as int)
            + fields.last().size as int
    }
}

/// The byte offset of field `i` under sequential layout: the offset reached
/// after its predecessors, rounded up to the field's own alignment.
pub open spec fn field_offset(fields: Seq<FieldDescriptor>, i: int) -> int
    recommends
        0 <= i < fields.len(),
{
    align_up(end_offset(fields.take(i)), fields[i].alignment as int)
}

/// The sequential size of a struct: the final running offset rounded up to
/// the struct's alignment (trailing padding).
pub open spec fn struct_size(fields: Seq<FieldDescriptor>) -> int {
    align_up(end_offset(fields), max_align(fields))
}

/// The alignment of a tagged union: the largest alignment among the variant
/// payloads and the discriminant.
pub open spec fn union_align(disc: FieldDescriptor, variants: Seq<FieldDescriptor>) -> int {
    let pa = max_align(variants);
    if disc.alignment as int > pa {
        disc.alignment as int
    } else {
        pa
    }
}

/// Under sequential layout the discriminant sits at offset 0 and the variant
/// payload region follows at the discriminant's size rounded up to the
/// payload region's alignment (the largest variant alignment).
pub open spec fn payload_offset(disc: FieldDescriptor, variants: Seq<FieldDescriptor>) -> int {
    align_up(disc.size as int, max_align(variants))
}

/// The sequential size of a tagged union: discriminant, then the payload
/// region sized for the largest variant, then trailing padding.
pub open spec fn sequential_union_size(
    disc: FieldDescriptor,
    variants: Seq<FieldDescriptor>,
) -> int {
    align_up(payload_offset(disc, variants) + max_size(variants), union_align(disc, variants))
}

/// Inserts `f` into `s` before the first element whose alignment is strictly
/// smaller, so that descending alignment order is kept and, among equal
/// alignments, earlier fields stay first.
pub open spec fn insert_by_align(f: FieldDescriptor, s: Seq<FieldDescriptor>) -> Seq<
    FieldDescriptor,
>
    decreases s.len(),
{
    if s.len() == 0 {
        seq![f]
    } else if f.alignment > s.first().alignment {
        seq![f] + s
    } else {
        seq![s.first()] + insert_by_align(f, s.drop_first())
    }
}

/// The fields sorted by descending alignment, stably: the reference packing
/// order of the default strategy.
pub open spec fn sort_by_align(s: Seq<FieldDescriptor>) -> Seq<FieldDescriptor>
    decreases s.len(),
{
    if s.len() == 0 {
        Seq::empty()
    } else {
        insert_by_align(s.last(), sort_by_align(s.drop_last()))
    }
}

/// The default-strategy size of a struct: the reference packing (fields
/// sorted by descending alignment, laid out sequentially), rounded up to the
/// struct's alignment.
pub open spec fn default_struct_size(fields: Seq<FieldDescriptor>) -> int {
    align_up(end_offset(sort_by_align(fields)), max_align(fields))
}

/// The default-strategy alignment of a tagged union. With a single variant
/// the discriminant is elided and the payload alone decides; otherwise the
/// discriminant participates.
pub open spec fn default_union_align(disc: FieldDescriptor, variants: Seq<FieldDescriptor>) -> int {
    if variants.len() == 1 {
        variants[0].alignment as int
    } else {
        union_align(disc, variants)
    }
}

/// The default-strategy size of a tagged union: the largest payload rounded
/// up to the overall alignment, plus the discriminant, rounded again — or,
/// with a single variant, just that payload with no tag cost at all.
pub open spec fn default_union_size(disc: FieldDescriptor, variants: Seq<FieldDescriptor>) -> int {
    if variants.len() == 1 {
        align_up(variants[0].size as int, variants[0].alignment as int)
    } else {
        let ra = union_align(disc, variants);
        align_up(align_up(max_size(variants), ra) + disc.size as int, ra)
    }
}

pub proof fn lemma_fields_ok_drop_last(fields: Seq<FieldDescriptor>)
    requires
        fields.len() > 0,
        fields_ok(fields),
    ensures
        fields_ok(fields.drop_last()),
{
    assert forall|i: int|
        0 <= i < fields.drop_last().len() implies field_ok(#[trigger] fields.drop_last()[i]) by {
        assert(fields.drop_last()[i] == fields[i]);
    }
}

pub proof fn lemma_fields_ok_take(fields: Seq<FieldDescriptor>, n: int)
    requires
        fields_ok(fields),
        0 <= n <= fields.len(),
    ensures
        fields_ok(fields.take(n)),
{
    assert forall|i: int|
        0 <= i < fields.take(n).len() implies field_ok(#[trigger] fields.take(n)[i]) by {
        assert(fields.take(n)[i] == fields[i]);
    }
}

/// Law (alignment is the maximum field alignment): `max_align` is at least
/// 1, bounds every field's alignment, and is attained by some field whenever
/// there is one.
pub proof fn lemma_max_align_is_max(fields: Seq<FieldDescriptor>)
    requires
        fields_ok(fields),
    ensures
        1 <= max_align(fields),
        forall|i: int|
            0 <= i < fields.len() ==> (#[trigger] fields[i]).alignment as int <= max_align(fields),
        fields.len() > 0 ==> exists|i: int|
            0 <= i < fields.len() && max_align(fields) == (#[trigger] fields[i]).alignment as int,
    decreases fields.len(),
{
    if fields.len() > 0 {
        let rest = fields.drop_last();
        lemma_fields_ok_drop_last(fields);
        lemma_max_align_is_max(rest);
        assert(field_ok(fields[fields.len() - 1]));
        assert(fields.last() == fields[fields.len() - 1]);
        assert(fields.last().alignment as int >= 1);
        assert forall|i: int|
            0 <= i < fields.len() implies (#[trigger] fields[i]).alignment as int <= max_align(
            fields,
        ) by {
            if i < fields.len() - 1 {
                assert(rest[i] == fields[i]);
                assert(rest[i].alignment as int <= max_align(rest));
            }
        }
        if max_align(fields) == fields.last().alignment as int {
            assert(max_align(fields) == fields[fields.len() - 1].alignment as int);
        } else {
            let j = choose|j: int|
                0 <= j < rest.len() && max_align(rest) == (#[trigger] rest[j]).alignment as int;
            assert(fields[j] == rest[j]);
        }
    }
}

/// The largest alignment of well-formed fields is itself a power of two.
pub proof fn lemma_max_align_pow2(fields: Seq<FieldDescriptor>)
    requires
        fields_ok(fields),
    ensures
        is_pow2(max_align(fields)),
    decreases fields.len(),
{
    if fields.len() == 0 {
        assert(is_pow2(1));
    } else {
        lemma_fields_ok_drop_last(fields);
        lemma_max_align_pow2(fields.drop_last());
        assert(field_ok(fields[fields.len() - 1]));
        assert(fields.last() == fields[fields.len() - 1]);
    }
}

/// `max_size` bounds every field's size and is never negative.
pub proof fn lemma_max_size_is_max(fields: Seq<FieldDescriptor>)
    ensures
        0 <= max_size(fields),
        forall|i: int|
            0 <= i < fields.len() ==> (#[trigger] fields[i]).size as int <= max_size(fields),
    decreases fields.len(),
{
    if fields.len() > 0 {
        let rest = fields.drop_last();
        lemma_max_size_is_max(rest);
        assert forall|i: int|
            0 <= i < fields.len() implies (#[trigger] fields[i]).size as int <= max_size(
            fields,
        ) by {
            if i < fields.len() - 1 {
                assert(rest[i] == fields[i]);
                assert(rest[i].size as int <= max_size(rest));
            }
        }
    }
}

/// Laying out one more field advances the running offset by that field's
/// padding and size.
pub proof fn lemma_end_offset_step(fields: Seq<FieldDescriptor>, i: int)
    requires
        0 <= i < fields.len(),
    ensures
        end_offset(fields.take(i + 1)) == align_up(
            end_offset(fields.take(i)),
            fields[i].alignment as int,
        ) + fields[i].size as int,
{
    assert(fields.take(i + 1).drop_last() =~= fields.take(i));
    assert(fields.take(i + 1).last() == fields[i]);
}

/// The running offset never goes negative.
pub proof fn lemma_end_offset_nonneg(fields: Seq<FieldDescriptor>)
    requires
        fields_ok(fields),
    ensures
        0 <= end_offset(fields),
    decreases fields.len(),
{
    if fields.len() > 0 {
        lemma_fields_ok_drop_last(fields);
        lemma_end_offset_nonneg(fields.drop_last());
        assert(field_ok(fields[fields.len() - 1]));
        assert(fields.last() == fields[fields.len() - 1]);
        lemma_align_up(end_offset(fields.drop_last()), fields.last().alignment as int);
    }
}

/// The running offset only grows as more fields are laid out.
pub proof fn lemma_end_offset_prefix_le(fields: Seq<FieldDescriptor>, i: int)
    requires
        fields_ok(fields),
        0 <= i <= fields.len(),
    ensures
        end_offset(fields.take(i)) <= end_offset(fields),
    decreases fields.len() - i,
{
    if i == fields.len() {
        assert(fields.take(i) =~= fields);
    } else {
        lemma_end_offset_step(fields, i);
        lemma_fields_ok_take(fields, i);
        lemma_end_offset_nonneg(fields.take(i));
        assert(field_ok(fields[i]));
        lemma_align_up(end_offset(fields.take(i)), fields[i].alignment as int);
        lemma_end_offset_prefix_le(fields, i + 1);
    }
}

pub proof fn lemma_fields_ok_drop_first(fields: Seq<FieldDescriptor>)
    requires
        fields.len() > 0,
        fields_ok(fields),
    ensures
        fields_ok(fields.drop_first()),
{
    assert forall|i: int|
        0 <= i < fields.drop_first().len() implies field_ok(#[trigger] fields.drop_first()[i]) by {
        assert(fields.drop_first()[i] == fields[i + 1]);
    }
}

/// Inserting a well-formed field into well-formed fields keeps every field
/// well-formed and adds exactly one element.
pub proof fn lemma_insert_by_align_ok(f: FieldDescriptor, s: Seq<FieldDescriptor>)
    requires
        field_ok(f),
        fields_ok(s),
    ensures
        fields_ok(insert_by_align(f, s)),
        insert_by_align(f, s).len() == s.len() + 1,
    decreases s.len(),
{
    if s.len() == 0 {
        let r = insert_by_align(f, s);
        assert forall|i: int| 0 <= i < r.len() implies field_ok(#[trigger] r[i]) by {
            assert(r[i] == f);
        }
    } else if f.alignment > s.first().alignment {
        let r = insert_by_align(f, s);
        assert forall|i: int| 0 <= i < r.len() implies field_ok(#[trigger] r[i]) by {
            if i == 0 {
                assert(r[0] == f);
            } else {
                assert(r[i] == s[i - 1]);
                assert(field_ok(s[i - 1]));
            }
        }
    } else {
        lemma_fields_ok_drop_first(s);
        lemma_insert_by_align_ok(f, s.drop_first());
        let t = insert_by_align(f, s.drop_first());
        let r = insert_by_align(f, s);
        assert(r == seq![s.first()] + t);
        assert forall|i: int| 0 <= i < r.len() implies field_ok(#[trigger] r[i]) by {
            if i == 0 {
                assert(r[0] == s.first());
                assert(s.first() == s[0]);
            } else {
                assert(r[i] == t[i - 1]);
                assert(field_ok(t[i - 1]));
            }
        }
    }
}

/// Where `insert_by_align` places the new field: immediately before index
/// `j`, the first position whose alignment is strictly smaller than `f`'s.
pub proof fn lemma_insert_by_align_at(f: FieldDescriptor, s: Seq<FieldDescriptor>, j: int)
    requires
        0 <= j <= s.len(),
        forall|k: int| 0 <= k < j ==> !(f.alignment > (#[trigger] s[k]).alignment),
        j < s.len() ==> f.alignment > s[j].alignment,
    ensures
        insert_by_align(f, s) == s.take(j) + seq![f] + s.skip(j),
    decreases s.len(),
{
    if s.len() == 0 {
        assert(insert_by_align(f, s) =~= s.take(0) + seq![f] + s.skip(0));
    } else if f.alignment > s.first().alignment {
        assert(j == 0);
        assert(insert_by_align(f, s) =~= s.take(0) + seq![f] + s.skip(0));
    } else {
        assert(j >= 1);
        let d = s.drop_first();
        assert forall|k: int| 0 <= k < j - 1 implies !(f.alignment > (#[trigger] d[k]).alignment) by {
            assert(d[k] == s[k + 1]);
        }
        if j - 1 < d.len() {
            assert(d[j - 1] == s[j]);
        }
        lemma_insert_by_align_at(f, d, j - 1);
        assert(insert_by_align(f, s) =~= s.take(j) + seq![f] + s.skip(j));
    }
}

/// Sorting well-formed fields keeps them well-formed and keeps the count.
pub proof fn lemma_sort_by_align_ok(s: Seq<FieldDescriptor>)
    requires
        fields_ok(s),
    ensures
        fields_ok(sort_by_align(s)),
        sort_by_align(s).len() == s.len(),
    decreases s.len(),
{
    if s.len() > 0 {
        lemma_fields_ok_drop_last(s);
        lemma_sort_by_align_ok(s.drop_last());
        assert(field_ok(s[s.len() - 1]));
        assert(s.last() == s[s.len() - 1]);
        lemma_insert_by_align_ok(s.last(), sort_by_align(s.drop_last()));
    }
}

fn max_alignment(fields: &Vec<FieldDescriptor>) -> (r: usize)
    ensures
        r as int == max_align(fields@),
{
    let mut m: usize = 1;
    let mut i: usize = 0;
    proof {
        assert(fields@.take(0) =~= Seq::<FieldDescriptor>::empty());
    }
    while i < fields.len()
        invariant
            i <= fields.len(),
            m as int == max_align(fields@.take(i as int)),
        decreases fields.len() - i,
    {
        proof {
            assert(fields@.take(i as int + 1).drop_last() =~= fields@.take(i as int));
            assert(fields@.take(i as int + 1).last() == fields@[i as int]);
        }
        if fields[i].alignment > m {
            m = fields[i].alignment;
        }
        i = i + 1;
    }
    proof {
        assert(fields@.take(fields@.len() as int) =~= fields@);
    }
    m
}

fn max_field_size(fields: &Vec<FieldDescriptor>) -> (r: usize)
    ensures
        r as int == max_size(fields@),
{
    let mut m: usize = 0;
    let mut i: usize = 0;
    proof {
        assert(fields@.take(0) =~= Seq::<FieldDescriptor>::empty());
    }
    while i < fields.len()
        invariant
            i <= fields.len(),
            m as int == max_size(fields@.take(i as int)),
        decreases fields.len() - i,
    {
        proof {
            assert(fields@.take(i as int + 1).drop_last() =~= fields@.take(i as int));
            assert(fields@.take(i as int + 1).last() == fields@[i as int]);
        }
        if fields[i].size > m {
            m = fields[i].size;
        }
        i = i + 1;
    }
    proof {
        assert(fields@.take(fields@.len() as int) =~= fields@);
    }
    m
}

/// Lays the fields out sequentially from offset 0, returning the offset of
/// each field in order and the final running offset.
fn place_fields(fields: &Vec<FieldDescriptor>) -> (r: (Vec<usize>, usize))
    requires
        fields_ok(fields@),
        end_offset(fields@) <= usize::MAX,
    ensures
        r.1 as int == end_offset(fields@),
        r.0@.len() == fields@.len(),
        forall|j: int| 0 <= j < fields@.len() ==> (#[trigger] r.0@[j]) as int == field_offset(
            fields@,
            j,
        ),
{
    let mut offsets: Vec<usize> = Vec::new();
    let mut offset: usize = 0;
    let mut i: usize = 0;
    proof {
        assert(fields@.take(0) =~= Seq::<FieldDescriptor>::empty());
    }
    while i < fields.len()
        invariant
            i <= fields.len(),
            fields_ok(fields@),
            end_offset(fields@) <= usize::MAX,
            offset as int == end_offset(fields@.take(i as int)),
            offsets@.len() == i,
            forall|j: int| 0 <= j < i ==> (#[trigger] offsets@[j]) as int == field_offset(
                fields@,
                j,
            ),
        decreases fields.len() - i,
    {
        let f = fields[i];
        proof {
            assert(field_ok(fields@[i as int]));
            lemma_end_offset_step(fields@, i as int);
            lemma_end_offset_prefix_le(fields@, i as int + 1);
            lemma_fields_ok_take(fields@, i as int);
            lemma_end_offset_nonneg(fields@.take(i as int));
            lemma_align_up(end_offset(fields@.take(i as int)), fields@[i as int].alignment as int);
        }
        let aligned = align_offset_up(offset, f.alignment);
        offsets.push(aligned);
        offset = aligned + f.size;
        i = i + 1;
    }
    proof {
        assert(fields@.take(fields@.len() as int) =~= fields@);
    }
    (offsets, offset)
}

/// Sorts the fields by descending alignment, stably: the reference packing
/// order of the default strategy.
fn sort_fields(fields: &Vec<FieldDescriptor>) -> (r: Vec<FieldDescriptor>)
    ensures
        r@ == sort_by_align(fields@),
{
    let mut out: Vec<FieldDescriptor> = Vec::new();
    let mut i: usize = 0;
    proof {
        assert(fields@.take(0) =~= Seq::<FieldDescriptor>::empty());
    }
    while i < fields.len()
        invariant
            i <= fields.len(),
            out@ == sort_by_align(fields@.take(i as int)),
        decreases fields.len() - i,
    {
        let f = fields[i];
        let mut j: usize = 0;
        while j < out.len() && !(f.alignment > out[j].alignment)
            invariant
                j <= out.len(),
                forall|k: int| 0 <= k < j ==> !(f.alignment > (#[trigger] out@[k]).alignment),
            decreases out.len() - j,
        {
            j = j + 1;
        }
        let ghost prev = out@;
        out.insert(j, f);
        proof {
            lemma_insert_by_align_at(f, prev, j as int);
            assert(out@ =~= prev.take(j as int) + seq![f] + prev.skip(j as int));
            assert(fields@.take(i as int + 1).drop_last() =~= fields@.take(i as int));
            assert(fields@.take(i as int + 1).last() == fields@[i as int]);
        }
        i = i + 1;
    }
    proof {
        assert(fields@.take(fields@.len() as int) =~= fields@);
    }
    out
}

/// What `compute_sequential_layout` returns on a valid descriptor: the
/// model's size, alignment and offsets, exactly.
pub open spec fn sequential_layout_matches(d: TypeDescriptor, lr: LayoutResult) -> bool {
    match d {
        TypeDescriptor::Struct { fields } => {
            &&& lr.size as int == struct_size(fields@)
            &&& lr.alignment as int == max_align(fields@)
            &&& lr.offsets@.len() == fields@.len()
            &&& forall|i: int|
                0 <= i < fields@.len() ==> (#[trigger] lr.offsets@[i]) as int == field_offset(
                    fields@,
                    i,
                )
        },
        TypeDescriptor::TaggedUnion { discriminant, variants } => {
            &&& lr.size as int == sequential_union_size(discriminant, variants@)
            &&& lr.alignment as int == union_align(discriminant, variants@)
            &&& lr.offsets@.len() == 2
            &&& lr.offsets@[0] == 0usize
            &&& lr.offsets@[1] as int == payload_offset(discriminant, variants@)
        },
    }
}

/// What `compute_default_layout` returns on a valid descriptor. No field
/// offsets are exposed: the strategy may place fields anywhere.
pub open spec fn default_layout_matches(d: TypeDescriptor, lr: LayoutResult) -> bool {
    match d {
        TypeDescriptor::Struct { fields } => {
            &&& lr.size as int == default_struct_size(fields@)
            &&& lr.alignment as int == max_align(fields@)
            &&& lr.offsets@.len() == 0
        },
        TypeDescriptor::TaggedUnion { discriminant, variants } => {
            &&& lr.size as int == default_union_size(discriminant, variants@)
            &&& lr.alignment as int == default_union_align(discriminant, variants@)
            &&& lr.offsets@.len() == 0
        },
    }
}

/// The sequential layout of `d` fits in a machine word.
pub open spec fn sequential_size_fits(d: TypeDescriptor) -> bool {
    match d {
        TypeDescriptor::Struct { fields } => struct_size(fields@) <= usize::MAX,
        TypeDescriptor::TaggedUnion { discriminant, variants } => sequential_union_size(
            discriminant,
            variants@,
        ) <= usize::MAX,
    }
}

/// The default layout of `d` fits in a machine word.
pub open spec fn default_size_fits(d: TypeDescriptor) -> bool {
    match d {
        TypeDescriptor::Struct { fields } => default_struct_size(fields@) <= usize::MAX,
        TypeDescriptor::TaggedUnion { discriminant, variants } => default_union_size(
            discriminant,
            variants@,
        ) <= usize::MAX,
    }
}

/// Lays `d` out under the deterministic, C-compatible strategy: struct
/// fields in declaration order with padding before each field and trailing
/// padding at the end; a tagged union as its discriminant at offset 0
/// followed by a payload region sized for the largest variant. Rejects
/// malformed descriptors with the exact error `descriptor_error` names, and
/// succeeds on every valid one. The result's size is always a multiple of
/// its alignment, and the alignment is a power of two.
pub fn compute_sequential_layout(d: &TypeDescriptor) -> (r: Result<LayoutResult, InvalidDescriptor>)
    requires
        descriptor_ok(*d) ==> sequential_size_fits(*d),
    ensures
        match r {
            Ok(lr) => {
                &&& descriptor_ok(*d)
                &&& sequential_layout_matches(*d, lr)
                &&& lr.size as int % lr.alignment as int == 0
                &&& is_pow2(lr.alignment as int)
            },
            Err(e) => descriptor_error(*d) == Some(e),
        },
{
    let checked = check_descriptor(d);
    if let Some(e) = checked {
        return Err(e);
    }
    match d {
        TypeDescriptor::Struct { fields } => {
            proof {
                lemma_fields_error_none(fields@);
                lemma_max_align_is_max(fields@);
                lemma_max_align_pow2(fields@);
                lemma_end_offset_nonneg(fields@);
                lemma_align_up(end_offset(fields@), max_align(fields@));
            }
            let ralign = max_alignment(fields);
            let placed = place_fields(fields);
            let size = align_offset_up(placed.1, ralign);
            Ok(LayoutResult { size, alignment: ralign, offsets: placed.0 })
        },
        TypeDescriptor::TaggedUnion { discriminant, variants } => {
            proof {
                lemma_fields_error_none(variants@);
                lemma_max_align_is_max(variants@);
                lemma_max_align_pow2(variants@);
                lemma_max_size_is_max(variants@);
                lemma_align_up(discriminant.size as int, max_align(variants@));
                lemma_align_up(
                    payload_offset(*discriminant, variants@) + max_size(variants@),
                    union_align(*discriminant, variants@),
                );
            }
            let pa = max_alignment(variants);
            let po = align_offset_up(discriminant.size, pa);
            let ps = max_field_size(variants);
            let ra = if discriminant.alignment > pa {
                discriminant.alignment
            } else {
                pa
            };
            let size = align_offset_up(po + ps, ra);
            Ok(LayoutResult { size, alignment: ra, offsets: vec![0usize, po] })
        },
    }
}

/// Lays `d` out under the compiler-chosen strategy, free to reorder fields:
/// the size and alignment come from the reference packing (fields sorted by
/// descending alignment, laid out sequentially), and a tagged union with a
/// single variant stores no discriminant at all. Rejects malformed
/// descriptors with the exact error `descriptor_error` names, and succeeds
/// on every valid one. The result's size is always a multiple of its
/// alignment, and the alignment is a power of two.
pub fn compute_default_layout(d: &TypeDescriptor) -> (r: Result<LayoutResult, InvalidDescriptor>)
    requires
        descriptor_ok(*d) ==> default_size_fits(*d),
    ensures
        match r {
            Ok(lr) => {
                &&& descriptor_ok(*d)
                &&& default_layout_matches(*d, lr)
                &&& lr.size as int % lr.alignment as int == 0
                &&& is_pow2(lr.alignment as int)
            },
            Err(e) => descriptor_error(*d) == Some(e),
        },
{
    let checked = check_descriptor(d);
    if let Some(e) = checked {
        return Err(e);
    }
    match d {
        TypeDescriptor::Struct { fields } => {
            proof {
                lemma_fields_error_none(fields@);
                lemma_sort_by_align_ok(fields@);
                lemma_max_align_is_max(fields@);
                lemma_max_align_pow2(fields@);
                lemma_end_offset_nonneg(sort_by_align(fields@));
                lemma_align_up(end_offset(sort_by_align(fields@)), max_align(fields@));
            }
            let sorted = sort_fields(fields);
            let ralign = max_alignment(fields);
            let placed = place_fields(&sorted);
            let size = align_offset_up(placed.1, ralign);
            Ok(LayoutResult { size, alignment: ralign, offsets: Vec::new() })
        },
        TypeDescriptor::TaggedUnion { discriminant, variants } => {
            if variants.len() == 1 {
                let v = variants[0];
                proof {
                    lemma_fields_error_none(variants@);
                    assert(field_ok(variants@[0]));
                    lemma_align_up(v.size as int, v.alignment as int);
                }
                let size = align_offset_up(v.size, v.alignment);
                Ok(LayoutResult { size, alignment: v.alignment, offsets: Vec::new() })
            } else {
                proof {
                    lemma_fields_error_none(variants@);
                    lemma_max_align_is_max(variants@);
                    lemma_max_align_pow2(variants@);
                    lemma_max_size_is_max(variants@);
                    lemma_align_up(max_size(variants@), union_align(*discriminant, variants@));
                    lemma_align_up(
                        align_up(max_size(variants@), union_align(*discriminant, variants@))
                            + discriminant.size as int,
                        union_align(*discriminant, variants@),
                    );
                }
                let pa = max_alignment(variants);
                let ps = max_field_size(variants);
                let ra = if discriminant.alignment > pa {
                    discriminant.alignment
                } else {
                    pa
                };
                let rounded = align_offset_up(ps, ra);
                let size = align_offset_up(rounded + discriminant.size, ra);
                Ok(LayoutResult { size, alignment: ra, offsets: Vec::new() })
            }
        },
    }
}

/// Sequential layout is sound: every field sits at an offset that is a
/// multiple of its own alignment, starts no earlier than where its
/// predecessor ended (fields do not overlap), and ends inside the struct's
/// computed size.
pub proof fn lemma_sequential_offsets_sound(fields: Seq<FieldDescriptor>, i: int)
    requires
        fields_ok(fields),
        0 <= i < fields.len(),
    ensures
        field_offset(fields, i) % (fields[i].alignment as int) == 0,
        end_offset(fields.take(i)) <= field_offset(fields, i),
        field_offset(fields, i) + fields[i].size as int == end_offset(fields.take(i + 1)),
        end_offset(fields.take(i + 1)) <= end_offset(fields),
        end_offset(fields) <= struct_size(fields),
{
    lemma_fields_ok_take(fields, i);
    lemma_end_offset_nonneg(fields.take(i));
    assert(field_ok(fields[i]));
    lemma_align_up(end_offset(fields.take(i)), fields[i].alignment as int);
    lemma_end_offset_step(fields, i);
    lemma_end_offset_prefix_le(fields, i + 1);
    lemma_end_offset_nonneg(fields);
    lemma_max_align_is_max(fields);
    lemma_align_up(end_offset(fields), max_align(fields));
}

/// Law (size multiple of alignment): for every valid descriptor and under
/// both strategies, the computed size is a multiple of the computed
/// alignment.
pub proof fn lemma_size_multiple_of_alignment(d: TypeDescriptor)
    requires
        descriptor_ok(d),
    ensures
        match d {
            TypeDescriptor::Struct { fields } => {
                &&& struct_size(fields@) % max_align(fields@) == 0
                &&& default_struct_size(fields@) % max_align(fields@) == 0
            },
            TypeDescriptor::TaggedUnion { discriminant, variants } => {
                &&& sequential_union_size(discriminant, variants@) % union_align(
                    discriminant,
                    variants@,
                ) == 0
                &&& default_union_size(discriminant, variants@) % default_union_align(
                    discriminant,
                    variants@,
                ) == 0
            },
        },
{
    match d {
        TypeDescriptor::Struct { fields } => {
            lemma_fields_error_none(fields@);
            lemma_max_align_is_max(fields@);
            lemma_end_offset_nonneg(fields@);
            lemma_align_up(end_offset(fields@), max_align(fields@));
            lemma_sort_by_align_ok(fields@);
            lemma_end_offset_nonneg(sort_by_align(fields@));
            lemma_align_up(end_offset(sort_by_align(fields@)), max_align(fields@));
        },
        TypeDescriptor::TaggedUnion { discriminant, variants } => {
            lemma_fields_error_none(variants@);
            lemma_max_align_is_max(variants@);
            lemma_max_size_is_max(variants@);
            lemma_align_up(discriminant.size as int, max_align(variants@));
            lemma_align_up(
                payload_offset(discriminant, variants@) + max_size(variants@),
                union_align(discriminant, variants@),
            );
            if variants@.len() == 1 {
                assert(field_ok(variants@[0]));
                lemma_align_up(variants@[0].size as int, variants@[0].alignment as int);
            } else {
                lemma_align_up(max_size(variants@), union_align(discriminant, variants@));
                lemma_align_up(
                    align_up(max_size(variants@), union_align(discriminant, variants@))
                        + discriminant.size as int,
                    union_align(discriminant, variants@),
                );
            }
        },
    }
}

/// The sum of the field sizes: what the fields occupy before any padding.
pub open spec fn sum_size(fields: Seq<FieldDescriptor>) -> int
    decreases fields.len(),
{
    if fields.len() == 0 {
        0
    } else {
        sum_size(fields.drop_last()) + fields.last().size as int
    }
}

pub proof fn lemma_sum_size_concat(a: Seq<FieldDescriptor>, b: Seq<FieldDescriptor>)
    ensures
        sum_size(a + b) == sum_size(a) + sum_size(b),
    decreases b.len(),
{
    if b.len() == 0 {
        assert(a + b =~= a);
    } else {
        lemma_sum_size_concat(a, b.drop_last());
        assert((a + b).drop_last() =~= a + b.drop_last());
        assert((a + b).last() == b.last());
    }
}

pub proof fn lemma_sum_size_insert(f: FieldDescriptor, s: Seq<FieldDescriptor>)
    ensures
        sum_size(insert_by_align(f, s)) == f.size as int + sum_size(s),
    decreases s.len(),
{
    if s.len() == 0 {
        assert(seq![f].drop_last() =~= Seq::<FieldDescriptor>::empty());
        assert(seq![f].last() == f);
        assert(sum_size(Seq::<FieldDescriptor>::empty()) == 0);
        assert(sum_size(seq![f]) == f.size as int);
        assert(insert_by_align(f, s) == seq![f]);
    } else if f.alignment > s.first().alignment {
        lemma_sum_size_concat(seq![f], s);
        assert(seq![f].drop_last() =~= Seq::<FieldDescriptor>::empty());
        assert(seq![f].last() == f);
        assert(sum_size(Seq::<FieldDescriptor>::empty()) == 0);
        assert(sum_size(seq![f]) == f.size as int);
        assert(insert_by_align(f, s) == seq![f] + s);
    } else {
        lemma_sum_size_insert(f, s.drop_first());
        lemma_sum_size_concat(seq![s.first()], insert_by_align(f, s.drop_first()));
        lemma_sum_size_concat(seq![s.first()], s.drop_first());
        assert(seq![s.first()] + s.drop_first() =~= s);
        assert(seq![s.first()].drop_last() =~= Seq::<FieldDescriptor>::empty());
        assert(seq![s.first()].last() == s.first());
        assert(sum_size(Seq::<FieldDescriptor>::empty()) == 0);
        assert(sum_size(seq![s.first()]) == s.first().size as int);
        assert(insert_by_align(f, s) == seq![s.first()] + insert_by_align(f, s.drop_first()));
    }
}

/// Sorting the fields does not change the sum of their sizes.
pub proof fn lemma_sum_size_sort(s: Seq<FieldDescriptor>)
    ensures
        sum_size(sort_by_align(s)) == sum_size(s),
    decreases s.len(),
{
    if s.len() > 0 {
        lemma_sum_size_sort(s.drop_last());
        lemma_sum_size_insert(s.last(), sort_by_align(s.drop_last()));
    }
}

/// Padding only adds: the running offset is at least the sum of the sizes
/// of the fields laid out so far.
pub proof fn lemma_end_offset_ge_sum(fields: Seq<FieldDescriptor>)
    requires
        fields_ok(fields),
    ensures
        sum_size(fields) <= end_offset(fields),
    decreases fields.len(),
{
    if fields.len() > 0 {
        lemma_fields_ok_drop_last(fields);
        lemma_end_offset_ge_sum(fields.drop_last());
        assert(field_ok(fields[fields.len() - 1]));
        assert(fields.last() == fields[fields.len() - 1]);
        lemma_end_offset_nonneg(fields.drop_last());
        lemma_align_up(end_offset(fields.drop_last()), fields.last().alignment as int);
    }
}

/// Law: a struct's computed size holds all its fields — it is at least the
/// sum of the field sizes, under both strategies.
pub proof fn lemma_struct_size_covers_fields(fields: Seq<FieldDescriptor>)
    requires
        fields_ok(fields),
    ensures
        sum_size(fields) <= struct_size(fields),
        sum_size(fields) <= default_struct_size(fields),
{
    lemma_max_align_is_max(fields);
    lemma_end_offset_ge_sum(fields);
    lemma_end_offset_nonneg(fields);
    lemma_align_up(end_offset(fields), max_align(fields));
    lemma_sort_by_align_ok(fields);
    lemma_sum_size_sort(fields);
    lemma_end_offset_ge_sum(sort_by_align(fields));
    lemma_end_offset_nonneg(sort_by_align(fields));
    lemma_align_up(end_offset(sort_by_align(fields)), max_align(fields));
}

/// Law (zero-sized struct): a struct with no fields has size 0 and
/// alignment 1 under both strategies.
pub proof fn lemma_zero_sized_struct()
    ensures
        struct_size(Seq::<FieldDescriptor>::empty()) == 0,
        default_struct_size(Seq::<FieldDescriptor>::empty()) == 0,
        max_align(Seq::<FieldDescriptor>::empty()) == 1,
{
    assert(sort_by_align(Seq::<FieldDescriptor>::empty()) =~= Seq::<FieldDescriptor>::empty());
}

/// Law (single-variant elision, default strategy only): a tagged union with
/// exactly one variant of payload size `P` and alignment `A` costs nothing
/// over its payload — size `roundUp(P, A)`, alignment `A`, whatever the
/// discriminant would have been.
pub proof fn lemma_single_variant_elision(disc: FieldDescriptor, v: FieldDescriptor)
    ensures
        default_union_size(disc, seq![v]) == align_up(v.size as int, v.alignment as int),
        default_union_align(disc, seq![v]) == v.alignment as int,
{
}

/// Law (sequential determinism): the sequential contract pins every part of
/// the result, so two results for the same descriptor agree byte for byte,
/// offsets included.
pub proof fn lemma_sequential_deterministic(d: TypeDescriptor, r1: LayoutResult, r2: LayoutResult)
    requires
        sequential_layout_matches(d, r1),
        sequential_layout_matches(d, r2),
    ensures
        r1.size == r2.size,
        r1.alignment == r2.alignment,
        r1.offsets@ == r2.offsets@,
{
    match d {
        TypeDescriptor::Struct { fields } => {
            assert forall|i: int|
                0 <= i < r1.offsets@.len() implies r1.offsets@[i] == r2.offsets@[i] by {
                assert(r1.offsets@[i] as int == field_offset(fields@, i));
                assert(r2.offsets@[i] as int == field_offset(fields@, i));
            }
            assert(r1.offsets@ =~= r2.offsets@);
        },
        TypeDescriptor::TaggedUnion { discriminant, variants } => {
            assert(r1.offsets@ =~= r2.offsets@);
        },
    }
}

} // verus!
