use type_layout::descriptor::FieldDescriptor;
use type_layout::descriptor::InvalidDescriptor;
use type_layout::descriptor::TypeDescriptor;
use type_layout::layout::compute_default_layout;
use type_layout::layout::compute_sequential_layout;
use type_layout::find_size1;
use type_layout::find_size2;

fn field(size: usize, alignment: usize) -> FieldDescriptor {
    FieldDescriptor { size, alignment }
}

#[test]
fn sequential_struct_pads_before_larger_field() {
    let d = TypeDescriptor::Struct { fields: vec![field(4, 4), field(8, 8)] };
    let r = compute_sequential_layout(&d).unwrap();
    assert_eq!(r.size, 16);
    assert_eq!(r.alignment, 8);
    assert_eq!(r.offsets, vec![0, 8]);
}

#[test]
fn sequential_struct_pads_at_the_tail() {
    let d = TypeDescriptor::Struct { fields: vec![field(8, 8), field(4, 4)] };
    let r = compute_sequential_layout(&d).unwrap();
    assert_eq!(r.size, 16);
    assert_eq!(r.alignment, 8);
    assert_eq!(r.offsets, vec![0, 8]);
}

#[test]
fn default_union_adds_tag_to_largest_payload() {
    let d = TypeDescriptor::TaggedUnion {
        discriminant: field(4, 4),
        variants: vec![field(4, 4), field(4, 4), field(4, 4), field(4, 4)],
    };
    let r = compute_default_layout(&d).unwrap();
    assert_eq!(r.size, 8);
    assert_eq!(r.alignment, 4);
    assert!(r.offsets.is_empty());
}

#[test]
fn default_union_elides_tag_for_single_variant() {
    let d = TypeDescriptor::TaggedUnion { discriminant: field(4, 4), variants: vec![field(4, 4)] };
    let r = compute_default_layout(&d).unwrap();
    assert_eq!(r.size, 4);
    assert_eq!(r.alignment, 4);
    assert!(r.offsets.is_empty());
}

#[test]
fn sequential_union_keeps_tag_for_single_variant() {
    let d = TypeDescriptor::TaggedUnion { discriminant: field(4, 4), variants: vec![field(4, 4)] };
    let r = compute_sequential_layout(&d).unwrap();
    assert_eq!(r.size, 8);
    assert_eq!(r.alignment, 4);
    assert_eq!(r.offsets, vec![0, 4]);
}

#[test]
fn empty_struct_is_zero_sized_under_both_strategies() {
    let d = TypeDescriptor::Struct { fields: vec![] };
    let seq = compute_sequential_layout(&d).unwrap();
    assert_eq!(seq.size, 0);
    assert_eq!(seq.alignment, 1);
    assert!(seq.offsets.is_empty());
    let def = compute_default_layout(&d).unwrap();
    assert_eq!(def.size, 0);
    assert_eq!(def.alignment, 1);
    assert!(def.offsets.is_empty());
}

#[test]
fn sequential_layout_is_reproducible() {
    let d = TypeDescriptor::Struct {
        fields: vec![field(1, 1), field(8, 8), field(2, 2), field(4, 4)],
    };
    let a = compute_sequential_layout(&d).unwrap();
    let b = compute_sequential_layout(&d).unwrap();
    assert_eq!(a.size, b.size);
    assert_eq!(a.alignment, b.alignment);
    assert_eq!(a.offsets, b.offsets);
}

#[test]
fn size_is_a_multiple_of_alignment() {
    let descriptors = vec![
        TypeDescriptor::Struct { fields: vec![field(1, 1), field(8, 8), field(2, 2)] },
        TypeDescriptor::Struct { fields: vec![field(3, 1), field(2, 2)] },
        TypeDescriptor::Struct { fields: vec![field(0, 4), field(1, 1)] },
        TypeDescriptor::TaggedUnion {
            discriminant: field(1, 1),
            variants: vec![field(8, 8), field(4, 4)],
        },
        TypeDescriptor::TaggedUnion { discriminant: field(2, 2), variants: vec![field(5, 1)] },
    ];
    for d in &descriptors {
        let seq = compute_sequential_layout(d).unwrap();
        assert_eq!(seq.size % seq.alignment, 0);
        let def = compute_default_layout(d).unwrap();
        assert_eq!(def.size % def.alignment, 0);
    }
}

#[test]
fn alignment_is_the_largest_field_alignment() {
    let d = TypeDescriptor::Struct { fields: vec![field(2, 2), field(4, 4), field(1, 1)] };
    let r = compute_sequential_layout(&d).unwrap();
    assert_eq!(r.alignment, 4);
    let def = compute_default_layout(&d).unwrap();
    assert_eq!(def.alignment, 4);
}

#[test]
fn default_struct_reorders_by_descending_alignment() {
    let d = TypeDescriptor::Struct { fields: vec![field(1, 1), field(8, 8), field(4, 4)] };
    let r = compute_default_layout(&d).unwrap();
    // reference packing [8,8][4,4][1,1]: end offset 13, rounded up to 16
    assert_eq!(r.size, 16);
    assert_eq!(r.alignment, 8);
    assert!(r.offsets.is_empty());
    // the same fields in declaration order need 24 bytes
    let seq = compute_sequential_layout(&d).unwrap();
    assert_eq!(seq.size, 24);
    assert_eq!(seq.offsets, vec![0, 8, 16]);
}

#[test]
fn sequential_union_places_payload_after_tag() {
    let d = TypeDescriptor::TaggedUnion {
        discriminant: field(1, 1),
        variants: vec![field(8, 8), field(4, 4)],
    };
    let r = compute_sequential_layout(&d).unwrap();
    assert_eq!(r.size, 16);
    assert_eq!(r.alignment, 8);
    assert_eq!(r.offsets, vec![0, 8]);
}

#[test]
fn zero_sized_fields_still_align_the_struct() {
    let d = TypeDescriptor::Struct { fields: vec![field(0, 4), field(1, 1)] };
    let r = compute_sequential_layout(&d).unwrap();
    assert_eq!(r.size, 4);
    assert_eq!(r.alignment, 4);
    assert_eq!(r.offsets, vec![0, 0]);
}

#[test]
fn zero_alignment_is_rejected() {
    let d = TypeDescriptor::Struct { fields: vec![field(4, 0)] };
    let e = compute_sequential_layout(&d).unwrap_err();
    assert_eq!(e, InvalidDescriptor::ZeroAlignment);
    assert_eq!(e.reason(), "alignment must not be zero");
    let e2 = compute_default_layout(&d).unwrap_err();
    assert_eq!(e2, InvalidDescriptor::ZeroAlignment);
}

#[test]
fn non_power_of_two_alignment_is_rejected() {
    let d = TypeDescriptor::Struct { fields: vec![field(4, 4), field(6, 3)] };
    let e = compute_sequential_layout(&d).unwrap_err();
    assert_eq!(e, InvalidDescriptor::AlignmentNotPowerOfTwo);
    assert_eq!(e.reason(), "alignment must be a power of two");
}

#[test]
fn union_without_variants_is_rejected() {
    let d = TypeDescriptor::TaggedUnion { discriminant: field(4, 4), variants: vec![] };
    let e = compute_sequential_layout(&d).unwrap_err();
    assert_eq!(e, InvalidDescriptor::NoVariants);
    assert_eq!(e.reason(), "a tagged union needs at least one variant");
    let e2 = compute_default_layout(&d).unwrap_err();
    assert_eq!(e2, InvalidDescriptor::NoVariants);
}

#[test]
fn first_malformed_field_decides_the_error() {
    let d = TypeDescriptor::Struct { fields: vec![field(4, 3), field(4, 0)] };
    let e = compute_sequential_layout(&d).unwrap_err();
    assert_eq!(e, InvalidDescriptor::AlignmentNotPowerOfTwo);
    let d2 = TypeDescriptor::TaggedUnion { discriminant: field(4, 0), variants: vec![] };
    let e2 = compute_sequential_layout(&d2).unwrap_err();
    assert_eq!(e2, InvalidDescriptor::ZeroAlignment);
}

#[test]
fn sizedness_probes_accept_their_types() {
    find_size1::<str>();
    find_size1::<[u8]>();
    find_size1::<u32>();
    find_size2::<u32>();
    find_size2::<String>();
}
