use ico_builder::IconSizes;

#[test]
fn default_sizes_are_the_minimal_set() {
    let sizes = IconSizes::default();
    assert_eq!(sizes.as_slice(), &[16, 24, 32, 48, 256]);
}

#[test]
fn new_keeps_the_sizes_in_order() {
    let sizes = IconSizes::new(&[48, 16, 32]);
    assert_eq!(sizes.as_slice(), &[48, 16, 32]);
}

#[test]
fn new_keeps_duplicates_and_sizes_that_no_frame_can_have() {
    let sizes = IconSizes::new(&[32, 32, 0, 1000]);
    assert_eq!(sizes.as_slice(), &[32, 32, 0, 1000]);
}

#[test]
fn sizes_from_a_vector() {
    let sizes = IconSizes::from(vec![16, 32]);
    assert_eq!(sizes.as_slice(), &[16, 32]);
    let none = IconSizes::from(Vec::new());
    assert!(none.as_slice().is_empty());
}

#[test]
fn sizes_read_as_a_slice() {
    let sizes = IconSizes::new(&[16, 24]);
    assert_eq!(sizes.len(), 2);
    assert_eq!(sizes[1], 24);
    assert_eq!(sizes.iter().copied().collect::<Vec<u32>>(), vec![16, 24]);
}

#[test]
fn the_minimal_sizes_can_be_asked_for() {
    assert_eq!(IconSizes::minimal().as_slice(), &[16, 24, 32, 48, 256]);
    assert_eq!(IconSizes::minimal().as_slice(), IconSizes::default().as_slice());
}

#[test]
fn sizes_are_a_reference_to_a_slice() {
    let sizes = IconSizes::new(&[24, 48]);
    let slice: &[u32] = sizes.as_ref();
    assert_eq!(slice, &[24, 48]);
}
