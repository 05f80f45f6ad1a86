use packed_array::PackedArray;

#[test]
fn fresh_container_assigns_indices_in_order() {
    let mut a = PackedArray::<u32, 5>::new();
    for i in 0..5 {
        assert!(!a.has(i));
    }
    assert_eq!(a.append(100), 0);
    assert_eq!(a.append(200), 1);
    assert_eq!(a.append(300), 2);
    assert_eq!(*a.get(0), 100);
    assert_eq!(*a.get(1), 200);
    assert_eq!(*a.get(2), 300);
}

#[test]
fn capacity_invariant() {
    let mut a = PackedArray::<u32, 10>::new();
    assert_eq!(a.len(), 0);
    assert!(!a.full());
    for k in 0..10 {
        assert!(!a.full());
        a.append(k);
        assert!(a.len() <= 10);
        assert_eq!(a.full(), a.len() == 10);
    }
    assert!(a.full());
    assert_eq!(a.len(), 10);
}

#[test]
fn packing_invariant() {
    let mut a = PackedArray::<i32, 8>::new();
    let i1 = a.append(5);
    let i2 = a.append(6);
    let i3 = a.append(7);
    let i4 = a.append(8);
    a.remove(i2);

    let s = a.as_slice();
    assert_eq!(s.len(), a.len());
    assert_eq!(s.len(), 3);
    let mut live: Vec<i32> = vec![*a.get(i1), *a.get(i3), *a.get(i4)];
    let mut packed: Vec<i32> = s.to_vec();
    live.sort();
    packed.sort();
    assert_eq!(live, packed);
}

#[test]
fn index_stability_under_unrelated_removal() {
    let mut a = PackedArray::<i32, 6>::new();
    let i1 = a.append(-1);
    let i2 = a.append(-2);
    let i3 = a.append(-3);
    // Removing the first live element moves the last one into its slot;
    // every surviving index must still resolve to its own value.
    a.remove(i1);
    assert!(!a.has(i1));
    assert!(a.has(i2));
    assert!(a.has(i3));
    assert_eq!(*a.get(i2), -2);
    assert_eq!(*a.get(i3), -3);
}

#[test]
fn index_recycling_append() {
    let mut a = PackedArray::<u8, 4>::new();
    let i1 = a.append(11);
    let i2 = a.append(22);
    a.remove(i1);
    let i3 = a.append(33);
    assert_eq!(i3, i1);
    assert_eq!(*a.get(i3), 33);
    assert_eq!(*a.get(i2), 22);
}

#[test]
fn index_recycling_set() {
    let mut a = PackedArray::<u8, 4>::new();
    let i1 = a.append(11);
    let i2 = a.append(22);
    a.remove(i1);
    assert!(!a.has(i1));
    a.set(i1, 44);
    assert!(a.has(i1));
    assert_eq!(*a.get(i1), 44);
    assert_eq!(*a.get(i2), 22);
}

#[test]
fn set_on_dead_index_materializes_it() {
    let mut a = PackedArray::<u16, 6>::new();
    a.append(1);
    assert!(!a.has(4));
    let before = a.len();
    a.set(4, 900);
    assert!(a.has(4));
    assert_eq!(a.len(), before + 1);
    assert_eq!(*a.get(4), 900);
}

#[test]
fn set_on_live_index_overwrites_only() {
    let mut a = PackedArray::<u16, 6>::new();
    let i1 = a.append(1);
    let i2 = a.append(2);
    let before = a.len();
    a.set(i1, 77);
    assert_eq!(a.len(), before);
    assert_eq!(*a.get(i1), 77);
    assert_eq!(*a.get(i2), 2);
}

#[test]
fn round_trip() {
    let mut a = PackedArray::<i64, 7>::new();
    let i = a.append(123456);
    assert!(a.has(i));
    assert_eq!(*a.get(i), 123456);
    // Operations not touching `i` leave it readable and unchanged.
    let j = a.append(-9);
    a.set(5, 42);
    a.remove(j);
    assert!(a.has(i));
    assert_eq!(*a.get(i), 123456);
}

#[test]
fn remove_last_element() {
    let mut a = PackedArray::<u32, 3>::new();
    let i1 = a.append(10);
    let i2 = a.append(20);
    // i2 occupies the last slot: removal needs no data movement.
    a.remove(i2);
    assert_eq!(a.len(), 1);
    assert!(!a.has(i2));
    assert_eq!(*a.get(i1), 10);
    // The freed index is recycled by the next append.
    assert_eq!(a.append(30), i2);
}

#[test]
fn empty_iteration() {
    let a = PackedArray::<u32, 4>::new();
    assert_eq!(a.iter().count(), 0);
    assert_eq!(a.as_slice().len(), 0);
}

#[test]
fn mutable_slice_updates_values_in_place() {
    let mut a = PackedArray::<i32, 5>::new();
    let i1 = a.append(1);
    let i2 = a.append(2);
    let i3 = a.append(3);
    a.remove(i2);
    for item in a.as_slice_mut() {
        *item *= 10;
    }
    assert_eq!(a.len(), 2);
    assert_eq!(*a.get(i1), 10);
    assert_eq!(*a.get(i3), 30);
}
