use ulc::arrays::{mut_slice_or_else, slc, slice_at_most, slice_or_else};
use ulc::buffer::er;

#[test]
fn test_slice_at_most() {
    let a: [u8; 4] = [0, 1, 2, 3];
    assert!(slice_at_most(&a, 0).len() == 0);
    assert!(slice_at_most(&a, 3).len() == 3);
    assert!(slice_at_most(&a, 4).len() == 4);
    assert!(slice_at_most(&a, 5).len() == 4);
}

#[test]
fn test_slice_or_else() {
    let a: [u8; 4] = [0, 1, 2, 3];
    let b: [u8; 2] = [0, 1];
    let v: Vec<u8> = vec![0, 0, 0, 0, 0];

    assert!(slice_or_else(&a, 0, 0).expect("Not yet").len() == 0);
    assert!(slice_or_else(&a, 0, 3).expect("not yet").len() == 3);
    assert!(slice_or_else(&a, 0, 4).expect("not yet").len() == 4);
    assert!(slice_or_else(&a, 0, 5).unwrap_or(&b[0..]).len() == 2);
    assert!(slice_or_else(&a, 1, 0).unwrap_or(&b[0..]).len() == 2);
    assert!(slice_or_else(&v, 0, 3).expect("not yet").len() == 3);
    assert!(slice_or_else(&v[0..], 0, 3).expect("not yet").len() == 3);
    assert!(slice_or_else(&a, 0, 2).expect("not yet").len() == 2);
    assert!(slice_or_else(&a[1..], 0, 2).expect("not yet").len() == 2);

    let mut a: [u8; 4] = [0, 1, 2, 3];
    {
        let b: &mut [u8] = mut_slice_or_else(&mut a, 1, 3).expect("should happen");
        b[0] = 0;
    }
    assert!(a[1] == 0);
}

#[test]
fn test_stacked_slice() {
    let a: [u8; 4] = [0, 1, 2, 3];
    assert!(slc(&a, 0, 0).unwrap().len() == 0);
    assert!(slc(&a, 0, 3).unwrap().len() == 3);
    assert!(slc(&a, 0, 4).unwrap().len() == 4);
    assert!(slc(&a, 0, 5).is_err());
}

#[test]
fn test_er() {
    assert!(er::<u64, u8>(1) == 8);
    assert!(er::<u64, u32>(1) == 2);
    assert!(er::<f32, u8>(1) == 4);
    assert!(er::<u8, u64>(1) == 1);
    assert!(er::<u8, u64>(2) == 1);
    assert!(er::<u8, u64>(9) == 2);
}

#[test]
fn slices_hold_the_right_elements() {
    let a: [u8; 4] = [5, 6, 7, 8];
    assert_eq!(slice_at_most(&a, 2), &[5, 6]);
    assert_eq!(slice_or_else(&a, 1, 3).unwrap(), &[6, 7]);
    assert_eq!(er::<u16, u8>(3), 6);
    assert_eq!(er::<u8, u32>(0), 0);
}
