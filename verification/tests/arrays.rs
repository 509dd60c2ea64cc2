use photo::array::{Array2, Array3};

#[test]
fn array_from_shape_vec_keeps_elements_in_row_major_order() {
    let a = Array3::from_shape_vec((2, 3, 2), (0u8..12).collect()).unwrap();
    assert_eq!(a.dim(), (2, 3, 2));
    assert_eq!(a.get([0, 0, 0]), Some(0));
    assert_eq!(a.get([0, 0, 1]), Some(1));
    assert_eq!(a.get([0, 2, 1]), Some(5));
    assert_eq!(a.get([1, 0, 0]), Some(6));
    assert_eq!(a.get([1, 2, 1]), Some(11));
    assert_eq!(a.get([2, 0, 0]), None);
    assert_eq!(a.get([0, 3, 0]), None);
    assert_eq!(a.get([0, 0, 2]), None);
    assert_eq!(a.to_vec(), (0u8..12).collect::<Vec<u8>>());
}

#[test]
fn array_from_shape_vec_refuses_a_wrong_length() {
    assert!(Array3::from_shape_vec((2, 3, 2), vec![0u8; 11]).is_none());
    assert!(Array3::from_shape_vec((0, 3, 2), vec![]).is_none());
    assert!(Array3::from_shape_vec((usize::MAX, 2, 2), vec![0u8; 4]).is_none());
}

#[test]
fn array_clone_is_equal_and_independent() {
    let a = Array3::from_shape_vec((1, 2, 2), vec![1, 2, 3, 4]).unwrap();
    let b = a.clone();
    assert_eq!(a, b);
    assert_eq!(b.to_vec(), vec![1, 2, 3, 4]);
}

#[test]
fn layer_from_shape_vec_keeps_elements_row_by_row() {
    let a = Array2::from_shape_vec((2, 3), (0u8..6).collect()).unwrap();
    assert_eq!(a.dim(), (2, 3));
    assert_eq!(a.get([0, 2]), Some(2));
    assert_eq!(a.get([1, 0]), Some(3));
    assert_eq!(a.get([2, 0]), None);
    assert_eq!(a.get([0, 3]), None);
    assert_eq!(a.clone(), a);
    assert!(Array2::from_shape_vec((2, 3), vec![0u8; 5]).is_none());
    assert!(Array2::from_shape_vec((0, 3), vec![]).is_none());
}
