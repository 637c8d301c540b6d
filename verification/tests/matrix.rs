use rust_3d::matrix::transpose_elements;

#[test]
fn transpose_moves_elements() {
    let e: [u32; 16] = [0, 1, 2, 3, 4, 5, 6, 7, 8, 9, 10, 11, 12, 13, 14, 15];
    assert_eq!(transpose_elements(&e), [0, 4, 8, 12, 4, 5, 9, 13, 2, 6, 10, 14, 3, 7, 11, 15]);
}

#[test]
fn transpose_twice_of_symmetric_corner() {
    let e: [u32; 16] = [0, 9, 2, 3, 9, 5, 6, 7, 8, 1, 10, 11, 12, 13, 14, 15];
    assert_eq!(transpose_elements(&transpose_elements(&e)), e);
}

#[test]
fn transpose_twice_loses_an_element() {
    let e: [u32; 16] = [0, 1, 2, 3, 4, 5, 6, 7, 8, 9, 10, 11, 12, 13, 14, 15];
    let twice = transpose_elements(&transpose_elements(&e));
    assert_ne!(twice, e);
    assert_eq!(twice[1], 4);
}

#[test]
fn transpose_of_floats() {
    let e: [f32; 16] = [1.0, 0.0, 0.0, 0.0, 0.0, 1.0, 0.0, 0.0, 0.0, 0.0, 1.0, 0.0, 2.0, 3.0, 4.0, 1.0];
    let t = transpose_elements(&e);
    assert_eq!(t[3], 2.0);
    assert_eq!(t[7], 3.0);
    assert_eq!(t[11], 4.0);
}
