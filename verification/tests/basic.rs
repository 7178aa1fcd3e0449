use mnist::matrix;

#[test]
fn it_works() {
    assert_eq!(2 + 2, 4);
}

#[test]
fn rusty_trombone() {
    let a = matrix::Matrix::with_vec((10, 1), vec![2; 10]).unwrap();

    println!("{:?}", a);
}
