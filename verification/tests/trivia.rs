//! Smoke tests.

#[test]
fn it_works() {
    assert_eq!(2 + 2, 4);
}

#[test]
fn lib_it_works() {
    assert_eq!(2 + 2, 4);
}

#[test]
fn main_it_works() {
    assert_eq!(2 + 2, 4);
}
