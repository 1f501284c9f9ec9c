use proving_server::{concat_arrays, hello, index};

#[test]
fn greets_by_name_and_age() {
    assert_eq!(hello("Ann".to_string(), 30), "Hello, 30 year old named Ann!");
    assert_eq!(hello(String::new(), 0), "Hello, 0 year old named !");
    assert_eq!(hello("Bo".to_string(), 255), "Hello, 255 year old named Bo!");
}

#[test]
fn index_text() {
    assert_eq!(index(), "Hello, world!!!");
}

#[test]
fn arrays_concatenate() {
    let a = [1u8; 32];
    let mut b = [0u8; 32];
    for (i, x) in b.iter_mut().enumerate() {
        *x = i as u8;
    }
    let r = concat_arrays(a, b);
    assert_eq!(&r[..32], &a[..]);
    assert_eq!(&r[32..], &b[..]);
}
