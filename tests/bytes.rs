use tl::Bytes;

#[test]
fn from_str() {
    let x = Bytes::from("hello");
    assert_eq!(x.as_bytes(), b"hello");
}

#[test]
fn from_bytes() {
    let x = Bytes::from(b"hello" as &[u8]);
    assert_eq!(x.as_bytes(), b"hello");
}

#[test]
fn as_bytes_borrowed() {
    let xb = Bytes::from(b"hello" as &[u8]);
    assert_eq!(xb.as_bytes_borrowed(), Some(b"hello" as &[u8]));

    let mut xc = xb.clone();
    xc.set("test2").unwrap();
    assert_eq!(xc.as_bytes_borrowed(), None);
}

#[test]
fn as_utf8_str() {
    assert_eq!(Bytes::from("hello").as_utf8_str(), "hello");
}

#[test]
fn clone_shallow() {
    // cloning a borrowed slice does not deep-clone
    let x = Bytes::from("hello");
    let xp = x.as_bytes().as_ptr();

    let y = x.clone();
    let yp = y.as_bytes().as_ptr();

    assert_eq!(xp, yp);
}

#[test]
fn drop_old_owned() {
    let mut x = Bytes::from("");
    x.set("test").unwrap();
    x.set("test2").unwrap();
}

#[test]
fn clone_owned_deep() {
    let mut x = Bytes::from("");
    x.set("hello").unwrap();
    let xp = x.as_bytes().as_ptr();

    let y = x.clone();
    let yp = y.as_bytes().as_ptr();

    assert_eq!(x, y);
    assert_ne!(xp, yp);
}

#[test]
fn empty() {
    let _x = Bytes::new();
}

#[test]
fn empty_set() {
    let mut x = Bytes::new();
    x.set("hello").unwrap();
}

#[test]
fn set() {
    let mut x = Bytes::from("hello");
    let xp = x.as_bytes().as_ptr();

    x.set("world").unwrap();
    let xp2 = x.as_bytes().as_ptr();

    // check that the changes are reflected
    assert_eq!(x.as_bytes(), b"world");

    // the pointer differs: `set` copies into a new allocation
    assert_ne!(xp, xp2);
}

#[test]
fn clone_deep() {
    let x = Bytes::from("hello");
    let xp = x.as_bytes().as_ptr();

    let mut y = x.clone();
    y.set("world").unwrap();
    let yp = y.as_bytes().as_ptr();

    assert_ne!(xp, yp);
}

#[test]
fn into_owned_bytes() {
    let mut x1 = Bytes::new();
    x1.set("hello").unwrap(); // &str

    let mut x2 = x1.clone();
    x2.set(b"world" as &[u8]).unwrap(); // &[u8]

    let mut x3 = x1.clone();
    x3.set(vec![0u8, 1, 2, 3, 4]).unwrap(); // Vec<u8>

    let mut x4 = x1.clone();
    x4.set(vec![0u8, 1, 2, 3, 4].into_boxed_slice()).unwrap(); // Box<[u8]>

    let mut x5 = x1.clone();
    x5.set(String::from("Tests are important")).unwrap(); // String
}
