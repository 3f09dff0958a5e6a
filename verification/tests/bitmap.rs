use minibit::bitmap::{BitmapBuilder, BitmapSize, PresenceBitmap};
use minibit::error::Error;

#[test]
fn test_bitmap_basic_operations() {
    let mut bitmap = PresenceBitmap::new(BitmapSize::U8);

    assert!(bitmap.is_empty());
    assert_eq!(bitmap.count_set(), 0);
    assert!(!bitmap.is_set(0));

    bitmap.set(0).unwrap();
    bitmap.set(3).unwrap();
    bitmap.set(7).unwrap();

    assert!(!bitmap.is_empty());
    assert_eq!(bitmap.count_set(), 3);
    assert!(bitmap.is_set(0));
    assert!(bitmap.is_set(3));
    assert!(bitmap.is_set(7));
    assert!(!bitmap.is_set(1));

    bitmap.clear(3).unwrap();
    assert!(!bitmap.is_set(3));
    assert_eq!(bitmap.count_set(), 2);
}

#[test]
fn test_bitmap_bounds() {
    let mut bitmap8 = PresenceBitmap::new(BitmapSize::U8);
    let mut bitmap16 = PresenceBitmap::new(BitmapSize::U16);

    // Valid indices
    assert!(bitmap8.set(7).is_ok());
    assert!(bitmap16.set(15).is_ok());

    // Invalid indices
    assert_eq!(bitmap8.set(8), Err(Error::Overflow));
    assert_eq!(bitmap16.set(16), Err(Error::Overflow));
}

#[test]
fn test_bitmap_encode_decode() {
    let mut bitmap = PresenceBitmap::new(BitmapSize::U16);
    bitmap.set(0).unwrap();
    bitmap.set(8).unwrap();
    bitmap.set(15).unwrap();

    let mut buf = [0u8; 4];
    let encoded_len = bitmap.encode(&mut buf).unwrap();
    assert_eq!(encoded_len, 2);

    let (decoded, decoded_len) = PresenceBitmap::decode(&buf, BitmapSize::U16).unwrap();
    assert_eq!(decoded_len, 2);
    assert_eq!(bitmap.bits(), decoded.bits());

    assert!(decoded.is_set(0));
    assert!(decoded.is_set(8));
    assert!(decoded.is_set(15));
    assert!(!decoded.is_set(1));
}

#[test]
fn test_bitmap_iterator() {
    let mut bitmap = PresenceBitmap::new(BitmapSize::U8);
    bitmap.set(1).unwrap();
    bitmap.set(3).unwrap();
    bitmap.set(6).unwrap();

    let set_fields: Vec<usize> = bitmap.iter_set().into_iter().collect();
    assert_eq!(set_fields, vec![1, 3, 6]);
}

#[test]
fn test_bitmap_builder() {
    let bitmap = BitmapBuilder::new(BitmapSize::U8)
        .with_field(0)
        .unwrap()
        .with_field(2)
        .unwrap()
        .with_field(7)
        .unwrap()
        .build();

    assert!(bitmap.is_set(0));
    assert!(bitmap.is_set(2));
    assert!(bitmap.is_set(7));
    assert!(!bitmap.is_set(1));
    assert_eq!(bitmap.count_set(), 3);
}
