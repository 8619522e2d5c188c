use wz::archive::Offset;

#[test]
fn wz_offset() {
    let test1: u8 = 5;
    let test2: u16 = 15;
    let test3: u32 = 25;
    let test4: u64 = u64::MAX;

    // Test conversions
    let wz_offset = Offset::from(test1);
    assert_eq!(wz_offset, Offset::from(test1));
    let wz_offset = Offset::from(test2);
    assert_eq!(wz_offset, Offset::from(test2));
    let wz_offset = Offset::from(test3);
    assert_eq!(wz_offset, Offset::from(test3));
    let wz_offset = Offset::from(test4); // truncated
    assert_eq!(wz_offset, Offset::from(u32::MAX));

    // Test Ord
    let wz_offset = Offset::from(17u32);
    assert!(wz_offset > Offset::from(test1));
    assert!(wz_offset > Offset::from(test2));
    assert!(wz_offset < Offset::from(test3));
    assert!(wz_offset < Offset::from(test4));
}
