use peregrine::bitmap::Bitmap;
use peregrine::errors::Error;
use peregrine::memory::IOVec;

const BASE: usize = 0x2000_0000;

#[test]
fn count_sanity() {
    for i in 1..4096 + 1 {
        // the "size" is not 0-indexed
        let iov = IOVec::new(BASE, i);
        let bmap = Bitmap::from_iov(iov);

        assert_eq!(i * 8, bmap.count(), "wrong bit count for size: {}", i);
        assert_eq!(0, bmap.used(), "wrong used count for size: {}", i);
        assert_eq!(bmap.count(), bmap.free(), "wrong free count for size: {}", i);
    }
}

#[test]
fn bounds_check() {
    let mut bmap = Bitmap::new(BASE, 1);
    assert!(bmap.set(8).is_err(), "did not receive error for out of bounds set");
    assert!(bmap.set(8).is_err(), "did not receive error for out of bounds clear");
}

#[test]
fn set_and_clear_all() {
    let len: usize = 16;
    let mut bmap = Bitmap::new(BASE, len);
    for b in 0..len {
        for i in 0..8 {
            let index = (b * 8) + i;
            bmap.set(index).expect("could not set index");
            assert!(bmap.is_set(index), "is_set claims the bit is not set");
        }
    }

    // all bits should be set
    for b in 0..len {
        assert_eq!(0xFF, bmap.byte_at(b));
    }

    // clear all bits, and assert the bitmap is back to nulls
    for index in 0..bmap.count() {
        bmap.clear(index).expect("could not unset bit");
    }
    for b in 0..len {
        assert_eq!(0x0, bmap.byte_at(b));
    }
}

#[test]
fn checked_set_and_clear() {
    let mut bmap = Bitmap::new(BASE, 16);

    let bit = 18;

    // make sure it works at all
    assert!(bmap.checked_set(bit).is_ok());
    assert!(bmap.checked_clear(bit).is_ok());

    // now expect failure
    assert!(bmap.checked_set(bit).is_ok());
    assert!(bmap.checked_set(bit).is_err());
    assert!(bmap.checked_clear(bit).is_ok());
    assert!(bmap.checked_clear(bit).is_err());
}

#[test]
fn set_first_and_last() {
    let len: usize = 16;
    let mut bmap = Bitmap::new(BASE, len);

    for i in 0..len {
        bmap.set(i * 8).expect("could not set first bit");
        bmap.set((i * 8) + 7).expect("could not set last bit");
    }
    for i in 0..len {
        assert_eq!(0x81, bmap.byte_at(i));
    }
}

#[test]
fn find_all_bits() {
    let len: usize = 16;
    let mut bmap = Bitmap::new(BASE, len);

    for i in 0..bmap.count() {
        let found = bmap.find(1);
        assert_eq!(Some(i), found, "either no blocks found, or incorrect block returned");
        assert_eq!(i, bmap.used());
        bmap.set(i).expect("could not set bit in bitmap"); // set it so we don't find it again
    }

    for i in 0..len {
        assert_eq!(0xFF, bmap.byte_at(i));
    }
}

#[test]
fn find_all_bytes() {
    let len: usize = 16;
    let mut bmap = Bitmap::new(BASE, len);

    for i in 0..len {
        let found = bmap.find(8);
        assert_eq!(Some(i * 8), found, "either no blocks found, or incorrect block returned");
        assert_eq!(i * 8, bmap.used());
        for b in 0..8 {
            bmap.set((i * 8) + b).expect("could not set bit in bitmap");
        }
    }

    for i in 0..len {
        assert_eq!(0xFF, bmap.byte_at(i));
    }
}

#[test]
fn find_multiple_bytes() {
    let len: usize = 4;
    let mut bmap = Bitmap::new(BASE, len);

    for i in 0..2 {
        let found = bmap.find_and_set(16); // find half the buffer
        assert_eq!(Ok(i * 16), found, "either no blocks found, or incorrect block returned");
        assert_eq!((i + 1) * 16, bmap.used(), "incorrect number of used bits");
    }

    for i in 0..len {
        assert_eq!(0xFF, bmap.byte_at(i));
    }
}

#[test]
fn find_split_bytes() {
    let mut bmap = Bitmap::new(BASE, 4);

    // set the first 4 bits of the first byte
    for i in 0..4 {
        bmap.set(i).expect("could not set bit in setup");
    }

    // get a whole byte
    let byte_block = bmap.find_and_set(8).expect("could not find 8 contiguous bits");
    assert_eq!(4, byte_block, "expected this range to start at 4");

    // get the "rest of that byte" + 1 bit
    bmap.find_and_set(5).expect("could not get remnants of byte + 1");

    assert_eq!(0xFF, bmap.byte_at(0), "did not reserve entire first byte");
    assert_eq!(0xFF, bmap.byte_at(1), "did not reserve entire second byte");
    assert_eq!(0x01, bmap.byte_at(2), "did not reserve one bit overhang");
}

#[test]
fn find_whole_bitmap() {
    let len: usize = 4;
    let mut bmap = Bitmap::new(BASE, len);
    bmap.find_and_set(len * 8).expect("could no find and set whole bitmap");
    assert_eq!(bmap.count(), bmap.used());
    assert_eq!(0, bmap.free());
}

#[test]
fn find_in_gap() {
    let mut bmap = Bitmap::new(BASE, 4);

    for _ in 0..4 {
        bmap.find_and_set(2).expect("could not find or set in gap");
    }
}

#[test]
fn find_skips_set_bits() {
    // pattern 0b100001 in the first byte: a four-bit gap starts at 1, and a
    // five-bit run must wait until after bit 5
    let mut bmap = Bitmap::new(BASE, 128);
    bmap.set(0).expect("could not set bit 0");
    bmap.set(5).expect("could not set bit 5");
    assert_eq!(Some(1), bmap.find(4));
    assert_eq!(Some(6), bmap.find(5));
}

#[test]
fn find_none_when_full() {
    let mut bmap = Bitmap::new(BASE, 1);
    bmap.set_range(0, 8).expect("could not fill bitmap");
    assert_eq!(None, bmap.find(1));
    assert_eq!(None, bmap.find(0));
}

#[test]
fn error_kinds() {
    let mut bmap = Bitmap::new(BASE, 1);
    assert_eq!(Err(Error::OutOfRange), bmap.set(8));
    assert_eq!(Err(Error::OutOfRange), bmap.clear(9));
    assert_eq!(Err(Error::OutOfRange), bmap.checked_set(100));
    assert_eq!(Err(Error::OutOfRange), bmap.checked_clear(100));
    bmap.checked_set(3).expect("could not set");
    assert_eq!(Err(Error::AlreadySet), bmap.checked_set(3));
    bmap.checked_clear(3).expect("could not clear");
    assert_eq!(Err(Error::AlreadyClear), bmap.checked_clear(3));
    assert_eq!(Err(Error::InsufficientFree), bmap.find_and_set(9));
}

#[test]
fn set_range_partial_application() {
    // a range walk that runs off the end leaves the bits before the failure
    // point mutated
    let mut bmap = Bitmap::new(BASE, 1);
    assert_eq!(Err(Error::OutOfRange), bmap.set_range(6, 4));
    assert!(bmap.is_set(6));
    assert!(bmap.is_set(7));
    assert_eq!(2, bmap.used());
    assert_eq!(Err(Error::OutOfRange), bmap.clear_range(6, 4));
    assert!(!bmap.is_set(6));
    assert!(!bmap.is_set(7));
    assert_eq!(0, bmap.used());
}

#[test]
fn unchecked_set_double_counts() {
    // the documented sharp edge: setting a set bit bumps the counter again
    let mut bmap = Bitmap::new(BASE, 1);
    bmap.set(2).expect("could not set");
    bmap.set(2).expect("could not set twice");
    assert_eq!(2, bmap.used());
    assert!(bmap.is_set(2));
}

#[test]
fn bounded_find_and_set_bounds() {
    let mut bmap = Bitmap::new(BASE, 128);

    // we have 128 bytes to manage things (128 * 8 = 1024), but maybe we
    // only track 1000 items... set every other bit up to 1000
    for i in 0..500 {
        bmap.set(i * 2).expect("could not set");
    }

    // attempt to find 2 contiguous bits in our range... and expect to fail
    assert!(bmap.bounded_find_and_set(2, 1000).is_err());

    // but we CAN find it unbounded
    assert!(bmap.find_and_set(2).is_ok());

    // a bound past the bitmap itself is rejected outright
    let mut fresh = Bitmap::new(BASE, 1);
    assert_eq!(Err(Error::OutOfBounds), fresh.bounded_find_and_set(1, 8));
}

#[test]
fn clear_all_resets() {
    let mut bmap = Bitmap::new(BASE, 2);
    bmap.set_range(0, 16).expect("could not fill");
    assert_eq!(16, bmap.used());
    bmap.clear_all();
    assert_eq!(0, bmap.used());
    assert_eq!(0, bmap.byte_at(0));
    assert_eq!(0, bmap.byte_at(1));
}

#[test]
fn set_then_clear_restores_used() {
    let mut bmap = Bitmap::new(BASE, 2);
    bmap.set(1).expect("could not set up");
    let before = bmap.used();
    bmap.set(9).expect("could not set");
    assert!(bmap.is_set(9));
    assert_eq!(before + 1, bmap.used());
    bmap.clear(9).expect("could not clear");
    assert!(!bmap.is_set(9));
    assert_eq!(before, bmap.used());
}
