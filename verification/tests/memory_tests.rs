use peregrine::errors::Error;
use peregrine::memory::{memcmp, memcmp_t, memcpy, memset, IOVec};

const TEST_LEN: usize = 64;

#[test]
fn memory_zero_length() {
    let mut buff: Vec<u8> = vec![0xB4; TEST_LEN];
    for i in 0..TEST_LEN {
        memset(&mut buff, i, 0xAF, 0);
        assert_eq!(0xB4, buff[i]);
    }
}

#[test]
fn memory_single_byte() {
    let mut buff: Vec<u8> = vec![0xB4; TEST_LEN];
    for i in 0..TEST_LEN {
        memset(&mut buff, i, 0xAF, 1);
        assert_eq!(0xAF, buff[i]);
    }
}

#[test]
fn memory_entire_buffer() {
    let mut buff: Vec<u8> = vec![0xB4; TEST_LEN];
    memset(&mut buff, 0, 0xAF, TEST_LEN);
    for i in 0..TEST_LEN {
        assert_eq!(0xAF, buff[i]);
    }
}

#[test]
fn use_alias() {
    let mut buff: Vec<u8> = vec![0xB4; TEST_LEN];
    let expect: Vec<u8> = vec![0xAF; TEST_LEN];
    memset(&mut buff, 0, 0xAF, TEST_LEN);
    assert_eq!(0, memcmp(&buff, 0, &expect, 0, TEST_LEN));
}

#[test]
fn memory_as_u8() {
    let mut buff: Vec<u8> = vec![0xB4; TEST_LEN];
    let expect: Vec<u8> = vec![0xAF; TEST_LEN];
    memset(&mut buff, 0, 0xAF, TEST_LEN);
    assert_eq!(0, memcmp_t(&buff, 0, &expect, 0, TEST_LEN, 1));
}

#[test]
fn memory_as_u16() {
    let mut buff: Vec<u8> = vec![0xB4; TEST_LEN];
    let expect: Vec<u8> = vec![0xAF; TEST_LEN];
    memset(&mut buff, 0, 0xAF, TEST_LEN);
    assert_eq!(0, memcmp_t(&buff, 0, &expect, 0, TEST_LEN, 2));
}

#[test]
fn memory_as_u16_last_byte() {
    let mut buff: Vec<u8> = vec![0xB4; TEST_LEN];
    let expect: Vec<u8> = vec![0xAF; TEST_LEN];
    memset(&mut buff, 0, 0xAF, TEST_LEN);
    buff[TEST_LEN - 1] = 0xC9;
    // expect the buffer to now compare LARGER than the expected
    assert_eq!(1, memcmp_t(&buff, 0, &expect, 0, TEST_LEN, 2));
}

#[test]
fn memory_as_u32() {
    let mut buff: Vec<u8> = vec![0xB4; TEST_LEN];
    let expect: Vec<u8> = vec![0xAF; TEST_LEN];
    memset(&mut buff, 0, 0xAF, TEST_LEN);
    assert_eq!(0, memcmp_t(&buff, 0, &expect, 0, TEST_LEN, 4));
}

#[test]
fn memory_as_u32_last_byte() {
    let mut buff: Vec<u8> = vec![0xB4; TEST_LEN];
    let expect: Vec<u8> = vec![0xAF; TEST_LEN];
    memset(&mut buff, 0, 0xAF, TEST_LEN);
    buff[TEST_LEN - 1] = 0x09;
    // expect the buffer to now compare SMALLER than the expected
    assert_eq!(-1, memcmp_t(&buff, 0, &expect, 0, TEST_LEN, 4));
}

#[test]
fn memory_as_u64() {
    let mut buff: Vec<u8> = vec![0xB4; TEST_LEN];
    let expect: Vec<u8> = vec![0xAF; TEST_LEN];
    memset(&mut buff, 0, 0xAF, TEST_LEN);
    assert_eq!(0, memcmp_t(&buff, 0, &expect, 0, TEST_LEN, 8));
}

#[test]
fn memory_as_u64_last_byte() {
    let mut buff: Vec<u8> = vec![0xB4; TEST_LEN];
    let expect: Vec<u8> = vec![0xAF; TEST_LEN];
    memset(&mut buff, 0, 0xAF, TEST_LEN);
    buff[TEST_LEN - 1] = 0x09;
    assert_eq!(-1, memcmp_t(&buff, 0, &expect, 0, TEST_LEN, 8));
}

#[test]
fn memory_as_u64_unaligned() {
    let odd_len: usize = 123;
    let mut buff: Vec<u8> = vec![0xB4; odd_len];
    let expect: Vec<u8> = vec![0xAF; odd_len];
    memset(&mut buff, 0, 0xAF, odd_len);
    assert_eq!(0, memcmp_t(&buff, 0, &expect, 0, odd_len, 8));
}

#[test]
fn all_steps_agree() {
    // The same pair of buffers must compare identically at every step width.
    let mut a: Vec<u8> = vec![0x10; 37];
    let b: Vec<u8> = vec![0x10; 37];
    a[20] = 0x30;
    for step in [1usize, 2, 4, 8] {
        assert_eq!(1, memcmp_t(&a, 0, &b, 0, 37, step), "step {}", step);
        assert_eq!(-1, memcmp_t(&b, 0, &a, 0, 37, step), "step {}", step);
        assert_eq!(0, memcmp_t(&a, 21, &b, 21, 16, step), "step {}", step);
    }
}

#[test]
fn memory_non_overlapping() {
    // The first half is the destination, the second half the source.
    let mut buff: Vec<u8> = vec![0; TEST_LEN * 2];
    memset(&mut buff, TEST_LEN, 0xAF, TEST_LEN);
    memcpy(&mut buff, 0, TEST_LEN, TEST_LEN);
    assert_eq!(0, memcmp(&buff, 0, &buff, TEST_LEN, TEST_LEN));
    for i in 0..TEST_LEN {
        assert_eq!(0xAF, buff[i]);
    }
}

#[test]
fn memory_overlapping() {
    let half_len = TEST_LEN / 2;
    let mut buff: Vec<u8> = vec![0xB4; TEST_LEN];
    memset(&mut buff, half_len, 0xAF, half_len);

    // copy the middle of the buffer over its start, shifted back
    let distance = half_len / 2;
    let overlap = half_len - distance;
    memcpy(&mut buff, 0, overlap, half_len);

    for i in 0..distance {
        assert_eq!(0xB4, buff[i]);
    }
    for i in distance..TEST_LEN {
        assert_eq!(0xAF, buff[i]);
    }
}

#[test]
fn overlapping_backward_shift() {
    // Shifting forward in memory (destination above the source) must also
    // match a byte-by-byte reference shift.
    let mut buff: Vec<u8> = (0u8..32).collect();
    let reference: Vec<u8> = (0u8..32).collect();
    memcpy(&mut buff, 8, 0, 24);
    for i in 0..8 {
        assert_eq!(reference[i], buff[i]);
    }
    for i in 8..32 {
        assert_eq!(reference[i - 8], buff[i]);
    }
}

#[test]
fn iovec_constructors() {
    let v = IOVec::new(0x2000_0000, 128);
    assert_eq!(0x2000_0000, v.ptr);
    assert_eq!(128, v.size);
    assert_eq!(0x2000_0000, v.convert_ptr());
    assert_eq!(0x2000_0000, v.convert_mut_ptr());
    assert_eq!(0x2000_0000, v.as_mut());

    let a = IOVec::from_addr(0x4000_1000, 16);
    assert_eq!(0x4000_1000, a.ptr);
    assert_eq!(16, a.size);

    let r = IOVec::from_range(0x1000, 0x1400).unwrap();
    assert_eq!(0x1000, r.ptr);
    assert_eq!(0x400, r.size);

    assert_eq!(Err(Error::InvalidRange), IOVec::from_range(0x1400, 0x1000));
}

// The memory module's test suite exists twice over, one file per module
// path; the second run exercises the same primitives under its own names.

#[test]
fn mod_zero_length() {
    let mut buff: Vec<u8> = vec![0xB4; TEST_LEN];
    for i in 0..TEST_LEN {
        memset(&mut buff, i, 0xAF, 0);
        assert_eq!(0xB4, buff[i]);
    }
}

#[test]
fn mod_single_byte() {
    let mut buff: Vec<u8> = vec![0xB4; TEST_LEN];
    for i in 0..TEST_LEN {
        memset(&mut buff, i, 0xAF, 1);
        assert_eq!(0xAF, buff[i]);
    }
}

#[test]
fn mod_entire_buffer() {
    let mut buff: Vec<u8> = vec![0xB4; TEST_LEN];
    memset(&mut buff, 0, 0xAF, TEST_LEN);
    for i in 0..TEST_LEN {
        assert_eq!(0xAF, buff[i]);
    }
}

#[test]
fn mod_as_u8() {
    let mut buff: Vec<u8> = vec![0xB4; TEST_LEN];
    let expect: Vec<u8> = vec![0xAF; TEST_LEN];
    memset(&mut buff, 0, 0xAF, TEST_LEN);
    assert_eq!(0, memcmp_t(&buff, 0, &expect, 0, TEST_LEN, 1));
}

#[test]
fn mod_as_u16() {
    let mut buff: Vec<u8> = vec![0xB4; TEST_LEN];
    let expect: Vec<u8> = vec![0xAF; TEST_LEN];
    memset(&mut buff, 0, 0xAF, TEST_LEN);
    assert_eq!(0, memcmp_t(&buff, 0, &expect, 0, TEST_LEN, 2));
}

#[test]
fn mod_as_u16_last_byte() {
    let mut buff: Vec<u8> = vec![0xB4; TEST_LEN];
    let expect: Vec<u8> = vec![0xAF; TEST_LEN];
    memset(&mut buff, 0, 0xAF, TEST_LEN);
    buff[TEST_LEN - 1] = 0xC9;
    assert_eq!(1, memcmp_t(&buff, 0, &expect, 0, TEST_LEN, 2));
}

#[test]
fn mod_as_u32() {
    let mut buff: Vec<u8> = vec![0xB4; TEST_LEN];
    let expect: Vec<u8> = vec![0xAF; TEST_LEN];
    memset(&mut buff, 0, 0xAF, TEST_LEN);
    assert_eq!(0, memcmp_t(&buff, 0, &expect, 0, TEST_LEN, 4));
}

#[test]
fn mod_as_u32_last_byte() {
    let mut buff: Vec<u8> = vec![0xB4; TEST_LEN];
    let expect: Vec<u8> = vec![0xAF; TEST_LEN];
    memset(&mut buff, 0, 0xAF, TEST_LEN);
    buff[TEST_LEN - 1] = 0x09;
    assert_eq!(-1, memcmp_t(&buff, 0, &expect, 0, TEST_LEN, 4));
}

#[test]
fn mod_as_u64() {
    let mut buff: Vec<u8> = vec![0xB4; TEST_LEN];
    let expect: Vec<u8> = vec![0xAF; TEST_LEN];
    memset(&mut buff, 0, 0xAF, TEST_LEN);
    assert_eq!(0, memcmp_t(&buff, 0, &expect, 0, TEST_LEN, 8));
}

#[test]
fn mod_as_u64_last_byte() {
    let mut buff: Vec<u8> = vec![0xB4; TEST_LEN];
    let expect: Vec<u8> = vec![0xAF; TEST_LEN];
    memset(&mut buff, 0, 0xAF, TEST_LEN);
    buff[TEST_LEN - 1] = 0x09;
    assert_eq!(-1, memcmp_t(&buff, 0, &expect, 0, TEST_LEN, 8));
}

#[test]
fn mod_as_u64_unaligned() {
    let odd_len: usize = 123;
    let mut buff: Vec<u8> = vec![0xB4; odd_len];
    let expect: Vec<u8> = vec![0xAF; odd_len];
    memset(&mut buff, 0, 0xAF, odd_len);
    assert_eq!(0, memcmp_t(&buff, 0, &expect, 0, odd_len, 8));
}

#[test]
fn mod_non_overlapping() {
    let mut buff: Vec<u8> = vec![0; TEST_LEN * 2];
    memset(&mut buff, TEST_LEN, 0xAF, TEST_LEN);
    memcpy(&mut buff, 0, TEST_LEN, TEST_LEN);
    assert_eq!(0, memcmp(&buff, 0, &buff, TEST_LEN, TEST_LEN));
}

#[test]
fn mod_overlapping() {
    let half_len = TEST_LEN / 2;
    let mut buff: Vec<u8> = vec![0xB4; TEST_LEN];
    memset(&mut buff, half_len, 0xAF, half_len);

    let distance = half_len / 2;
    let overlap = half_len - distance;
    memcpy(&mut buff, 0, overlap, half_len);

    for i in 0..distance {
        assert_eq!(0xB4, buff[i]);
    }
    for i in distance..TEST_LEN {
        assert_eq!(0xAF, buff[i]);
    }
}
