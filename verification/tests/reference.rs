use compile_time_sort::{
    into_sorted_i128_array, into_sorted_i16_array, into_sorted_i32_array, into_sorted_i64_array,
    into_sorted_i8_array, into_sorted_isize_array, into_sorted_u128_array,
    into_sorted_u16_array, into_sorted_u32_array, into_sorted_u64_array, into_sorted_u8_array,
    into_sorted_usize_array, sort_bool_slice, sort_char_slice, sort_i128_slice, sort_i16_slice,
    sort_i32_slice, sort_i64_slice, sort_i8_slice, sort_isize_slice, sort_u128_slice,
    sort_u16_slice, sort_u32_slice, sort_u64_slice, sort_u8_slice, sort_usize_slice,
};

fn next_random(state: &mut u64) -> u64 {
    *state = state.wrapping_add(0x9E37_79B9_7F4A_7C15);
    let mut z = *state;
    z = (z ^ (z >> 30)).wrapping_mul(0xBF58_476D_1CE4_E5B9);
    z = (z ^ (z >> 27)).wrapping_mul(0x94D0_49BB_1331_11EB);
    z ^ (z >> 31)
}

#[test]
fn matches_reference_sort_u8() {
    let mut state: u64 = 0x5555_5555_5555_5555;
    let mut values: Vec<u8> = Vec::new();
    for _ in 0..10_000 {
        values.push(next_random(&mut state) as u8);
    }
    let mut expected = values.clone();
    expected.sort();
    sort_u8_slice(&mut values);
    assert_eq!(values, expected);
}

#[test]
fn random_array_u8() {
    let mut state: u64 = 0x0123_4567_89AB_CDEF;
    let mut array: [u8; 500] = [0; 500];
    for slot in array.iter_mut() {
        *slot = next_random(&mut state) as u8;
    }
    let mut expected = array;
    expected.sort();
    assert_eq!(into_sorted_u8_array(array), expected);
}

#[test]
fn matches_reference_sort_i8() {
    let mut state: u64 = 0x5555_5555_5555_5555;
    let mut values: Vec<i8> = Vec::new();
    for _ in 0..10_000 {
        values.push(next_random(&mut state) as i8);
    }
    let mut expected = values.clone();
    expected.sort();
    sort_i8_slice(&mut values);
    assert_eq!(values, expected);
}

#[test]
fn random_array_i8() {
    let mut state: u64 = 0x0123_4567_89AB_CDEF;
    let mut array: [i8; 500] = [0; 500];
    for slot in array.iter_mut() {
        *slot = next_random(&mut state) as i8;
    }
    let mut expected = array;
    expected.sort();
    assert_eq!(into_sorted_i8_array(array), expected);
}

#[test]
fn matches_reference_sort_u16() {
    let mut state: u64 = 0x5555_5555_5555_5555;
    let mut values: Vec<u16> = Vec::new();
    for _ in 0..10_000 {
        values.push(next_random(&mut state) as u16);
    }
    let mut expected = values.clone();
    expected.sort();
    sort_u16_slice(&mut values);
    assert_eq!(values, expected);
}

#[test]
fn random_array_u16() {
    let mut state: u64 = 0x0123_4567_89AB_CDEF;
    let mut array: [u16; 500] = [0; 500];
    for slot in array.iter_mut() {
        *slot = next_random(&mut state) as u16;
    }
    let mut expected = array;
    expected.sort();
    assert_eq!(into_sorted_u16_array(array), expected);
}

#[test]
fn matches_reference_sort_i16() {
    let mut state: u64 = 0x5555_5555_5555_5555;
    let mut values: Vec<i16> = Vec::new();
    for _ in 0..10_000 {
        values.push(next_random(&mut state) as i16);
    }
    let mut expected = values.clone();
    expected.sort();
    sort_i16_slice(&mut values);
    assert_eq!(values, expected);
}

#[test]
fn random_array_i16() {
    let mut state: u64 = 0x0123_4567_89AB_CDEF;
    let mut array: [i16; 500] = [0; 500];
    for slot in array.iter_mut() {
        *slot = next_random(&mut state) as i16;
    }
    let mut expected = array;
    expected.sort();
    assert_eq!(into_sorted_i16_array(array), expected);
}

#[test]
fn matches_reference_sort_u32() {
    let mut state: u64 = 0x5555_5555_5555_5555;
    let mut values: Vec<u32> = Vec::new();
    for _ in 0..10_000 {
        values.push(next_random(&mut state) as u32);
    }
    let mut expected = values.clone();
    expected.sort();
    sort_u32_slice(&mut values);
    assert_eq!(values, expected);
}

#[test]
fn random_array_u32() {
    let mut state: u64 = 0x0123_4567_89AB_CDEF;
    let mut array: [u32; 500] = [0; 500];
    for slot in array.iter_mut() {
        *slot = next_random(&mut state) as u32;
    }
    let mut expected = array;
    expected.sort();
    assert_eq!(into_sorted_u32_array(array), expected);
}

#[test]
fn matches_reference_sort_i32() {
    let mut state: u64 = 0x5555_5555_5555_5555;
    let mut values: Vec<i32> = Vec::new();
    for _ in 0..10_000 {
        values.push(next_random(&mut state) as i32);
    }
    let mut expected = values.clone();
    expected.sort();
    sort_i32_slice(&mut values);
    assert_eq!(values, expected);
}

#[test]
fn random_array_i32() {
    let mut state: u64 = 0x0123_4567_89AB_CDEF;
    let mut array: [i32; 500] = [0; 500];
    for slot in array.iter_mut() {
        *slot = next_random(&mut state) as i32;
    }
    let mut expected = array;
    expected.sort();
    assert_eq!(into_sorted_i32_array(array), expected);
}

#[test]
fn matches_reference_sort_u64() {
    let mut state: u64 = 0x5555_5555_5555_5555;
    let mut values: Vec<u64> = Vec::new();
    for _ in 0..10_000 {
        values.push(next_random(&mut state) as u64);
    }
    let mut expected = values.clone();
    expected.sort();
    sort_u64_slice(&mut values);
    assert_eq!(values, expected);
}

#[test]
fn random_array_u64() {
    let mut state: u64 = 0x0123_4567_89AB_CDEF;
    let mut array: [u64; 500] = [0; 500];
    for slot in array.iter_mut() {
        *slot = next_random(&mut state) as u64;
    }
    let mut expected = array;
    expected.sort();
    assert_eq!(into_sorted_u64_array(array), expected);
}

#[test]
fn matches_reference_sort_i64() {
    let mut state: u64 = 0x5555_5555_5555_5555;
    let mut values: Vec<i64> = Vec::new();
    for _ in 0..10_000 {
        values.push(next_random(&mut state) as i64);
    }
    let mut expected = values.clone();
    expected.sort();
    sort_i64_slice(&mut values);
    assert_eq!(values, expected);
}

#[test]
fn random_array_i64() {
    let mut state: u64 = 0x0123_4567_89AB_CDEF;
    let mut array: [i64; 500] = [0; 500];
    for slot in array.iter_mut() {
        *slot = next_random(&mut state) as i64;
    }
    let mut expected = array;
    expected.sort();
    assert_eq!(into_sorted_i64_array(array), expected);
}

#[test]
fn matches_reference_sort_u128() {
    let mut state: u64 = 0x5555_5555_5555_5555;
    let mut values: Vec<u128> = Vec::new();
    for _ in 0..10_000 {
        values.push(((next_random(&mut state) as u128) << 64 | next_random(&mut state) as u128) as u128);
    }
    let mut expected = values.clone();
    expected.sort();
    sort_u128_slice(&mut values);
    assert_eq!(values, expected);
}

#[test]
fn random_array_u128() {
    let mut state: u64 = 0x0123_4567_89AB_CDEF;
    let mut array: [u128; 500] = [0; 500];
    for slot in array.iter_mut() {
        *slot = ((next_random(&mut state) as u128) << 64 | next_random(&mut state) as u128) as u128;
    }
    let mut expected = array;
    expected.sort();
    assert_eq!(into_sorted_u128_array(array), expected);
}

#[test]
fn matches_reference_sort_i128() {
    let mut state: u64 = 0x5555_5555_5555_5555;
    let mut values: Vec<i128> = Vec::new();
    for _ in 0..10_000 {
        values.push(((next_random(&mut state) as u128) << 64 | next_random(&mut state) as u128) as i128);
    }
    let mut expected = values.clone();
    expected.sort();
    sort_i128_slice(&mut values);
    assert_eq!(values, expected);
}

#[test]
fn random_array_i128() {
    let mut state: u64 = 0x0123_4567_89AB_CDEF;
    let mut array: [i128; 500] = [0; 500];
    for slot in array.iter_mut() {
        *slot = ((next_random(&mut state) as u128) << 64 | next_random(&mut state) as u128) as i128;
    }
    let mut expected = array;
    expected.sort();
    assert_eq!(into_sorted_i128_array(array), expected);
}

#[test]
fn matches_reference_sort_usize() {
    let mut state: u64 = 0x5555_5555_5555_5555;
    let mut values: Vec<usize> = Vec::new();
    for _ in 0..10_000 {
        values.push(next_random(&mut state) as usize);
    }
    let mut expected = values.clone();
    expected.sort();
    sort_usize_slice(&mut values);
    assert_eq!(values, expected);
}

#[test]
fn random_array_usize() {
    let mut state: u64 = 0x0123_4567_89AB_CDEF;
    let mut array: [usize; 500] = [0; 500];
    for slot in array.iter_mut() {
        *slot = next_random(&mut state) as usize;
    }
    let mut expected = array;
    expected.sort();
    assert_eq!(into_sorted_usize_array(array), expected);
}

#[test]
fn matches_reference_sort_isize() {
    let mut state: u64 = 0x5555_5555_5555_5555;
    let mut values: Vec<isize> = Vec::new();
    for _ in 0..10_000 {
        values.push(next_random(&mut state) as isize);
    }
    let mut expected = values.clone();
    expected.sort();
    sort_isize_slice(&mut values);
    assert_eq!(values, expected);
}

#[test]
fn random_array_isize() {
    let mut state: u64 = 0x0123_4567_89AB_CDEF;
    let mut array: [isize; 500] = [0; 500];
    for slot in array.iter_mut() {
        *slot = next_random(&mut state) as isize;
    }
    let mut expected = array;
    expected.sort();
    assert_eq!(into_sorted_isize_array(array), expected);
}

#[test]
fn matches_reference_sort_char() {
    let mut state: u64 = 0x5555_5555_5555_5555;
    let mut values: Vec<char> = Vec::new();
    while values.len() < 10_000 {
        if let Some(c) = char::from_u32((next_random(&mut state) % 0x11_0000) as u32) {
            values.push(c);
        }
    }
    let mut expected = values.clone();
    expected.sort();
    sort_char_slice(&mut values);
    assert_eq!(values, expected);
}

#[test]
fn matches_reference_sort_bool() {
    let mut state: u64 = 0x5555_5555_5555_5555;
    let mut values: Vec<bool> = Vec::new();
    for _ in 0..10_000 {
        values.push(next_random(&mut state) % 3 == 0);
    }
    let mut expected = values.clone();
    expected.sort();
    sort_bool_slice(&mut values);
    assert_eq!(values, expected);
}
