use atomic::bridge::bytes_to_word;
use atomic::bridge::word_to_bytes;
use atomic::cell::atomic_add;
use atomic::cell::atomic_and;
use atomic::cell::atomic_compare_exchange;
use atomic::cell::atomic_compare_exchange_weak;
use atomic::cell::atomic_load;
use atomic::cell::atomic_or;
use atomic::cell::atomic_store;
use atomic::cell::atomic_sub;
use atomic::cell::atomic_swap;
use atomic::cell::atomic_xor;
use atomic::cell::AtomicCell;
use atomic::classify::atomic_is_lock_free;
use atomic::classify::classify;
use atomic::classify::lock_free_layout;
use atomic::classify::Route;
use atomic::order::MemOrder;

#[test]
fn round_trip_width_1() {
    for v in [0u64, 1, 0x7f, 0x80, 0xff] {
        let bytes = word_to_bytes(v, 1);
        assert_eq!(bytes_to_word(&bytes), v);
    }
}

#[test]
fn round_trip_width_2() {
    for v in [0u64, 1, 0x00ff, 0xff00, 0xabcd, 0xffff] {
        let bytes = word_to_bytes(v, 2);
        assert_eq!(bytes_to_word(&bytes), v);
    }
}

#[test]
fn round_trip_width_4() {
    for v in [0u64, 1, 0xdead_beef, 0xffff_ffff] {
        let bytes = word_to_bytes(v, 4);
        assert_eq!(bytes_to_word(&bytes), v);
    }
}

#[test]
fn round_trip_width_8() {
    for v in [0u64, 1, 0x0123_4567_89ab_cdef, u64::MAX] {
        let bytes = word_to_bytes(v, 8);
        assert_eq!(bytes_to_word(&bytes), v);
    }
}

#[test]
fn round_trip_bytes_to_word_and_back() {
    let patterns: [&[u8]; 4] = [
        &[0xde],
        &[0xde, 0xad],
        &[0xde, 0xad, 0xbe, 0xef],
        &[1, 2, 3, 4, 5, 6, 7, 8],
    ];
    for p in patterns {
        let bytes: Vec<u8> = p.to_vec();
        let w = bytes_to_word(&bytes);
        assert_eq!(word_to_bytes(w, bytes.len()), bytes);
    }
}

#[test]
fn little_endian_bridge_value() {
    let bytes = vec![0xef, 0xbe, 0xad, 0xde];
    assert_eq!(bytes_to_word(&bytes), 0xdead_beef);
}

#[test]
fn lock_free_reporting_by_type() {
    assert!(atomic_is_lock_free::<u8>());
    assert!(atomic_is_lock_free::<u16>());
    assert!(atomic_is_lock_free::<u32>());
    assert!(atomic_is_lock_free::<u64>());
    assert!(atomic_is_lock_free::<i32>());
    assert!(!atomic_is_lock_free::<[u8; 3]>());
    assert!(!atomic_is_lock_free::<[u8; 16]>());
    assert!(!atomic_is_lock_free::<()>());
}

#[test]
fn lock_free_reporting_by_layout() {
    assert!(lock_free_layout(1, 1));
    assert!(lock_free_layout(2, 2));
    assert!(lock_free_layout(4, 4));
    assert!(lock_free_layout(8, 8));
    assert!(lock_free_layout(4, 8));
    // size matches a native width but the alignment is too small
    assert!(!lock_free_layout(2, 1));
    assert!(!lock_free_layout(4, 2));
    assert!(!lock_free_layout(8, 4));
    // no native width matches the size
    assert!(!lock_free_layout(0, 1));
    assert!(!lock_free_layout(3, 4));
    assert!(!lock_free_layout(16, 16));
}

#[test]
fn classify_routes() {
    assert_eq!(classify(1, 1), Route::Native1);
    assert_eq!(classify(2, 2), Route::Native2);
    assert_eq!(classify(4, 4), Route::Native4);
    assert_eq!(classify(8, 8), Route::Native8);
    assert_eq!(classify(4, 1), Route::Fallback);
    assert_eq!(classify(5, 8), Route::Fallback);
}

#[test]
fn cell_reports_its_route() {
    let native = AtomicCell::new(vec![0; 4], 4);
    assert!(native.is_lock_free());
    let routed = AtomicCell::new(vec![0; 3], 1);
    assert!(!routed.is_lock_free());
}

#[test]
fn load_store_native() {
    let mut cell = AtomicCell::new(vec![0; 4], 4);
    atomic_store(&mut cell, vec![0xef, 0xbe, 0xad, 0xde], MemOrder::Release);
    assert_eq!(atomic_load(&cell, MemOrder::Acquire), vec![0xef, 0xbe, 0xad, 0xde]);
}

#[test]
fn load_store_fallback() {
    let mut cell = AtomicCell::new(vec![0; 3], 1);
    atomic_store(&mut cell, vec![1, 2, 3], MemOrder::SeqCst);
    assert_eq!(atomic_load(&cell, MemOrder::SeqCst), vec![1, 2, 3]);
}

#[test]
fn swap_returns_previous() {
    let mut cell = AtomicCell::new(vec![7, 0, 0, 0], 4);
    let prev = atomic_swap(&mut cell, vec![9, 0, 0, 0], MemOrder::AcqRel);
    assert_eq!(prev, vec![7, 0, 0, 0]);
    assert_eq!(atomic_load(&cell, MemOrder::SeqCst), vec![9, 0, 0, 0]);
}

#[test]
fn compare_exchange_success() {
    let mut cell = AtomicCell::new(vec![0x11, 0x22, 0x33, 0x44], 4);
    let r = atomic_compare_exchange(
        &mut cell,
        vec![0x11, 0x22, 0x33, 0x44],
        vec![0x55, 0x66, 0x77, 0x88],
        MemOrder::SeqCst,
        MemOrder::SeqCst,
    );
    assert_eq!(r, Ok(vec![0x11, 0x22, 0x33, 0x44]));
    assert_eq!(atomic_load(&cell, MemOrder::SeqCst), vec![0x55, 0x66, 0x77, 0x88]);
}

#[test]
fn compare_exchange_failure_leaves_memory() {
    let mut cell = AtomicCell::new(vec![0x11, 0x22, 0x33, 0x44], 4);
    let r = atomic_compare_exchange(
        &mut cell,
        vec![0x99, 0x22, 0x33, 0x44],
        vec![0x55, 0x66, 0x77, 0x88],
        MemOrder::AcqRel,
        MemOrder::Acquire,
    );
    assert_eq!(r, Err(vec![0x11, 0x22, 0x33, 0x44]));
    assert_eq!(atomic_load(&cell, MemOrder::SeqCst), vec![0x11, 0x22, 0x33, 0x44]);
}

#[test]
fn compare_exchange_fallback_width() {
    let mut cell = AtomicCell::new(vec![1, 2, 3], 1);
    let r = atomic_compare_exchange(
        &mut cell,
        vec![1, 2, 3],
        vec![4, 5, 6],
        MemOrder::SeqCst,
        MemOrder::Relaxed,
    );
    assert_eq!(r, Ok(vec![1, 2, 3]));
    let r2 = atomic_compare_exchange(
        &mut cell,
        vec![1, 2, 3],
        vec![7, 8, 9],
        MemOrder::SeqCst,
        MemOrder::Relaxed,
    );
    assert_eq!(r2, Err(vec![4, 5, 6]));
    assert_eq!(atomic_load(&cell, MemOrder::SeqCst), vec![4, 5, 6]);
}

#[test]
fn compare_exchange_weak_matches_strong() {
    let mut cell = AtomicCell::new(vec![3, 0], 2);
    let r = atomic_compare_exchange_weak(
        &mut cell,
        vec![3, 0],
        vec![4, 0],
        MemOrder::SeqCst,
        MemOrder::SeqCst,
    );
    assert_eq!(r, Ok(vec![3, 0]));
    assert_eq!(atomic_load(&cell, MemOrder::SeqCst), vec![4, 0]);
}

#[test]
fn fetch_add_wraps_width_1() {
    let mut cell = AtomicCell::new(vec![250], 1);
    let prev = atomic_add(&mut cell, vec![10], MemOrder::SeqCst);
    assert_eq!(prev, vec![250]);
    assert_eq!(atomic_load(&cell, MemOrder::SeqCst), vec![4]);
}

#[test]
fn fetch_add_wraps_width_2() {
    // 65530 + 10 wraps to 4
    let mut cell = AtomicCell::new(vec![0xfa, 0xff], 2);
    let prev = atomic_add(&mut cell, vec![10, 0], MemOrder::SeqCst);
    assert_eq!(prev, vec![0xfa, 0xff]);
    assert_eq!(atomic_load(&cell, MemOrder::SeqCst), vec![4, 0]);
}

#[test]
fn fetch_add_wraps_width_4() {
    // 4294967290 + 10 wraps to 4
    let mut cell = AtomicCell::new(vec![0xfa, 0xff, 0xff, 0xff], 4);
    let prev = atomic_add(&mut cell, vec![10, 0, 0, 0], MemOrder::SeqCst);
    assert_eq!(prev, vec![0xfa, 0xff, 0xff, 0xff]);
    assert_eq!(atomic_load(&cell, MemOrder::SeqCst), vec![4, 0, 0, 0]);
}

#[test]
fn fetch_add_wraps_width_8() {
    let mut cell = AtomicCell::new(vec![0xfa, 0xff, 0xff, 0xff, 0xff, 0xff, 0xff, 0xff], 8);
    let prev = atomic_add(&mut cell, vec![10, 0, 0, 0, 0, 0, 0, 0], MemOrder::SeqCst);
    assert_eq!(prev, vec![0xfa, 0xff, 0xff, 0xff, 0xff, 0xff, 0xff, 0xff]);
    assert_eq!(atomic_load(&cell, MemOrder::SeqCst), vec![4, 0, 0, 0, 0, 0, 0, 0]);
}

#[test]
fn fetch_add_wraps_fallback_width_3() {
    // 16777215 + 1 wraps to 0 at a width no native atomic covers
    let mut cell = AtomicCell::new(vec![0xff, 0xff, 0xff], 1);
    let prev = atomic_add(&mut cell, vec![1, 0, 0], MemOrder::SeqCst);
    assert_eq!(prev, vec![0xff, 0xff, 0xff]);
    assert_eq!(atomic_load(&cell, MemOrder::SeqCst), vec![0, 0, 0]);
}

#[test]
fn fetch_add_carries_across_bytes() {
    // 255 + 1 = 256 at width 2: the carry moves into the second byte
    let mut cell = AtomicCell::new(vec![0xff, 0x00], 2);
    atomic_add(&mut cell, vec![1, 0], MemOrder::SeqCst);
    assert_eq!(atomic_load(&cell, MemOrder::SeqCst), vec![0x00, 0x01]);
}

#[test]
fn fetch_sub_wraps_width_1() {
    let mut cell = AtomicCell::new(vec![5], 1);
    let prev = atomic_sub(&mut cell, vec![10], MemOrder::SeqCst);
    assert_eq!(prev, vec![5]);
    assert_eq!(atomic_load(&cell, MemOrder::SeqCst), vec![251]);
}

#[test]
fn fetch_sub_borrows_across_bytes() {
    // 256 - 1 = 255 at width 2
    let mut cell = AtomicCell::new(vec![0x00, 0x01], 2);
    atomic_sub(&mut cell, vec![1, 0], MemOrder::SeqCst);
    assert_eq!(atomic_load(&cell, MemOrder::SeqCst), vec![0xff, 0x00]);
}

#[test]
fn fetch_sub_wraps_fallback_width_5() {
    let mut cell = AtomicCell::new(vec![0, 0, 0, 0, 0], 1);
    let prev = atomic_sub(&mut cell, vec![1, 0, 0, 0, 0], MemOrder::SeqCst);
    assert_eq!(prev, vec![0, 0, 0, 0, 0]);
    assert_eq!(atomic_load(&cell, MemOrder::SeqCst), vec![0xff, 0xff, 0xff, 0xff, 0xff]);
}

#[test]
fn fetch_and_native() {
    let mut cell = AtomicCell::new(vec![0b1100_1100, 0xff, 0x0f, 0xf0], 4);
    let prev = atomic_and(&mut cell, vec![0b1010_1010, 0x0f, 0xff, 0x0f], MemOrder::SeqCst);
    assert_eq!(prev, vec![0b1100_1100, 0xff, 0x0f, 0xf0]);
    assert_eq!(atomic_load(&cell, MemOrder::SeqCst), vec![0b1000_1000, 0x0f, 0x0f, 0x00]);
}

#[test]
fn fetch_or_native() {
    let mut cell = AtomicCell::new(vec![0b1100_1100, 0x00], 2);
    let prev = atomic_or(&mut cell, vec![0b1010_1010, 0xf0], MemOrder::SeqCst);
    assert_eq!(prev, vec![0b1100_1100, 0x00]);
    assert_eq!(atomic_load(&cell, MemOrder::SeqCst), vec![0b1110_1110, 0xf0]);
}

#[test]
fn fetch_xor_native() {
    let mut cell = AtomicCell::new(vec![0b1100_1100], 1);
    let prev = atomic_xor(&mut cell, vec![0b1010_1010], MemOrder::SeqCst);
    assert_eq!(prev, vec![0b1100_1100]);
    assert_eq!(atomic_load(&cell, MemOrder::SeqCst), vec![0b0110_0110]);
}

#[test]
fn bitwise_fallback_width_3() {
    let mut cell = AtomicCell::new(vec![0xff, 0x0f, 0xaa], 1);
    let prev = atomic_xor(&mut cell, vec![0x0f, 0xff, 0xaa], MemOrder::SeqCst);
    assert_eq!(prev, vec![0xff, 0x0f, 0xaa]);
    assert_eq!(atomic_load(&cell, MemOrder::SeqCst), vec![0xf0, 0xf0, 0x00]);
}

#[test]
fn native_and_fallback_agree_on_same_bits() {
    // the same operations on the same bit patterns, once at an eligible
    // alignment and once routed to the fallback, end in identical bits
    let mut native = AtomicCell::new(vec![0x21, 0x43, 0x65, 0x87], 4);
    let mut routed = AtomicCell::new(vec![0x21, 0x43, 0x65, 0x87], 2);
    assert!(native.is_lock_free());
    assert!(!routed.is_lock_free());
    for cell in [&mut native, &mut routed] {
        atomic_add(cell, vec![0xff, 0x01, 0x00, 0x00], MemOrder::SeqCst);
        atomic_xor(cell, vec![0x55, 0xaa, 0x55, 0xaa], MemOrder::SeqCst);
        atomic_sub(cell, vec![0x01, 0x00, 0x00, 0x10], MemOrder::SeqCst);
        atomic_or(cell, vec![0x10, 0x01, 0x00, 0x00], MemOrder::SeqCst);
    }
    assert_eq!(
        atomic_load(&native, MemOrder::SeqCst),
        atomic_load(&routed, MemOrder::SeqCst)
    );
}

#[test]
fn native_path_matches_raw_word() {
    // the same sequence through the dispatch layer and against a raw
    // 32-bit word holding identical bits, compared after every step
    let mut cell = AtomicCell::new(word_to_bytes(0x8765_4321, 4), 4);
    let mut raw: u32 = 0x8765_4321;

    atomic_add(&mut cell, word_to_bytes(0xdead_beef, 4), MemOrder::SeqCst);
    raw = raw.wrapping_add(0xdead_beef);
    assert_eq!(bytes_to_word(&atomic_load(&cell, MemOrder::SeqCst)), raw as u64);

    atomic_xor(&mut cell, word_to_bytes(0x5555_aaaa, 4), MemOrder::SeqCst);
    raw ^= 0x5555_aaaa;
    assert_eq!(bytes_to_word(&atomic_load(&cell, MemOrder::SeqCst)), raw as u64);

    atomic_sub(&mut cell, word_to_bytes(0xffff_0001, 4), MemOrder::SeqCst);
    raw = raw.wrapping_sub(0xffff_0001);
    assert_eq!(bytes_to_word(&atomic_load(&cell, MemOrder::SeqCst)), raw as u64);

    atomic_and(&mut cell, word_to_bytes(0x0f0f_f0f0, 4), MemOrder::SeqCst);
    raw &= 0x0f0f_f0f0;
    assert_eq!(bytes_to_word(&atomic_load(&cell, MemOrder::SeqCst)), raw as u64);

    atomic_or(&mut cell, word_to_bytes(0x1001_0110, 4), MemOrder::SeqCst);
    raw |= 0x1001_0110;
    assert_eq!(bytes_to_word(&atomic_load(&cell, MemOrder::SeqCst)), raw as u64);

    let prev = atomic_swap(&mut cell, word_to_bytes(7, 4), MemOrder::SeqCst);
    assert_eq!(bytes_to_word(&prev), raw as u64);
    assert_eq!(bytes_to_word(&atomic_load(&cell, MemOrder::SeqCst)), 7);
}

#[test]
fn no_increment_is_lost() {
    // two callers each issue 100,000 unit increments on a shared,
    // initially-zero 32-bit location
    let mut cell = AtomicCell::new(vec![0; 4], 4);
    for _caller in 0..2 {
        for _ in 0..100_000u32 {
            atomic_add(&mut cell, vec![1, 0, 0, 0], MemOrder::SeqCst);
        }
    }
    let bytes = atomic_load(&cell, MemOrder::SeqCst);
    assert_eq!(bytes_to_word(&bytes), 200_000);
}

#[test]
fn store_then_load_any_allowed_orders() {
    let mut cell = AtomicCell::new(vec![0; 8], 8);
    for store_order in [MemOrder::Relaxed, MemOrder::Release, MemOrder::SeqCst] {
        atomic_store(&mut cell, vec![8, 7, 6, 5, 4, 3, 2, 1], store_order);
        for load_order in [MemOrder::Relaxed, MemOrder::Acquire, MemOrder::SeqCst] {
            assert_eq!(atomic_load(&cell, load_order), vec![8, 7, 6, 5, 4, 3, 2, 1]);
        }
    }
}
