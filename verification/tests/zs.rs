//! The compressed object store.

use xnu_rs::zs::class::{class_for_size, size_class, NUM_CLASSES, PAGE_SIZE};
use xnu_rs::zs::page::{full_mask, SlotError, ZsPage};
use xnu_rs::zs::store::{ClassState, Handle, LoadError, Stats, StoreError, ZsStore};

/// Bytes that do not compress.
fn noise(n: usize) -> Vec<u8> {
    let mut x: u32 = 0x1234_5678;
    let mut out = Vec::new();
    for _ in 0..n {
        x ^= x << 13;
        x ^= x >> 17;
        x ^= x << 5;
        out.push((x >> 11) as u8);
    }
    out
}

#[test]
fn class_geometry() {
    let sizes = [32usize, 64, 128, 256, 512, 1024, 2048, 4096];
    for c in 0..NUM_CLASSES {
        let sc = size_class(c);
        assert_eq!(sc.slot_size, sizes[c]);
        assert_eq!(sc.max_payload, sizes[c] - 4);
        assert_eq!(sc.slots_per_page, PAGE_SIZE / sizes[c]);
        assert_eq!(sc.slots_per_page * sc.slot_size, PAGE_SIZE);
    }
}

#[test]
fn class_choice_is_the_smallest_that_fits() {
    assert_eq!(class_for_size(0), Some(0));
    assert_eq!(class_for_size(28), Some(0));
    assert_eq!(class_for_size(29), Some(1));
    assert_eq!(class_for_size(60), Some(1));
    assert_eq!(class_for_size(2044), Some(6));
    assert_eq!(class_for_size(2045), Some(7));
    assert_eq!(class_for_size(4092), Some(7));
    assert_eq!(class_for_size(4093), None);
}

#[test]
fn masks_cover_the_slots() {
    assert_eq!(full_mask(1), 1);
    assert_eq!(full_mask(8), 0xff);
    assert_eq!(full_mask(128), u128::MAX);
}

#[test]
fn page_slots_fill_and_empty() {
    let mut page = ZsPage::new(6);
    assert!(!page.is_full());
    assert_eq!(page.alloc_slot(3, &[1, 2, 3]), Some(0));
    assert_eq!(page.alloc_slot(2, &[9, 8]), Some(1));
    assert!(page.is_full());
    assert_eq!(page.alloc_slot(1, &[7]), None);
    assert_eq!(page.slot_original_len(0), Some(3));
    assert_eq!(page.slot_original_len(2), None);
    let mut out = [0u8; 8];
    assert_eq!(page.read_slot(1, &mut out), Ok(2));
    assert_eq!(&out[..2], &[9, 8]);
    assert!(page.free_slot(0));
    assert!(!page.free_slot(0));
    assert!(!page.free_slot(2));
    assert_eq!(page.alloc_slot(1, &[7]), Some(0));
}

#[test]
fn filling_a_slot_touches_no_other_byte() {
    let mut page = ZsPage::new(5);
    for b in page.data.iter_mut() {
        *b = 0x5a;
    }
    assert_eq!(page.alloc_slot(0x0203, &[1, 2, 3]), Some(0));
    assert_eq!(page.alloc_slot(7, &[4]), Some(1));
    assert_eq!(&page.data[..8], &[3, 2, 3, 0, 1, 2, 3, 0x5a]);
    assert_eq!(&page.data[1024..1030], &[7, 0, 1, 0, 4, 0x5a]);
    assert!(page.data[8..1024].iter().chain(&page.data[1030..]).all(|b| *b == 0x5a));
}

#[test]
fn page_read_errors() {
    let mut page = ZsPage::new(0);
    let mut out = [0u8; 64];
    assert_eq!(page.read_slot(128, &mut out), Err(SlotError::InvalidSlot));
    assert_eq!(page.read_slot(5, &mut out), Err(SlotError::SlotFree));
    assert_eq!(page.alloc_slot(20, &[0xf0, 0xff]), Some(0));
    assert_eq!(page.read_slot(0, &mut out[..19]), Err(SlotError::BufferTooSmall { need: 20 }));
    assert_eq!(page.read_slot(0, &mut out), Err(SlotError::DecompressFailed));
}

#[test]
fn slot_errors_become_load_errors() {
    assert_eq!(LoadError::from(SlotError::InvalidSlot), LoadError::InvalidSlot);
    assert_eq!(LoadError::from(SlotError::SlotFree), LoadError::InvalidSlot);
    assert_eq!(
        LoadError::from(SlotError::BufferTooSmall { need: 7 }),
        LoadError::BufferTooSmall { need: 7 }
    );
    assert_eq!(LoadError::from(SlotError::DecompressFailed), LoadError::DecompressFailed);
}

#[test]
fn handles_round_trip() {
    let h = Handle::encode(0xdead_beef, 7, 127);
    assert_eq!(h.decode(), (0xdead_beef, 7, 127));
    assert_ne!(Handle::encode(1, 2, 3), Handle::encode(1, 3, 2));
    assert_eq!(Handle::encode(1, 2, 3).decode(), (1, 2, 3));
}

#[test]
fn compressible_object_is_stored_small_and_loads_back() {
    let mut store = ZsStore::new();
    let data = vec![0xabu8; 4000];
    let h = store.store(&data).unwrap();
    let stats = store.stats();
    assert_eq!(stats.objects_stored, 1);
    assert_eq!(stats.original_bytes, 4000);
    assert!(stats.stored_bytes < 100);
    assert_eq!(stats.pages_allocated, 1);
    assert!(h.decode().1 < 2);
    assert_eq!(store.query_size(h), Some(4000));
    let mut out = vec![0u8; 4000];
    assert_eq!(store.load(h, &mut out), Ok(4000));
    assert_eq!(out, data);
}

#[test]
fn incompressible_object_is_stored_as_it_is() {
    let mut store = ZsStore::new();
    let data = noise(300);
    let h = store.store(&data).unwrap();
    assert_eq!(store.stats().stored_bytes, 300);
    assert_eq!(h.decode(), (0, 4, 0));
    let mut out = vec![0u8; 512];
    assert_eq!(store.load(h, &mut out), Ok(300));
    assert_eq!(&out[..300], &data[..]);
    assert_eq!(out[300], 0);
}

#[test]
fn a_page_serves_many_objects() {
    let mut store = ZsStore::new();
    let mut handles = Vec::new();
    for i in 0..200u8 {
        let object = vec![i; 5];
        handles.push(store.store(&object).unwrap());
    }
    assert_eq!(store.page_count(), 2);
    assert_eq!(store.stats().backing_bytes(), 8192);
    for i in 0..200usize {
        let mut out = [0u8; 5];
        assert_eq!(store.load(handles[i], &mut out), Ok(5));
        assert_eq!(out, [i as u8; 5]);
    }
}

#[test]
fn freed_objects_are_gone_and_others_stay() {
    let mut store = ZsStore::new();
    let a = store.store(&noise(10)).unwrap();
    let b = store.store(&noise(12)).unwrap();
    assert_eq!(store.free(a), Ok(()));
    let mut out = [0u8; 16];
    assert_eq!(store.load(a, &mut out), Err(LoadError::InvalidSlot));
    assert_eq!(store.query_size(a), None);
    assert_eq!(store.free(a), Err(LoadError::InvalidSlot));
    assert_eq!(store.load(b, &mut out), Ok(12));
    assert_eq!(&out[..12], &noise(12)[..]);
    let stats = store.stats();
    assert_eq!(stats.objects_stored, 1);
    assert_eq!(stats.original_bytes, 12);
    assert_eq!(stats.stored_bytes, 22);
    let c = store.store(&noise(9)).unwrap();
    assert_eq!(c, a);
}

#[test]
fn a_full_page_returns_to_service_when_a_slot_is_freed() {
    let mut store = ZsStore::new();
    let first = store.store(&noise(4092)).unwrap();
    let second = store.store(&noise(4092)).unwrap();
    assert_eq!(first.decode(), (0, 7, 0));
    assert_eq!(second.decode(), (1, 7, 0));
    store.free(first).unwrap();
    let third = store.store(&noise(4000)).unwrap();
    assert_eq!(third.decode(), (0, 7, 0));
    assert_eq!(store.page_count(), 2);
}

#[test]
fn an_object_that_was_freed_is_stored_again_without_a_new_page() {
    let mut store = ZsStore::new();
    for data in [noise(4092), vec![3u8; 500], Vec::new()] {
        let h = store.store(&data).unwrap();
        let pages = store.page_count();
        store.free(h).unwrap();
        assert_eq!(store.store(&data), Ok(h));
        assert_eq!(store.page_count(), pages);
    }
}

#[test]
fn the_page_that_became_available_last_is_used_first() {
    let mut store = ZsStore::new();
    let handles: Vec<Handle> = (0..4).map(|_| store.store(&noise(4092)).unwrap()).collect();
    assert!(store.classes[7].partial.is_empty());
    store.free(handles[2]).unwrap();
    store.free(handles[0]).unwrap();
    store.free(handles[3]).unwrap();
    assert_eq!(store.classes[7].partial, vec![2, 0, 3]);
    assert_eq!(store.store(&noise(4092)), Ok(handles[3]));
    assert_eq!(store.store(&noise(4092)), Ok(handles[0]));
    assert_eq!(store.store(&noise(4092)), Ok(handles[2]));
    assert_eq!(store.store(&noise(4092)).unwrap().decode(), (4, 7, 0));
    assert_eq!(store.store(&[1, 2]).unwrap().decode(), (5, 0, 0));
    assert_eq!(store.classes[0].partial, vec![5]);
}

#[test]
fn figures_follow_the_live_objects() {
    let mut store = ZsStore::new();
    let kept = noise(300);
    let first = store.store(&kept).unwrap();
    let mut live: Vec<(Handle, usize)> = vec![(first, 300)];
    for i in 0..200usize {
        let data = noise(i * 20);
        let h = store.store(&data).unwrap();
        assert!(live.iter().all(|l| l.0 != h));
        live.push((h, data.len()));
        if i % 3 == 1 {
            let (gone, _) = live.remove(1 + i / 3);
            store.free(gone).unwrap();
            assert_eq!(store.query_size(gone), None);
        }
        let stats = store.stats();
        assert_eq!(stats.objects_stored, live.len() as u64);
        assert_eq!(stats.original_bytes, live.iter().map(|l| l.1 as u64).sum::<u64>());
        assert_eq!(stats.pages_allocated, store.page_count());
        assert_eq!(store.query_size(first), Some(300));
    }
    let mut out = vec![0u8; 300];
    assert_eq!(store.load(first, &mut out), Ok(300));
    assert_eq!(out, kept);
}

#[test]
fn store_and_load_errors() {
    let mut store = ZsStore::new();
    assert_eq!(store.store(&vec![0u8; 4093]), Err(StoreError::ObjectTooLarge));
    assert_eq!(store.stats().objects_stored, 0);
    let mut out = [0u8; 4];
    let nowhere = Handle::encode(9, 0, 0);
    assert_eq!(store.load(nowhere, &mut out), Err(LoadError::InvalidPage));
    assert_eq!(store.free(nowhere), Err(LoadError::InvalidPage));
    assert_eq!(store.query_size(nowhere), None);
    let h = store.store(&noise(20)).unwrap();
    assert_eq!(store.load(h, &mut out), Err(LoadError::BufferTooSmall { need: 20 }));
    let class = h.decode().1 as u8;
    assert_eq!(store.load(Handle::encode(0, class, 200), &mut out), Err(LoadError::InvalidSlot));
}

#[test]
fn a_damaged_object_fails_to_decompress() {
    let mut store = ZsStore::new();
    let h = store.store(&vec![1u8; 1000]).unwrap();
    for b in store.pages[0].data[4..].iter_mut() {
        *b = 0xff;
    }
    let mut out = vec![0u8; 1000];
    assert_eq!(store.load(h, &mut out), Err(LoadError::DecompressFailed));
}

#[test]
fn encoded_objects_take_the_shorter_form() {
    let mut store = ZsStore::new();
    let data = noise(100);
    let h = store.store_encoded(&data, None).unwrap();
    assert_eq!(store.stats().stored_bytes, 100);
    let mut out = vec![0u8; 100];
    assert_eq!(store.load(h, &mut out), Ok(100));
    assert_eq!(out, data);
    // A block of one run: a literal byte, then copies of it.
    let run = vec![b'a'; 32];
    let block = lz4_flex::block::compress(&run);
    assert!(block.len() < 32);
    let g = store.store_encoded(&run, Some(&block)).unwrap();
    assert_eq!(store.stats().stored_bytes, 100 + block.len() as u64);
    let mut out = vec![0u8; 32];
    assert_eq!(store.load(g, &mut out), Ok(32));
    assert_eq!(out, run);
}

#[test]
fn statistics_arithmetic() {
    let empty = Stats::default();
    assert_eq!(empty.compression_percent(), 100);
    assert_eq!(empty.backing_bytes(), 0);
    let s = Stats { objects_stored: 3, original_bytes: 400, stored_bytes: 100, pages_allocated: 3 };
    assert_eq!(s.compression_percent(), 25);
    assert_eq!(s.backing_bytes(), 12288);
    assert_eq!(ClassState::new().partial.len(), 0);
    assert_eq!(ZsStore::default().page_count(), 0);
}

#[test]
fn a_short_text_goes_in_and_out() {
    let mut store = ZsStore::new();
    let handle = store.store(b"hello, kernel").unwrap();
    let size = store.query_size(handle).unwrap();
    let mut buf = vec![0u8; size];
    store.load(handle, &mut buf).unwrap();
    assert_eq!(&buf, b"hello, kernel");
    store.free(handle).unwrap();
}
