use std::cell::RefCell;

use vector_segment::counter::HardwareCounterCell;
use vector_segment::error::OperationError;
use vector_segment::integer_postings::IntegerPostingAtom;
use vector_segment::map_index::{
    should_prefetch_offsets, MapEntry, PostingReply, StorageType, UniversalMapIndex,
    PREFETCHED_OFFSETS_MAX_TABLE_BYTES,
};

#[test]
fn prefetched_offset_gate_covers_atom_and_table_boundaries() {
    assert!(!should_prefetch_offsets(
        63,
        PREFETCHED_OFFSETS_MAX_TABLE_BYTES
    ));
    assert!(should_prefetch_offsets(
        64,
        PREFETCHED_OFFSETS_MAX_TABLE_BYTES
    ));
    assert!(!should_prefetch_offsets(
        64,
        PREFETCHED_OFFSETS_MAX_TABLE_BYTES + 1
    ));
}

fn index(deleted: Vec<bool>, keys_count: usize, is_on_disk: bool) -> UniversalMapIndex {
    UniversalMapIndex {
        deleted_count: deleted.iter().filter(|flag| **flag).count(),
        point_slots: deleted.len(),
        deleted,
        keys_count,
        total_key_value_pairs: 9,
        is_on_disk,
        ram_usage_bytes: 77,
        read_entry_overhead: 16,
    }
}

fn broken() -> OperationError {
    OperationError::service_error("broken")
}

#[test]
fn deleted_points_have_no_values() {
    let index = index(vec![false, true, false], 2, true);
    let mut counter = HardwareCounterCell::disposable();
    assert!(index.check_values_any(0, &mut counter, &|_| Ok(true)));
    assert!(!index.check_values_any(0, &mut counter, &|_| Ok(false)));
    assert!(!index.check_values_any(0, &mut counter, &|_| Err(broken())));
    assert!(!index.check_values_any(1, &mut counter, &|_| Ok(true)));
    // A point without a flag is checked.
    assert!(index.check_values_any(7, &mut counter, &|_| Ok(true)));
    assert_eq!(counter.payload_index_io_read, 5);

    assert_eq!(index.get_values(2, &|p| Ok(Some(vec![p]))), Some(vec![2]));
    assert_eq!(index.get_values::<u32, _>(2, &|_| Err(broken())), None);
    assert_eq!(index.get_values(1, &|p| Ok(Some(vec![p]))), None);
    assert_eq!(index.get_values(7, &|p| Ok(Some(vec![p]))), None);
    assert_eq!(index.values_count(0, &|_| Ok(Some(3))), Some(3));
    assert_eq!(index.values_count(1, &|_| Ok(Some(3))), None);
    assert_eq!(index.values_count(0, &|_| Err(broken())), None);
    assert_eq!(index.get_indexed_points(), 2);
    assert_eq!(index.get_values_count(), 9);
    assert_eq!(index.get_unique_values_count(), 2);
    assert_eq!(index.ram_usage_bytes(), 77);
    assert_eq!(index.telemetry_index_type(), "mmap_map");
    assert!(index.is_on_disk());
    assert_eq!(index.storage_type(), StorageType::Mmap { is_on_disk: true });
}

#[test]
fn reads_of_an_index_in_memory_are_not_counted() {
    let on_disk = index(vec![false, true], 2, true);
    let in_memory = index(vec![false, true], 2, false);
    let mut counter = HardwareCounterCell::disposable();
    assert_eq!(on_disk.get_count_for_value(Ok(Some(4)), &mut counter), Some(4));
    assert_eq!(on_disk.get_count_for_value(Err(broken()), &mut counter), None);
    assert_eq!(counter.payload_index_io_read, 32);
    assert_eq!(
        on_disk.get_iterator(Ok(Some(vec![0, 1, 5])), &mut counter),
        vec![0, 5]
    );
    assert_eq!(counter.payload_index_io_read, 32 + 3 * 4 + 16);
    assert!(on_disk.get_iterator(Ok(None), &mut counter).is_empty());
    assert_eq!(counter.payload_index_io_read, 32 + 3 * 4 + 16 + 16);
    assert!(on_disk.get_iterator(Err(broken()), &mut counter).is_empty());
    assert_eq!(counter.payload_index_io_read, 32 + 3 * 4 + 16 + 16);

    let mut counter = HardwareCounterCell::disposable();
    in_memory.get_iterator(Ok(Some(vec![0, 1])), &mut counter);
    assert_eq!(counter.payload_index_io_read, 0);
}

fn entries() -> Vec<MapEntry<&'static str>> {
    vec![
        MapEntry {
            key: "a",
            key_bytes: 5,
            points: vec![0, 2, 2, 1, 9],
        },
        MapEntry {
            key: "b",
            key_bytes: 6,
            points: vec![3, 0, 3],
        },
    ]
}

#[test]
fn visible_points_are_counted_once() {
    let index = index(vec![false, true, false, false], 2, true);
    assert_eq!(index.count_visible(&[0, 2, 2, 1, 9], None), 2);
    assert_eq!(index.count_visible(&[2, 2, 2], None), 1);
    assert_eq!(index.count_visible(&[0, 2, 3, 3], Some(3)), 2);
    let counts = RefCell::new(Vec::new());
    index
        .for_each_count_per_value(&entries(), Some(3), &|key: &&str, count| {
            counts.borrow_mut().push((*key, count));
            Ok(())
        })
        .unwrap();
    assert_eq!(*counts.borrow(), vec![("a", 2), ("b", 1)]);
    let stopped = index.for_each_count_per_value(&entries(), None, &|_, _| Err(broken()));
    assert!(matches!(stopped, Err(OperationError::ServiceError { .. })));

    let mut counter = HardwareCounterCell::disposable();
    let lists = RefCell::new(Vec::new());
    index
        .for_each_value_map(&entries(), &mut counter, &|key: &&str, points: &Vec<u32>| {
            lists.borrow_mut().push((*key, points.clone()));
            (points.len(), Ok(()))
        })
        .unwrap();
    assert_eq!(
        *lists.borrow(),
        vec![("a", vec![0, 2, 2]), ("b", vec![3, 0, 3])]
    );
    assert_eq!(counter.payload_index_io_read, 5 + 12 + 6 + 12);
}

#[test]
fn only_points_that_were_taken_are_counted() {
    let index = index(vec![false, true, false, false], 2, true);
    let mut counter = HardwareCounterCell::disposable();
    index
        .for_each_value_map(&entries(), &mut counter, &|_: &&str, _: &Vec<u32>| (1, Ok(())))
        .unwrap();
    assert_eq!(counter.payload_index_io_read, 5 + 4 + 6 + 4);

    let mut counter = HardwareCounterCell::disposable();
    let stopped = index.for_each_value_map(
        &entries(),
        &mut counter,
        &|_: &&str, _: &Vec<u32>| (2, Err(broken())),
    );
    assert!(stopped.is_err());
    assert_eq!(counter.payload_index_io_read, 5 + 8);
}

#[test]
fn values_are_read_up_to_the_first_failure() {
    let index = index(vec![false, true, false, false], 2, true);
    let read = |p: u32| {
        if p == 3 {
            Err(broken())
        } else if p == 2 {
            Ok(None)
        } else {
            Ok(Some(vec![p * 10]))
        }
    };
    let (list, end) = index.for_points_values(&[1, 0, 2, 9], &read);
    assert_eq!(list, vec![(0, vec![0])]);
    assert!(end.is_ok());
    let (list, end) = index.for_points_values(&[0, 3, 0], &read);
    assert_eq!(list, vec![(0, vec![0])]);
    assert!(end.is_err());
}

#[test]
fn postings_are_exposed_in_the_order_of_the_atoms() {
    let index = index(vec![false, true, false, false], 3, true);
    let atoms = [
        IntegerPostingAtom::new(10, 0b01),
        IntegerPostingAtom::new(20, 0b10),
        IntegerPostingAtom::new(30, 0b11),
    ];
    for order in [[0, 1, 2], [2, 0, 1]] {
        let mut counter = HardwareCounterCell::disposable();
        let batch = index
            .batched_integer_postings(&atoms, &mut counter, true, &|atoms, prefetch| {
                assert!(!prefetch);
                assert_eq!(atoms.len(), 3);
                Ok(order
                    .iter()
                    .map(|atom| PostingReply {
                        atom_ordinal: *atom,
                        points: match atom {
                            0 => Some(vec![3, 1]),
                            1 => None,
                            _ => Some(vec![9, 0]),
                        },
                    })
                    .collect())
            })
            .unwrap();
        assert!(batch.single_valued);
        let points: Vec<Vec<u32>> = batch.postings.iter().map(|p| p.point_ids.clone()).collect();
        assert_eq!(points, vec![vec![3], vec![], vec![9, 0]]);
        let masks: Vec<u64> = batch.postings.iter().map(|p| p.query_mask).collect();
        assert_eq!(masks, vec![1, 2, 3]);
        assert_eq!(counter.payload_index_io_read, 3 * 16 + 4 * 4);
    }
}

#[test]
fn offsets_of_many_atoms_are_prefetched() {
    let index = index(vec![false], 100, true);
    let atoms: Vec<IntegerPostingAtom> = (0..64).map(|v| IntegerPostingAtom::new(v, 1)).collect();
    let mut counter = HardwareCounterCell::disposable();
    let failed = index.batched_integer_postings(&atoms, &mut counter, false, &|_, prefetch| {
        assert!(prefetch);
        Err(broken())
    });
    assert!(failed.is_err());
    assert_eq!(counter.payload_index_io_read, 800);
}
