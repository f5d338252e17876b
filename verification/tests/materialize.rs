use circuit_layout::assign::{AssignedValue, Cell, Chip, ValueSchema};
use circuit_layout::cells::CellTable;
use circuit_layout::error::LayoutError;
use circuit_layout::layout::{FixedLane, MAX_CHUNKS, VAR_COLUMNS};
use circuit_layout::materialize::{MarkerLane, Placement};
use circuit_layout::records::Records;
use halo2_proofs::pasta::Fp;

fn g(x: u64) -> Fp {
    Fp::from(x)
}

fn sample() -> Records<Fp> {
    let mut records: Records<Fp> = Records::new();
    records.one_line(
        0,
        vec![(ValueSchema::Unassigned(g(11)), g(1)), (ValueSchema::Unassigned(g(12)), g(2))],
        Some(g(5)),
        (vec![g(6)], None),
    );
    let limb = records.assign_single_range_value(0, g(12), 4);
    records.one_line(
        1,
        vec![
            (ValueSchema::Assigned(AssignedValue::new(Chip::BaseChip, 1, 0, g(12))), g(3)),
            (ValueSchema::Assigned(limb), g(4)),
        ],
        None,
        (vec![], Some(g(7))),
    );
    records
}

#[test]
fn placements_in_order() {
    let records = sample();
    let base = records._assign_to_base_chip();
    assert_eq!(
        base,
        vec![
            Placement::Advice { cell: Cell::new(Chip::BaseChip, 0, 0), value: g(11), keep: false },
            Placement::Advice { cell: Cell::new(Chip::BaseChip, 1, 0), value: g(12), keep: true },
            Placement::Advice { cell: Cell::new(Chip::BaseChip, 0, 1), value: g(12), keep: true },
            Placement::Advice { cell: Cell::new(Chip::BaseChip, 1, 1), value: g(12), keep: true },
            Placement::Fixed { lane: FixedLane::Coeff(0), step: 0, value: g(1) },
            Placement::Fixed { lane: FixedLane::Coeff(1), step: 0, value: g(2) },
            Placement::Fixed { lane: FixedLane::MulCoeff(0), step: 0, value: g(6) },
            Placement::Fixed { lane: FixedLane::Constant, step: 0, value: g(5) },
            Placement::Fixed { lane: FixedLane::Coeff(0), step: 1, value: g(3) },
            Placement::Fixed { lane: FixedLane::Coeff(1), step: 1, value: g(4) },
            Placement::Fixed { lane: FixedLane::NextCoeff, step: 1, value: g(7) },
        ]
    );
    let range = records._assign_to_range_chip();
    assert_eq!(
        range,
        vec![
            Placement::Marker { marker: MarkerLane::RangeClass, step: 0, value: g(4) },
            Placement::Advice { cell: Cell::new(Chip::RangeChip, 0, 0), value: g(12), keep: true },
        ]
    );
    let copies = records._assign_permutation();
    assert_eq!(
        copies,
        vec![
            Placement::Equal {
                left: Cell::new(Chip::BaseChip, 1, 0),
                right: Cell::new(Chip::BaseChip, 0, 1)
            },
            Placement::Equal {
                left: Cell::new(Chip::RangeChip, 0, 0),
                right: Cell::new(Chip::BaseChip, 1, 1)
            },
        ]
    );
    let mut all = base;
    all.extend(range);
    all.extend(copies);
    assert_eq!(records.assign_all(), all);
    assert_eq!(records.try_assign_all(), Ok(all));
}

#[test]
fn rows_above_the_height_are_left_out() {
    let mut records: Records<Fp> = Records::new();
    records.one_line(0, vec![(ValueSchema::Unassigned(g(1)), g(1))], None, (vec![], None));
    records.base_adv_record[3][2].0 = Some(g(8));
    records.base_fix_record[3][2] = Some(g(8));
    records.assign_single_range_value(0, g(1), 1);
    records.range_adv_record[5].0 = Some(g(8));
    records.range_fix_record[5] = [Some(g(1)), Some(g(1))];
    assert_eq!(records.assign_all().len(), 4);
    assert!(!records.keeps(&Cell::new(Chip::BaseChip, 2, 3)));
}

#[test]
fn block_markers_come_before_the_values() {
    let mut records: Records<Fp> = Records::new();
    records.assign_range_value(0, (g(0x0102), vec![g(2), g(1)]), 1);
    let last = MAX_CHUNKS as usize;
    assert_eq!(
        records._assign_to_range_chip(),
        vec![
            Placement::Marker { marker: MarkerLane::BlockFirst, step: 0, value: g(1) },
            Placement::Marker { marker: MarkerLane::RangeClass, step: 1, value: g(8) },
            Placement::Marker { marker: MarkerLane::RangeClass, step: 2, value: g(1) },
            Placement::Marker { marker: MarkerLane::BlockFirst, step: last, value: g(0) },
            Placement::Advice {
                cell: Cell::new(Chip::RangeChip, 0, 0),
                value: g(0x0102),
                keep: false
            },
            Placement::Advice { cell: Cell::new(Chip::RangeChip, 0, 1), value: g(2), keep: false },
            Placement::Advice { cell: Cell::new(Chip::RangeChip, 0, 2), value: g(1), keep: false },
        ]
    );
}

#[test]
fn equalities_join_equal_values() {
    let records = sample();
    let plan = records.assign_all();
    let mut table: CellTable<Fp> = CellTable::new(records.base_height, records.range_height);
    let mut equalities = 0;
    for placement in plan {
        match placement {
            Placement::Advice { cell, value, keep } => {
                assert_eq!(equalities, 0);
                assert_eq!(keep, records.keeps(&cell));
                if keep {
                    assert!(table.get(&cell).is_none());
                    table.put(cell, value);
                }
            }
            Placement::Equal { left, right } => {
                equalities += 1;
                let l = table.get(&left).unwrap();
                let r = table.get(&right).unwrap();
                assert_eq!(l, r);
            }
            _ => assert_eq!(equalities, 0),
        }
    }
    assert_eq!(equalities, records.permutations.len());
    let cells = table.into_cells();
    assert_eq!(cells.len(), 2);
    assert_eq!(cells[0].len(), VAR_COLUMNS);
    assert_eq!(cells[0][1], vec![Some(g(12)), Some(g(12))]);
    assert_eq!(cells[0][0], vec![None, Some(g(12))]);
    assert_eq!(cells[0][2], vec![None, None]);
    assert_eq!(cells[1], vec![vec![Some(g(12))]]);
}

#[test]
fn unplaced_cell_is_found() {
    let mut records: Records<Fp> = Records::new();
    records.one_line(0, vec![(ValueSchema::Unassigned(g(1)), g(1))], None, (vec![], None));
    records.one_line(
        1,
        vec![
            (ValueSchema::Assigned(AssignedValue::new(Chip::BaseChip, 0, 0, g(1))), g(1)),
            (ValueSchema::Assigned(AssignedValue::new(Chip::BaseChip, 4, 0, g(1))), g(1)),
        ],
        None,
        (vec![], None),
    );
    assert_eq!(records.permutations.len(), 2);
    assert!(records.keeps(&Cell::new(Chip::BaseChip, 0, 0)));
    assert!(!records.keeps(&Cell::new(Chip::BaseChip, 4, 0)));
    assert_eq!(records.unplaced_reference(), Some(1));
    assert_eq!(records.try_assign_all(), Err(LayoutError::UnplacedCell));

    records.one_line_with_last(
        0,
        vec![(ValueSchema::Unassigned(g(1)), g(1))],
        (ValueSchema::Unassigned(g(1)), g(1)),
        None,
        (vec![], None),
    );
    assert_eq!(records.unplaced_reference(), None);
    assert!(records.try_assign_all().is_ok());
}

#[test]
fn range_unit_keeps_lane_zero_only() {
    let mut records: Records<Fp> = Records::new();
    records.assign_single_range_value(0, g(1), 1);
    records.one_line(
        0,
        vec![(ValueSchema::Assigned(AssignedValue::new(Chip::RangeChip, 1, 0, g(1))), g(1))],
        None,
        (vec![], None),
    );
    assert_eq!(records.range_adv_record[0], (Some(g(1)), true));
    assert!(records.keeps(&Cell::new(Chip::RangeChip, 0, 0)));
    assert!(!records.keeps(&Cell::new(Chip::RangeChip, 1, 0)));
    assert_eq!(records.unplaced_reference(), Some(0));
}

#[test]
fn cell_table_entries() {
    let mut table: CellTable<u32> = CellTable::new(3, 2);
    assert_eq!(table.cells.len(), 2);
    assert_eq!(table.cells[0].len(), VAR_COLUMNS);
    assert!(table.cells[0].iter().all(|column| column == &vec![None, None, None]));
    assert_eq!(table.cells[1], vec![vec![None, None]]);
    table.put(Cell::new(Chip::BaseChip, 4, 2), 7);
    table.put(Cell::new(Chip::RangeChip, 0, 1), 8);
    assert_eq!(table.get(&Cell::new(Chip::BaseChip, 4, 2)), Some(&7));
    assert_eq!(table.get(&Cell::new(Chip::RangeChip, 0, 1)), Some(&8));
    assert_eq!(table.get(&Cell::new(Chip::BaseChip, 4, 1)), None);
    assert_eq!(table.get(&Cell::new(Chip::BaseChip, 5, 0)), None);
    assert_eq!(table.get(&Cell::new(Chip::BaseChip, 0, 3)), None);
    assert_eq!(table.get(&Cell::new(Chip::RangeChip, 1, 0)), None);
    assert_eq!(table.get(&Cell::new(Chip::RangeChip, 0, 2)), None);
    table.put(Cell::new(Chip::BaseChip, 4, 2), 9);
    assert_eq!(table.get(&Cell::new(Chip::BaseChip, 4, 2)), Some(&9));
}
