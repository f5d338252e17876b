use circuit_layout::assign::{AssignedValue, Cell, Chip, ValueSchema};
use circuit_layout::error::LayoutError;
use circuit_layout::field::LaneValue;
use circuit_layout::layout::{
    fixed_lane, grow_to, FixedLane, BASE_EXTEND_SIZE, COMMON_RANGE_BITS, FIXED_COLUMNS,
    MAX_CHUNKS, MUL_COLUMNS, RANGE_EXTEND_SIZE, VAR_COLUMNS,
};
use circuit_layout::range::BlockMarkers;
use circuit_layout::records::Records;
use halo2_proofs::pasta::{Fp, Fq};

fn f(x: u64) -> Fp {
    Fp::from(x)
}

fn plain(x: u64, coeff: u64) -> (ValueSchema<Fp>, Fp) {
    (ValueSchema::Unassigned(f(x)), f(coeff))
}

fn copied(x: u64, region: Chip, col: usize, row: usize, coeff: u64) -> (ValueSchema<Fp>, Fp) {
    (ValueSchema::Assigned(AssignedValue::new(region, col, row, f(x))), f(coeff))
}

#[test]
fn new_ledger_is_empty() {
    let records: Records<Fp> = Records::new();
    assert!(records.base_adv_record.is_empty());
    assert!(records.base_fix_record.is_empty());
    assert_eq!(records.base_height, 0);
    assert!(records.range_adv_record.is_empty());
    assert!(records.range_fix_record.is_empty());
    assert_eq!(records.range_height, 0);
    assert!(records.permutations.is_empty());
    assert!(records.is_well_formed());
    assert_eq!(records, Records::default());
}

#[test]
fn three_values_with_constant() {
    let mut records: Records<Fp> = Records::new();
    records.one_line(
        0,
        vec![plain(11, 1), plain(12, 2), plain(13, 3)],
        Some(f(5)),
        (vec![], None),
    );
    assert_eq!(
        records.base_fix_record[0],
        [Some(f(1)), Some(f(2)), Some(f(3)), None, None, None, None, None, Some(f(5))]
    );
    assert_eq!(
        records.base_adv_record[0],
        [
            (Some(f(11)), false),
            (Some(f(12)), false),
            (Some(f(13)), false),
            (None, false),
            (None, false)
        ]
    );
    assert_eq!(records.base_height, 1);
    assert!(records.permutations.is_empty());
}

#[test]
fn constants_of_the_layout() {
    assert_eq!(FIXED_COLUMNS, VAR_COLUMNS + MUL_COLUMNS + 1 + 1);
    assert_eq!(fixed_lane(0), FixedLane::Coeff(0));
    assert_eq!(fixed_lane(VAR_COLUMNS - 1), FixedLane::Coeff(VAR_COLUMNS - 1));
    assert_eq!(fixed_lane(VAR_COLUMNS), FixedLane::MulCoeff(0));
    assert_eq!(fixed_lane(VAR_COLUMNS + MUL_COLUMNS - 1), FixedLane::MulCoeff(MUL_COLUMNS - 1));
    assert_eq!(fixed_lane(VAR_COLUMNS + MUL_COLUMNS), FixedLane::NextCoeff);
    assert_eq!(fixed_lane(VAR_COLUMNS + MUL_COLUMNS + 1), FixedLane::Constant);
    assert_eq!(Chip::BaseChip.index(), 0);
    assert_eq!(Chip::RangeChip.index(), 1);
}

#[test]
fn tables_grow_in_blocks() {
    assert_eq!(grow_to(0, 0, 16), 16);
    assert_eq!(grow_to(0, 15, 16), 16);
    assert_eq!(grow_to(16, 16, 16), 32);
    assert_eq!(grow_to(16, 40, 16), 48);
    assert_eq!(grow_to(16, 3, 16), 16);
    assert_eq!(grow_to(0, 1023, 1024), 1024);
    assert_eq!(grow_to(0, 1024, 1024), 2048);

    let mut records: Records<Fp> = Records::new();
    records.one_line(0, vec![plain(1, 1)], None, (vec![], None));
    assert_eq!(records.base_adv_record.len(), BASE_EXTEND_SIZE);
    assert_eq!(records.base_fix_record.len(), BASE_EXTEND_SIZE);
    records.one_line(15, vec![plain(1, 1)], None, (vec![], None));
    assert_eq!(records.base_adv_record.len(), BASE_EXTEND_SIZE);
    records.one_line(16, vec![plain(1, 1)], None, (vec![], None));
    assert_eq!(records.base_adv_record.len(), 2 * BASE_EXTEND_SIZE);
    assert_eq!(records.base_fix_record.len(), 2 * BASE_EXTEND_SIZE);
    assert_eq!(records.base_height, 17);
    assert_eq!(records.base_adv_record[20], [(None, false); VAR_COLUMNS]);
    assert_eq!(records.base_fix_record[20], [None; FIXED_COLUMNS]);

    records.assign_single_range_value(0, f(3), 2);
    assert_eq!(records.range_adv_record.len(), RANGE_EXTEND_SIZE);
    assert_eq!(records.range_fix_record.len(), RANGE_EXTEND_SIZE);
    assert!(records.is_well_formed());
}

#[test]
fn earlier_rows_read_back_unchanged() {
    let mut records: Records<Fp> = Records::new();
    let mut written = Vec::new();
    for step in 0..40usize {
        let s = step as u64;
        records.one_line(
            step,
            vec![plain(100 + s, 1 + s), plain(200 + s, 2 + s)],
            Some(f(7 + s)),
            (vec![f(3 + s)], Some(f(4 + s))),
        );
        written.push((records.base_adv_record[step], records.base_fix_record[step]));
        for (earlier, row) in written.iter().enumerate() {
            assert_eq!(records.base_adv_record[earlier], row.0);
            assert_eq!(records.base_fix_record[earlier], row.1);
        }
        assert!(records.base_adv_record.len() > step);
    }
    assert_eq!(records.base_adv_record[7][0].0, Some(f(107)));
    assert_eq!(records.base_adv_record[7][1].0, Some(f(207)));
    assert_eq!(records.base_fix_record[7][0], Some(f(8)));
    assert_eq!(records.base_fix_record[7][VAR_COLUMNS], Some(f(10)));
    assert_eq!(records.base_fix_record[7][VAR_COLUMNS + MUL_COLUMNS], Some(f(11)));
    assert_eq!(records.base_fix_record[7][VAR_COLUMNS + MUL_COLUMNS + 1], Some(f(14)));
    assert_eq!(records.base_adv_record.len(), 48);
}

#[test]
fn heights_follow_the_highest_step() {
    let mut records: Records<Fp> = Records::new();
    assert_eq!((records.base_height, records.range_height), (0, 0));
    records.one_line(4, vec![plain(1, 1)], None, (vec![], None));
    assert_eq!(records.base_height, 5);
    records.one_line(2, vec![plain(1, 1)], None, (vec![], None));
    assert_eq!(records.base_height, 5);
    records.one_line_with_last(9, vec![plain(1, 1)], plain(2, 2), None, (vec![], None));
    assert_eq!(records.base_height, 10);
    assert_eq!(records.range_height, 0);

    records.assign_single_range_value(3, f(1), 5);
    assert_eq!(records.range_height, 4);
    records.assign_single_range_value(1, f(1), 5);
    assert_eq!(records.range_height, 4);
    records.assign_range_value(10, (f(1), vec![f(1)]), 1);
    assert_eq!(records.range_height, 10 + MAX_CHUNKS as usize + 1);
    assert_eq!(records.base_height, 10);
}

#[test]
fn product_and_next_coefficients() {
    let mut records: Records<Fp> = Records::new();
    records.one_line(
        1,
        vec![plain(1, 10), plain(2, 20), plain(3, 30), plain(4, 40), plain(5, 50)],
        None,
        (vec![f(6), f(7)], Some(f(8))),
    );
    assert_eq!(
        records.base_fix_record[1],
        [
            Some(f(10)),
            Some(f(20)),
            Some(f(30)),
            Some(f(40)),
            Some(f(50)),
            Some(f(6)),
            Some(f(7)),
            Some(f(8)),
            None
        ]
    );
    assert_eq!(records.base_fix_record[0], [None; FIXED_COLUMNS]);
    assert_eq!(records.base_height, 2);
}

#[test]
fn coefficients_beyond_the_product_lanes() {
    let mut records: Records<Fp> = Records::new();
    records.one_line(0, vec![], None, (vec![f(1), f(2), f(3), f(4)], None));
    assert_eq!(
        records.base_fix_record[0],
        [None, None, None, None, None, Some(f(1)), Some(f(2)), Some(f(3)), Some(f(4))]
    );
    records.one_line(1, vec![], Some(f(9)), (vec![f(1), f(2), f(3), f(4)], Some(f(8))));
    assert_eq!(
        records.base_fix_record[1],
        [None, None, None, None, None, Some(f(1)), Some(f(2)), Some(f(8)), Some(f(9))]
    );
}

#[test]
fn copied_value_adds_a_constraint() {
    let mut records: Records<Fp> = Records::new();
    records.one_line(0, vec![plain(21, 1), plain(22, 1)], None, (vec![], None));
    records.one_line(
        1,
        vec![plain(5, 1), copied(22, Chip::BaseChip, 1, 0, 3)],
        None,
        (vec![], None),
    );
    assert_eq!(
        records.permutations,
        vec![(Cell::new(Chip::BaseChip, 1, 0), Cell::new(Chip::BaseChip, 1, 1))]
    );
    assert_eq!(records.base_adv_record[0][0], (Some(f(21)), false));
    assert_eq!(records.base_adv_record[0][1], (Some(f(22)), true));
    assert_eq!(records.base_adv_record[1][0], (Some(f(5)), false));
    assert_eq!(records.base_adv_record[1][1], (Some(f(22)), true));
    assert_eq!(records.base_fix_record[1][1], Some(f(3)));
    assert_eq!(records.unplaced_reference(), None);
}

#[test]
fn copy_from_the_range_unit() {
    let mut records: Records<Fp> = Records::new();
    let handle = records.assign_single_range_value(2, f(9), 4);
    assert_eq!(handle, AssignedValue::new(Chip::RangeChip, 0, 2, f(9)));
    records.one_line(0, vec![(ValueSchema::Assigned(handle), f(1))], None, (vec![], None));
    assert_eq!(records.range_adv_record[2], (Some(f(9)), true));
    assert_eq!(records.range_adv_record[1], (None, false));
    assert_eq!(records.base_adv_record[0][0], (Some(f(9)), true));
    assert_eq!(
        records.permutations,
        vec![(Cell::new(Chip::RangeChip, 0, 2), Cell::new(Chip::BaseChip, 0, 0))]
    );
}

#[test]
fn marks_are_never_reset() {
    let mut records: Records<Fp> = Records::new();
    records.one_line(0, vec![plain(1, 1)], None, (vec![], None));
    records.enable_permute(&Cell::new(Chip::BaseChip, 0, 0));
    assert_eq!(records.base_adv_record[0][0], (Some(f(1)), true));
    assert!(records.allocates(&Cell::new(Chip::BaseChip, 3, 2)));
    assert!(!records.allocates(&Cell::new(Chip::BaseChip, 5, 2)));
    assert!(!records.allocates(&Cell::new(Chip::BaseChip, 3, 16)));
    assert!(!records.allocates(&Cell::new(Chip::RangeChip, 0, 0)));
    records.enable_permute(&Cell::new(Chip::BaseChip, 3, 2));
    assert_eq!(records.base_adv_record[2][3], (None, true));
    records.one_line(0, vec![plain(2, 1)], None, (vec![], None));
    assert_eq!(records.base_adv_record[0][0], (Some(f(2)), true));
    records.one_line(2, vec![plain(1, 1)], None, (vec![], None));
    assert_eq!(records.base_adv_record[2][3], (None, true));
    records.assign_single_range_value(0, f(1), 1);
    records.enable_permute(&Cell::new(Chip::RangeChip, 0, 0));
    records.assign_single_range_value(0, f(2), 1);
    assert_eq!(records.range_adv_record[0], (Some(f(2)), true));
}

#[test]
fn tail_goes_to_the_last_lane() {
    let mut records: Records<Fp> = Records::new();
    records.one_line(0, vec![plain(30, 1)], None, (vec![], None));
    records.one_line_with_last(
        1,
        vec![plain(1, 10), plain(2, 20)],
        copied(30, Chip::BaseChip, 0, 0, 99),
        Some(f(4)),
        (vec![f(5)], None),
    );
    assert_eq!(
        records.base_adv_record[1],
        [
            (Some(f(1)), false),
            (Some(f(2)), false),
            (None, false),
            (None, false),
            (Some(f(30)), true)
        ]
    );
    assert_eq!(
        records.base_fix_record[1],
        [Some(f(10)), Some(f(20)), None, None, Some(f(99)), Some(f(5)), None, None, Some(f(4))]
    );
    assert_eq!(
        records.permutations,
        vec![(Cell::new(Chip::BaseChip, 0, 0), Cell::new(Chip::BaseChip, VAR_COLUMNS - 1, 1))]
    );
    assert_eq!(records.base_adv_record[0][0], (Some(f(30)), true));
}

#[test]
fn single_range_value() {
    let mut records: Records<Fp> = Records::new();
    let handle = records.assign_single_range_value(3, f(77), 5);
    assert_eq!(handle.val, f(77));
    assert_eq!(handle.cell, Cell::new(Chip::RangeChip, 0, 3));
    assert_eq!(records.range_adv_record[3], (Some(f(77)), false));
    assert_eq!(records.range_fix_record[3], [None, Some(f(5))]);
    assert_eq!(records.range_fix_record[2], [None, None]);
    assert_eq!(records.range_height, 4);
}

#[test]
fn decomposition_into_two_limbs() {
    let mut records: Records<Fp> = Records::new();
    let v = f(0x0a5c);
    let c0 = f(0x5c);
    let c1 = f(0x0a);
    let handle = records.assign_range_value(0, (v, vec![c0, c1]), 4);
    let last = MAX_CHUNKS as usize;
    assert_eq!(COMMON_RANGE_BITS, 8);
    assert_eq!(records.range_fix_record[0][0], Some(f(1)));
    assert_eq!(records.range_fix_record[1][1], Some(f(8)));
    assert_eq!(records.range_fix_record[2][1], Some(f(4)));
    assert_eq!(records.range_fix_record[last][0], Some(f(0)));
    assert_eq!(records.range_adv_record[0].0, Some(v));
    assert_eq!(records.range_adv_record[1].0, Some(c0));
    assert_eq!(records.range_adv_record[2].0, Some(c1));
    assert_eq!(records.range_fix_record[0][1], None);
    assert_eq!(records.range_fix_record[1][0], None);
    assert_eq!(records.range_adv_record[3], (None, false));
    assert_eq!(handle, AssignedValue::new(Chip::RangeChip, 0, 0, v));
    assert_eq!(records.range_height, last + 1);
}

fn limbs_of(value: u64, limbs: usize, width: u64) -> Vec<u64> {
    let mut rest = value;
    let mut out = Vec::new();
    for _ in 0..limbs - 1 {
        out.push(rest & ((1 << width) - 1));
        rest >>= width;
    }
    out.push(rest);
    out
}

#[test]
fn block_recomposes_to_its_value() {
    for limbs in 1..=MAX_CHUNKS as usize {
        for (n, value) in [0u64, 1, 0xff, 0x1234, 0xdead_beef, 0x3f_ffff_ffff].iter().enumerate() {
            let bits = COMMON_RANGE_BITS * (limbs as u64 - 1);
            let top = *value >> bits;
            let leading_bits = 64 - top.leading_zeros() as u64;
            let chunks = limbs_of(*value, limbs, COMMON_RANGE_BITS);
            let mut records: Records<u64> = Records::new();
            let step = 3 * n;
            records.assign_range_value(step, (*value, chunks.clone()), leading_bits);

            assert_eq!(records.range_adv_record[step].0, Some(*value));
            assert_eq!(records.range_fix_record[step][0], Some(1));
            assert_eq!(records.range_fix_record[step + MAX_CHUNKS as usize][0], Some(0));
            let mut sum: u64 = 0;
            for i in 0..limbs {
                let limb = records.range_adv_record[step + 1 + i].0.unwrap();
                let class = records.range_fix_record[step + 1 + i][1].unwrap();
                if i + 1 < limbs {
                    assert_eq!(class, COMMON_RANGE_BITS);
                } else {
                    assert_eq!(class, leading_bits);
                }
                assert!(class == 64 || limb < (1u64 << class));
                sum += limb << (COMMON_RANGE_BITS * i as u64);
            }
            assert_eq!(sum, *value);
            for i in limbs..MAX_CHUNKS as usize {
                assert_eq!(records.range_adv_record[step + 1 + i], (None, false));
            }
        }
    }
}

#[test]
fn full_block_shares_its_last_step_with_the_closing_marker() {
    let mut records: Records<Fp> = Records::new();
    let limbs = MAX_CHUNKS as usize;
    let chunks: Vec<Fp> = (0..limbs as u64).map(|i| f(40 + i)).collect();
    records.assign_range_value(5, (f(1), chunks), 3);
    assert_eq!(records.range_fix_record[5], [Some(f(1)), None]);
    for i in 1..limbs {
        assert_eq!(records.range_fix_record[5 + i], [None, Some(f(COMMON_RANGE_BITS))]);
        assert_eq!(records.range_adv_record[5 + i].0, Some(f(39 + i as u64)));
    }
    assert_eq!(records.range_fix_record[5 + limbs], [Some(f(0)), Some(f(3))]);
    assert_eq!(records.range_adv_record[5 + limbs].0, Some(f(39 + limbs as u64)));
}

#[test]
fn too_many_values_change_nothing() {
    let mut records: Records<Fp> = Records::new();
    records.one_line(0, vec![plain(1, 1)], None, (vec![], None));
    let before = records.clone();
    let six: Vec<(ValueSchema<Fp>, Fp)> = (0..6).map(|i| plain(i, i)).collect();
    assert_eq!(six.len(), VAR_COLUMNS + 1);
    assert_eq!(
        records.try_one_line(1, six, Some(f(1)), (vec![f(1)], Some(f(1)))),
        Err(LayoutError::TooManyValues)
    );
    assert_eq!(records, before);

    let five: Vec<(ValueSchema<Fp>, Fp)> = (0..5).map(|i| plain(i, i)).collect();
    assert_eq!(
        records.try_one_line_with_last(1, five.clone(), plain(9, 9), None, (vec![], None)),
        Err(LayoutError::TooManyValues)
    );
    assert_eq!(records, before);
    assert_eq!(records.try_one_line(1, five, None, (vec![], None)), Ok(()));
    assert_eq!(records.base_height, 2);
    assert_eq!(records.base_adv_record[1][4], (Some(f(4)), false));
}

#[test]
fn refused_lines() {
    let mut records: Records<Fp> = Records::new();
    records.one_line(0, vec![plain(1, 1)], None, (vec![], None));
    let before = records.clone();

    let five_coeffs = vec![f(1), f(2), f(3), f(4), f(5)];
    assert_eq!(
        records.line_fault(1, &vec![plain(1, 1)], &five_coeffs),
        Some(LayoutError::TooManyCoefficients)
    );
    assert_eq!(
        records.try_one_line(1, vec![plain(1, 1)], None, (five_coeffs, None)),
        Err(LayoutError::TooManyCoefficients)
    );
    assert_eq!(
        records.try_one_line(usize::MAX - 3, vec![plain(1, 1)], None, (vec![], None)),
        Err(LayoutError::StepOutOfRange)
    );
    assert_eq!(
        records.try_one_line(
            1,
            vec![copied(1, Chip::BaseChip, VAR_COLUMNS, 0, 1)],
            None,
            (vec![], None)
        ),
        Err(LayoutError::UnknownCell)
    );
    assert_eq!(
        records.try_one_line(1, vec![copied(1, Chip::BaseChip, 0, 16, 1)], None, (vec![], None)),
        Err(LayoutError::UnknownCell)
    );
    assert_eq!(
        records.try_one_line(1, vec![copied(1, Chip::RangeChip, 0, 0, 1)], None, (vec![], None)),
        Err(LayoutError::UnknownCell)
    );
    assert_eq!(
        records.try_one_line_with_last(
            1,
            vec![plain(1, 1)],
            copied(1, Chip::BaseChip, 0, 16, 1),
            None,
            (vec![], None)
        ),
        Err(LayoutError::UnknownCell)
    );
    assert_eq!(records, before);

    assert_eq!(
        records.try_one_line(16, vec![copied(1, Chip::BaseChip, 0, 31, 1)], None, (vec![], None)),
        Ok(())
    );
    assert_eq!(records.base_adv_record[31][0], (None, true));
    assert_eq!(records.base_adv_record.len(), 32);
}

#[test]
fn refused_range_values() {
    let mut records: Records<Fp> = Records::new();
    let before = records.clone();
    assert_eq!(
        records.try_assign_range_value(0, (f(1), vec![]), 1),
        Err(LayoutError::ChunkCount)
    );
    let seven: Vec<Fp> = (0..MAX_CHUNKS + 1).map(f).collect();
    assert_eq!(
        records.try_assign_range_value(0, (f(1), seven), 1),
        Err(LayoutError::ChunkCount)
    );
    assert_eq!(
        records.try_assign_range_value(usize::MAX - 2, (f(1), vec![f(1)]), 1),
        Err(LayoutError::StepOutOfRange)
    );
    assert_eq!(
        records.try_assign_range_value(usize::MAX - 100, (f(1), vec![f(1)]), 1),
        Err(LayoutError::StepOutOfRange)
    );
    assert_eq!(
        records.try_assign_single_range_value(usize::MAX, f(1), 1),
        Err(LayoutError::StepOutOfRange)
    );
    assert_eq!(records, before);
    assert_eq!(
        records.try_assign_single_range_value(1, f(6), 3),
        Ok(AssignedValue::new(Chip::RangeChip, 0, 1, f(6)))
    );
    assert_eq!(
        records.try_assign_range_value(2, (f(1), vec![f(1)]), 1),
        Ok(AssignedValue::new(Chip::RangeChip, 0, 2, f(1)))
    );
    assert_eq!(records.range_fix_record[2], [Some(f(1)), None]);
    assert_eq!(records.range_fix_record[3], [None, Some(f(1))]);
}

#[test]
fn value_schema_parts() {
    let assigned = AssignedValue::new(Chip::BaseChip, 2, 7, f(3));
    assert_eq!(assigned.cell, Cell { region: Chip::BaseChip, col: 2, row: 7 });
    let schema = ValueSchema::Assigned(assigned);
    assert_eq!(schema.value(), f(3));
    assert_eq!(schema.cell(), Some(Cell::new(Chip::BaseChip, 2, 7)));
    let schema = ValueSchema::Unassigned(f(4));
    assert_eq!(schema.value(), f(4));
    assert_eq!(schema.cell(), None);
}

#[test]
fn markers_stand_for_small_integers() {
    assert_eq!(<Fp as LaneValue>::from_u64(0), Fp::zero());
    assert_eq!(<Fp as LaneValue>::from_u64(1), Fp::one());
    assert_eq!(<Fp as LaneValue>::from_u64(8), Fp::one().double().double().double());
    assert_eq!(<Fp as LaneValue>::from_u64(u64::MAX), Fp::from(u64::MAX));
    assert_eq!(<Fq as LaneValue>::from_u64(0), Fq::zero());
    assert_eq!(<Fq as LaneValue>::from_u64(1), Fq::one());
    assert_eq!(<Fq as LaneValue>::from_u64(6), Fq::from(2) * Fq::from(3));
    assert_eq!(<u64 as LaneValue>::from_u64(77), 77);

    let markers: BlockMarkers<Fp> = BlockMarkers::of(4);
    assert_eq!(markers.first, Fp::one());
    assert_eq!(markers.common, Fp::from(COMMON_RANGE_BITS));
    assert_eq!(markers.leading, Fp::from(4));
    assert_eq!(markers.last, Fp::zero());
}

#[test]
fn scalar_field_ledger() {
    let mut records: Records<Fq> = Records::new();
    records.assign_range_value(0, (Fq::from(0x0102), vec![Fq::from(2), Fq::from(1)]), 1);
    assert_eq!(records.range_fix_record[0], [Some(Fq::one()), None]);
    assert_eq!(records.range_fix_record[1], [None, Some(Fq::from(COMMON_RANGE_BITS))]);
    assert_eq!(records.range_fix_record[2], [None, Some(Fq::one())]);
    assert_eq!(records.range_fix_record[MAX_CHUNKS as usize], [Some(Fq::zero()), None]);
}

#[test]
fn block_with_given_markers() {
    let mut records: Records<Fp> = Records::new();
    let markers = BlockMarkers { first: f(91), common: f(92), leading: f(93), last: f(94) };
    let handle = records.place_range_value(2, (f(7), vec![f(1), f(2), f(3)]), markers);
    assert_eq!(handle, AssignedValue::new(Chip::RangeChip, 0, 2, f(7)));
    assert_eq!(records.range_fix_record[2], [Some(f(91)), None]);
    assert_eq!(records.range_fix_record[3], [None, Some(f(92))]);
    assert_eq!(records.range_fix_record[4], [None, Some(f(92))]);
    assert_eq!(records.range_fix_record[5], [None, Some(f(93))]);
    assert_eq!(records.range_fix_record[2 + MAX_CHUNKS as usize], [Some(f(94)), None]);
    assert_eq!(records.range_adv_record[2].0, Some(f(7)));
    assert_eq!(records.range_adv_record[3].0, Some(f(1)));
    assert_eq!(records.range_adv_record[5].0, Some(f(3)));
    assert_eq!(records.range_adv_record[6].0, None);
    let single = records.place_single_range_value(20, f(5), f(95));
    assert_eq!(single.cell, Cell::new(Chip::RangeChip, 0, 20));
    assert_eq!(records.range_fix_record[20], [None, Some(f(95))]);
    assert_eq!(records.range_adv_record[20], (Some(f(5)), false));
}
