//! The circuits that the library describes, handed to halo2's mock prover.
//!
//! `install` declares in a halo2 constraint system what a library constraint
//! system holds, and `replay` assigns what a library layouter holds. The
//! tests then let the mock prover judge the result.

use std::collections::HashMap;

use ff::PrimeField;
use halo2_proofs::circuit::Cell as ProverCell;
use halo2_proofs::circuit::Layouter as ProverLayouter;
use halo2_proofs::circuit::SimpleFloorPlanner;
use halo2_proofs::circuit::Value as ProverValue;
use halo2_proofs::dev::FailureLocation;
use halo2_proofs::dev::MockProver;
use halo2_proofs::dev::VerifyFailure;
use halo2_proofs::pasta::Fp;
use halo2_proofs::plonk::Advice;
use halo2_proofs::plonk::Any;
use halo2_proofs::plonk::Circuit;
use halo2_proofs::plonk::Column as ProverColumn;
use halo2_proofs::plonk::ConstraintSystem as ProverSystem;
use halo2_proofs::plonk::Error as ProverError;
use halo2_proofs::plonk::Expression as ProverExpression;
use halo2_proofs::plonk::Selector as ProverSelector;
use halo2_proofs::plonk::TableColumn as ProverTableColumn;
use halo2_proofs::plonk::VirtualCells;
use halo2_proofs::poly::Rotation as ProverRotation;

use range_gadgets::circuit::AssignedCell;
use range_gadgets::circuit::Assignment;
use range_gadgets::circuit::Cell;
use range_gadgets::circuit::ConstantConstraint;
use range_gadgets::circuit::CopyConstraint;
use range_gadgets::circuit::Layouter;
use range_gadgets::circuit::Region;
use range_gadgets::circuit::Value;
use range_gadgets::field::FieldElement;
use range_gadgets::gadgets::is_zero::Instructions;
use range_gadgets::gadgets::is_zero::IsZeroChip;
use range_gadgets::gadgets::is_zero::IsZeroConfig;
use range_gadgets::plonk::Column;
use range_gadgets::plonk::Constraint;
use range_gadgets::plonk::ConstraintSystem;
use range_gadgets::plonk::Expression;
use range_gadgets::plonk::FixedRole;
use range_gadgets::plonk::Rotation;
use range_gadgets::plonk::Selector;
use range_gadgets::range_check::decompose::DecomposeConfig;
use range_gadgets::range_check::expression_check;
use range_gadgets::range_check::lookup;
use range_gadgets::range_check::lookup_with_bits;

/// The halo2 columns and selectors that stand for those of the library.
#[derive(Clone, Debug)]
struct Wiring {
    advice: Vec<ProverColumn<Advice>>,
    tables: HashMap<usize, ProverTableColumn>,
    selectors: Vec<ProverSelector>,
}

fn to_fp(e: &FieldElement) -> Fp {
    Option::<Fp>::from(Fp::from_repr(e.to_repr())).unwrap()
}

fn convert(e: &Expression, cells: &mut VirtualCells<'_, Fp>, wiring: &Wiring) -> ProverExpression<Fp> {
    match e {
        Expression::Constant(c) => ProverExpression::Constant(to_fp(c)),
        Expression::Selector(s) => cells.query_selector(wiring.selectors[s.index]),
        Expression::Advice { column, rotation } => {
            cells.query_advice(wiring.advice[*column], ProverRotation(*rotation))
        }
        Expression::Negated(a) => -convert(a, cells, wiring),
        Expression::Sum(a, b) => convert(a, cells, wiring) + convert(b, cells, wiring),
        Expression::Product(a, b) => convert(a, cells, wiring) * convert(b, cells, wiring),
    }
}

fn install(meta: &mut ProverSystem<Fp>, system: &ConstraintSystem) -> Wiring {
    let mut wiring = Wiring { advice: Vec::new(), tables: HashMap::new(), selectors: Vec::new() };
    for equality in &system.advice {
        let column = meta.advice_column();
        if *equality {
            meta.enable_equality(column);
        }
        wiring.advice.push(column);
    }
    for (index, role) in system.fixed.iter().enumerate() {
        match role {
            FixedRole::Plain => {
                meta.fixed_column();
            }
            FixedRole::Constants => {
                let column = meta.fixed_column();
                meta.enable_constant(column);
            }
            FixedRole::Table => {
                wiring.tables.insert(index, meta.lookup_table_column());
            }
        }
    }
    for complex in &system.selectors {
        wiring.selectors.push(if *complex { meta.complex_selector() } else { meta.selector() });
    }
    for gate in &system.gates {
        meta.create_gate(gate.name, |cells| {
            gate.constraints
                .iter()
                .map(|c| (c.name, convert(&c.poly, cells, &wiring)))
                .collect::<Vec<_>>()
        });
    }
    for lookup in &system.lookups {
        meta.lookup(|cells| {
            lookup
                .inputs
                .iter()
                .map(|(input, table)| (convert(input, cells, &wiring), wiring.tables[&table.index]))
                .collect()
        });
    }
    wiring
}

fn to_prover_value(value: &Value<FieldElement>) -> ProverValue<Fp> {
    match value {
        Value::Unknown => ProverValue::unknown(),
        Value::Known(v) => ProverValue::known(to_fp(v)),
    }
}

fn replay(
    layouter: &mut impl ProverLayouter<Fp>,
    plan: &Layouter,
    wiring: &Wiring,
) -> Result<(), ProverError> {
    for column in &plan.tables {
        layouter.assign_table(
            || "table column",
            |mut table| {
                for (row, value) in column.values.iter().enumerate() {
                    table.assign_cell(
                        || "table cell",
                        wiring.tables[&column.column.index],
                        row,
                        || ProverValue::known(to_fp(value)),
                    )?;
                }
                Ok(())
            },
        )?;
    }
    let mut placed: HashMap<(usize, usize, usize), ProverCell> = HashMap::new();
    for (number, region) in plan.regions.iter().enumerate() {
        layouter.assign_region(
            || region.name,
            |mut r| {
                for (selector, offset) in &region.selectors {
                    wiring.selectors[selector.index].enable(&mut r, *offset)?;
                }
                for cell in &region.cells {
                    let assigned = r.assign_advice(
                        || "cell",
                        wiring.advice[cell.column.index],
                        cell.offset,
                        || to_prover_value(&cell.value),
                    )?;
                    placed.insert((number, cell.column.index, cell.offset), assigned.cell());
                }
                for copy in &region.copies {
                    let from = placed[&(copy.from.region, copy.from.column.index, copy.from.offset)];
                    let to = placed[&(number, copy.column.index, copy.offset)];
                    r.constrain_equal(from, to)?;
                }
                for constant in &region.constants {
                    let cell = placed[&(number, constant.column.index, constant.offset)];
                    r.constrain_constant(cell, to_fp(&constant.value))?;
                }
                Ok(())
            },
        )?;
    }
    Ok(())
}

fn known(x: u64) -> Value<FieldElement> {
    Value::known(FieldElement::from_u64(x))
}

// ---------------------------------------------------------------------------
// The range check by polynomial identity.

#[derive(Default)]
struct GateCircuit<const RANGE: usize> {
    value: Option<u64>,
}

impl<const RANGE: usize> Circuit<Fp> for GateCircuit<RANGE> {
    type Config = (expression_check::ExpressionConfig, Wiring);
    type FloorPlanner = SimpleFloorPlanner;

    fn without_witnesses(&self) -> Self {
        Self::default()
    }

    fn configure(meta: &mut ProverSystem<Fp>) -> Self::Config {
        let mut system = ConstraintSystem::new();
        let advice = system.advice_column();
        let config = expression_check::ExpressionConfig::configure(&mut system, advice, RANGE);
        (config, install(meta, &system))
    }

    fn synthesize(
        &self,
        config: Self::Config,
        mut layouter: impl ProverLayouter<Fp>,
    ) -> Result<(), ProverError> {
        let mut plan = Layouter::new();
        let value = match self.value {
            Some(v) => known(v),
            None => Value::unknown(),
        };
        config.0.assign(&mut plan, value).map_err(|_| ProverError::Synthesis)?;
        replay(&mut layouter, &plan, &config.1)
    }
}

#[test]
fn expression_check_test_range_check() {
    let k = 4;

    const RANGE: usize = 8;

    for i in 0..RANGE {
        let circuit = GateCircuit::<RANGE> { value: Some(i as u64) };

        let prover = MockProver::run(k, &circuit, vec![]).unwrap();

        prover.assert_satisfied();
    }

    let circuit = GateCircuit::<RANGE> { value: Some(RANGE as u64) };

    let prover = MockProver::run(k, &circuit, vec![]).unwrap();

    assert_eq!(
        prover.verify(),
        Err(vec![VerifyFailure::ConstraintNotSatisfied {
            constraint: ((0, "Range check").into(), 0, "range check").into(),
            location: FailureLocation::InRegion { region: (0, "range check").into(), offset: 0 },
            cell_values: vec![(((Any::Advice, 0).into(), 0).into(), "0x8".to_string())]
        }])
    )
}

#[test]
fn gate_rejects_every_value_from_the_range_on() {
    for value in [8u64, 9, 10, 255, 256, u64::MAX] {
        let circuit = GateCircuit::<8> { value: Some(value) };
        let prover = MockProver::run(4, &circuit, vec![]).unwrap();
        assert!(prover.verify().is_err(), "{} passed the check for 8", value);
    }
}

#[test]
fn gate_for_an_empty_range_rejects_zero() {
    let circuit = GateCircuit::<0> { value: Some(0) };
    let prover = MockProver::run(4, &circuit, vec![]).unwrap();
    assert!(prover.verify().is_err());
}

// ---------------------------------------------------------------------------
// The range check by gate or by lookup.

#[derive(Default)]
struct LookupCircuit<const RANGE: usize, const LOOKUP_RANGE: usize> {
    value: Option<u64>,
    larger_value: Option<u64>,
}

impl<const RANGE: usize, const LOOKUP_RANGE: usize> Circuit<Fp>
    for LookupCircuit<RANGE, LOOKUP_RANGE>
{
    type Config = (lookup::ExpressionConfig, Wiring);
    type FloorPlanner = SimpleFloorPlanner;

    fn without_witnesses(&self) -> Self {
        Self::default()
    }

    fn configure(meta: &mut ProverSystem<Fp>) -> Self::Config {
        let mut system = ConstraintSystem::new();
        let advice = system.advice_column();
        let config = lookup::ExpressionConfig::configure(&mut system, advice, RANGE, LOOKUP_RANGE);
        (config, install(meta, &system))
    }

    fn synthesize(
        &self,
        config: Self::Config,
        mut layouter: impl ProverLayouter<Fp>,
    ) -> Result<(), ProverError> {
        let mut plan = Layouter::new();
        let value = self.value.map_or(Value::unknown(), known);
        let larger_value = self.larger_value.map_or(Value::unknown(), known);
        config.0.assign(&mut plan, value, RANGE).map_err(|_| ProverError::Synthesis)?;
        config.0.assign(&mut plan, larger_value, LOOKUP_RANGE).map_err(|_| ProverError::Synthesis)?;
        config.0.lookup_table.load(&mut plan).map_err(|_| ProverError::Synthesis)?;
        replay(&mut layouter, &plan, &config.1)
    }
}

#[test]
fn lookup_test_range_check() {
    let k = 9;

    const RANGE: usize = 8;
    const LOOKUP_RANGE: usize = 256;

    for i in 0..RANGE {
        let circuit = LookupCircuit::<RANGE, LOOKUP_RANGE> {
            value: Some(i as u64),
            larger_value: Some(i as u64),
        };

        let prover = MockProver::run(k, &circuit, vec![]).unwrap();

        prover.assert_satisfied();
    }
}

#[test]
fn lookup_accepts_exactly_the_values_below_the_table_range() {
    for value in [0u64, 8, 152, 255] {
        let circuit = LookupCircuit::<8, 256> { value: Some(0), larger_value: Some(value) };
        let prover = MockProver::run(9, &circuit, vec![]).unwrap();
        assert_eq!(prover.verify(), Ok(()), "{} was refused", value);
    }
    for value in [256u64, 257, 1 << 20] {
        let circuit = LookupCircuit::<8, 256> { value: Some(0), larger_value: Some(value) };
        let prover = MockProver::run(9, &circuit, vec![]).unwrap();
        let failures = prover.verify().unwrap_err();
        assert_eq!(failures.len(), 1);
        assert!(matches!(failures[0], VerifyFailure::Lookup { lookup_index: 0, .. }));
    }
}

#[test]
fn lookup_circuit_checks_small_ranges_by_polynomial() {
    // The range 8 falls to the polynomial identity, so 8 itself fails there.
    let circuit = LookupCircuit::<8, 256> { value: Some(8), larger_value: Some(0) };
    let prover = MockProver::run(9, &circuit, vec![]).unwrap();
    let failures = prover.verify().unwrap_err();
    assert_eq!(failures.len(), 1);
    assert!(matches!(failures[0], VerifyFailure::ConstraintNotSatisfied { .. }));
}

// ---------------------------------------------------------------------------
// The range check by gate or by tagged lookup.

#[derive(Default)]
struct TaggedCircuit<const RANGE: usize, const LOOKUP_RANGE: usize> {
    value: Option<u64>,
    larger_value: Option<u64>,
    larger_value_bits: Option<u64>,
}

impl<const RANGE: usize, const LOOKUP_RANGE: usize> Circuit<Fp>
    for TaggedCircuit<RANGE, LOOKUP_RANGE>
{
    type Config = (lookup_with_bits::RangeCheckConfig, Wiring);
    type FloorPlanner = SimpleFloorPlanner;

    fn without_witnesses(&self) -> Self {
        Self::default()
    }

    fn configure(meta: &mut ProverSystem<Fp>) -> Self::Config {
        let mut system = ConstraintSystem::new();
        let advice = system.advice_column();
        let bits = system.advice_column();
        let config = lookup_with_bits::RangeCheckConfig::configure(
            &mut system,
            advice,
            bits,
            RANGE,
            LOOKUP_RANGE,
        );
        (config, install(meta, &system))
    }

    fn synthesize(
        &self,
        config: Self::Config,
        mut layouter: impl ProverLayouter<Fp>,
    ) -> Result<(), ProverError> {
        let mut plan = Layouter::new();
        let value = self.value.map_or(Value::unknown(), known);
        let larger_value = self.larger_value.map_or(Value::unknown(), known);
        let larger_value_bits = self.larger_value_bits.map_or(Value::unknown(), known);
        config
            .0
            .assign(&mut plan, value, known(0), RANGE)
            .map_err(|_| ProverError::Synthesis)?;
        config
            .0
            .assign(&mut plan, larger_value, larger_value_bits, LOOKUP_RANGE)
            .map_err(|_| ProverError::Synthesis)?;
        config.0.lookup_table.load(&mut plan).map_err(|_| ProverError::Synthesis)?;
        replay(&mut layouter, &plan, &config.1)
    }
}

#[test]
fn lookup_with_bits_test_range_check() {
    let k = 9;

    const RANGE: usize = 8;
    const LOOKUP_RANGE: usize = 256;

    let circuit = TaggedCircuit::<RANGE, LOOKUP_RANGE> {
        value: Some(5),
        larger_value: Some(152),
        larger_value_bits: Some(8),
    };

    let prover = MockProver::run(k, &circuit, vec![]).unwrap();

    prover.assert_satisfied();
}

#[test]
fn tagged_lookup_demands_the_bit_width_of_the_value() {
    let widths = [(0u64, 1u64), (1, 1), (2, 2), (3, 2), (7, 3), (8, 4), (152, 8), (255, 8)];
    for (value, width) in widths {
        for bits in 0..10u64 {
            let circuit = TaggedCircuit::<8, 256> {
                value: Some(0),
                larger_value: Some(value),
                larger_value_bits: Some(bits),
            };
            let prover = MockProver::run(9, &circuit, vec![]).unwrap();
            assert_eq!(prover.verify().is_ok(), bits == width, "value {} bits {}", value, bits);
        }
    }
}

/// A circuit with the tagged check declared, and one region with the given
/// cells and no selector enabled.
#[derive(Default)]
struct IdleCircuit {
    value: u64,
    bits: u64,
}

impl Circuit<Fp> for IdleCircuit {
    type Config = (lookup_with_bits::RangeCheckConfig, Wiring);
    type FloorPlanner = SimpleFloorPlanner;

    fn without_witnesses(&self) -> Self {
        Self::default()
    }

    fn configure(meta: &mut ProverSystem<Fp>) -> Self::Config {
        TaggedCircuit::<8, 256>::configure(meta)
    }

    fn synthesize(
        &self,
        config: Self::Config,
        mut layouter: impl ProverLayouter<Fp>,
    ) -> Result<(), ProverError> {
        let mut plan = Layouter::new();
        config.0.lookup_table.load(&mut plan).map_err(|_| ProverError::Synthesis)?;
        let mut region = Region::new("idle");
        region.assign_advice(config.0.value, 0, known(self.value)).map_err(|_| ProverError::Synthesis)?;
        region.assign_advice(config.0.bits, 0, known(self.bits)).map_err(|_| ProverError::Synthesis)?;
        plan.assign_region(region);
        replay(&mut layouter, &plan, &config.1)
    }
}

#[test]
fn switched_off_checks_accept_whatever_the_cells_hold() {
    for (value, bits) in [(0u64, 0u64), (5, 1), (999, 77), (u64::MAX, u64::MAX)] {
        let circuit = IdleCircuit { value, bits };
        let prover = MockProver::run(9, &circuit, vec![]).unwrap();
        assert_eq!(prover.verify(), Ok(()), "value {} bits {}", value, bits);
    }
}

#[test]
fn tagged_lookup_rejects_a_value_beyond_the_table() {
    let circuit = TaggedCircuit::<8, 256> {
        value: Some(0),
        larger_value: Some(256),
        larger_value_bits: Some(9),
    };
    let prover = MockProver::run(9, &circuit, vec![]).unwrap();
    assert!(prover.verify().is_err());
}

// ---------------------------------------------------------------------------
// The decomposition.

#[derive(Default)]
struct DecomposeCircuit<const LOOKUP_BITS: usize> {
    value: Option<FieldElement>,
    num_bits: usize,
    /// Lay the region out by hand, without the test that the value fits.
    unchecked: bool,
    /// Lay the region out by hand with these terms of the running sum after
    /// the first, and these widths.
    forged: Option<(Vec<u64>, Vec<u64>)>,
}

/// A region in the layout of the decomposition, with the cells as given.
fn region_with(
    config: &DecomposeConfig,
    source: AssignedCell,
    sums: &[FieldElement],
    widths: &[u64],
) -> Region {
    let mut region = Region::new("decompose");
    region.cells.push(Assignment { column: config.running_sum, offset: 0, value: source.value });
    region.copies.push(CopyConstraint {
        from: source.cell,
        column: config.running_sum,
        offset: 0,
    });
    for i in 0..widths.len() {
        region.cells.push(Assignment {
            column: config.running_sum,
            offset: i + 1,
            value: Value::known(sums[i]),
        });
        region.cells.push(Assignment {
            column: config.c_i_bits,
            offset: i + 1,
            value: known(widths[i]),
        });
        region.selectors.push((config.decompose_selector, i));
    }
    region.constants.push(ConstantConstraint {
        column: config.running_sum,
        offset: widths.len(),
        value: FieldElement::zero(),
    });
    region
}

/// The region that `DecomposeConfig::assign` lays out, but for any value.
fn decomposition_region(
    config: &DecomposeConfig,
    source: AssignedCell,
    value: &FieldElement,
    num_bits: usize,
) -> Region {
    let d = DecomposeConfig::decompose(value, num_bits, config.lookup_bits).unwrap();
    region_with(config, source, &d.running_sum[1..], &d.widths)
}

impl<const LOOKUP_BITS: usize> Circuit<Fp> for DecomposeCircuit<LOOKUP_BITS> {
    type Config = (DecomposeConfig, Wiring);
    type FloorPlanner = SimpleFloorPlanner;

    fn without_witnesses(&self) -> Self {
        Self::default()
    }

    fn configure(meta: &mut ProverSystem<Fp>) -> Self::Config {
        let mut system = ConstraintSystem::new();
        let running_sum = system.advice_column();
        let c_i_bits = system.advice_column();
        let config = DecomposeConfig::configure(&mut system, running_sum, c_i_bits, LOOKUP_BITS);
        (config, install(meta, &system))
    }

    fn synthesize(
        &self,
        config: Self::Config,
        mut layouter: impl ProverLayouter<Fp>,
    ) -> Result<(), ProverError> {
        let mut plan = Layouter::new();
        config.0.table.lookup_table.load(&mut plan).map_err(|_| ProverError::Synthesis)?;

        let value = self.value.map_or(Value::unknown(), Value::known);
        let mut region = Region::new("assign value somewhere");
        region
            .assign_advice(config.0.running_sum, 0, value)
            .map_err(|_| ProverError::Synthesis)?;
        let number = plan.assign_region(region);
        let source = AssignedCell {
            cell: Cell { region: number, column: config.0.running_sum, offset: 0 },
            value,
        };

        match (&self.forged, self.unchecked, &self.value) {
            (Some((sums, widths)), _, _) => {
                let sums: Vec<FieldElement> = sums.iter().map(|x| FieldElement::from_u64(*x)).collect();
                plan.assign_region(region_with(&config.0, source, &sums, widths));
            }
            (None, true, Some(v)) => {
                plan.assign_region(decomposition_region(&config.0, source, v, self.num_bits));
            }
            _ => {
                config
                    .0
                    .assign(&mut plan, source, self.num_bits)
                    .map_err(|_| ProverError::Synthesis)?;
            }
        }
        replay(&mut layouter, &plan, &config.1)
    }
}

#[test]
fn decompose_test_range_check() {
    let circuit = DecomposeCircuit::<4> {
        value: Some(FieldElement::from_u64(152)),
        num_bits: 8,
        unchecked: false,
        forged: None,
    };

    let prover = MockProver::run(5, &circuit, vec![]).unwrap();

    prover.assert_satisfied();
}

#[test]
fn decomposition_round_trip_is_accepted() {
    // (value, num_bits) with the value below 2^num_bits, for chunks of 4 bits
    let cases: [(u64, usize); 12] = [
        (0, 0),
        (0, 1),
        (1, 1),
        (0, 8),
        (5, 8),
        (152, 8),
        (255, 8),
        (22, 5),
        (31, 5),
        (0x1ff, 9),
        (0xabcd, 16),
        (0x1_0000, 17),
    ];
    for (value, num_bits) in cases {
        let circuit = DecomposeCircuit::<4> {
            value: Some(FieldElement::from_u64(value)),
            num_bits,
            unchecked: false,
            forged: None,
        };
        let prover = MockProver::run(6, &circuit, vec![]).unwrap();
        assert_eq!(prover.verify(), Ok(()), "value {} bits {}", value, num_bits);
    }
}

#[test]
fn decomposition_with_a_short_last_chunk_is_accepted() {
    // 10 bits in chunks of 4: two full chunks and one of 2 bits
    let circuit = DecomposeCircuit::<4> {
        value: Some(FieldElement::from_u64(0b11_0000_1010)),
        num_bits: 10,
        unchecked: false,
        forged: None,
    };
    let prover = MockProver::run(6, &circuit, vec![]).unwrap();
    assert_eq!(prover.verify(), Ok(()));
}

#[test]
fn decomposition_with_a_zero_last_chunk_is_accepted() {
    // the high nibble of 5 is zero, and is looked up with width one
    let circuit = DecomposeCircuit::<4> {
        value: Some(FieldElement::from_u64(5)),
        num_bits: 8,
        unchecked: false,
        forged: None,
    };
    let prover = MockProver::run(6, &circuit, vec![]).unwrap();
    assert_eq!(prover.verify(), Ok(()));
}

#[test]
fn decomposition_of_a_wide_value_is_refused_before_proving() {
    let circuit = DecomposeCircuit::<4> {
        value: Some(FieldElement::from_u64(256)),
        num_bits: 8,
        unchecked: false,
        forged: None,
    };
    assert!(MockProver::run(6, &circuit, vec![]).is_err());
}

#[test]
fn decomposition_of_a_wide_value_cannot_be_proved() {
    // Laid out without the test that the value fits, the circuit is not
    // satisfied: the running sum does not end in zero.
    let cases: [(u64, usize); 6] = [(256, 8), (257, 8), (0x1234, 8), (32, 5), (33, 5), (1, 0)];
    for (value, num_bits) in cases {
        let circuit = DecomposeCircuit::<4> {
            value: Some(FieldElement::from_u64(value)),
            num_bits,
            unchecked: true,
            forged: None,
        };
        let prover = MockProver::run(6, &circuit, vec![]).unwrap();
        let failures = prover.verify().unwrap_err();
        assert!(
            failures.iter().all(|f| matches!(f, VerifyFailure::Permutation { .. })),
            "value {} bits {}: {:?}",
            value,
            num_bits,
            failures
        );
    }
}

/// The number of bits of `c`, at least one.
fn width(c: u64) -> u64 {
    std::cmp::max(1, 64 - c.leading_zeros() as u64)
}

#[test]
fn no_witness_passes_for_a_value_beyond_whole_chunks() {
    // 8 bits in two chunks of 4: whatever the prover writes for the middle
    // term of the running sum and for the widths, 256 is refused.
    for middle in 0..40u64 {
        let low = 256u64.wrapping_sub(16 * middle);
        for widths in [vec![width(low), width(middle)], vec![1, 1], vec![4, 4]] {
            let circuit = DecomposeCircuit::<4> {
                value: Some(FieldElement::from_u64(256)),
                num_bits: 8,
                unchecked: false,
                forged: Some((vec![middle, 0], widths)),
            };
            let prover = MockProver::run(6, &circuit, vec![]).unwrap();
            assert!(prover.verify().is_err(), "256 passed with {} in the middle", middle);
        }
    }
    // the same cells are accepted for a value that fits
    let circuit = DecomposeCircuit::<4> {
        value: Some(FieldElement::from_u64(255)),
        num_bits: 8,
        unchecked: false,
        forged: Some((vec![15, 0], vec![4, 4])),
    };
    let prover = MockProver::run(6, &circuit, vec![]).unwrap();
    assert_eq!(prover.verify(), Ok(()));
}

#[test]
fn a_short_last_chunk_is_held_to_the_chunk_size_only() {
    // 5 bits in chunks of 4 leave one bit for the last chunk, but the lookup
    // holds a chunk to 4 bits: a prover that writes the chunks 0 and 2 gets
    // 32 through. `assign` writes no such cells: it refuses the value.
    let circuit = DecomposeCircuit::<4> {
        value: Some(FieldElement::from_u64(32)),
        num_bits: 5,
        unchecked: false,
        forged: Some((vec![2, 0], vec![1, 2])),
    };
    let prover = MockProver::run(6, &circuit, vec![]).unwrap();
    assert_eq!(prover.verify(), Ok(()));
    // beyond the whole chunks nothing gets through
    for middle in 0..20u64 {
        let circuit = DecomposeCircuit::<4> {
            value: Some(FieldElement::from_u64(256)),
            num_bits: 5,
            unchecked: false,
            forged: Some((vec![middle, 0], vec![width(256u64.wrapping_sub(16 * middle)), width(middle)])),
        };
        let prover = MockProver::run(6, &circuit, vec![]).unwrap();
        assert!(prover.verify().is_err());
    }
}

#[test]
fn decomposition_laid_out_by_hand_matches_assign() {
    let mut system = ConstraintSystem::new();
    let running_sum = system.advice_column();
    let c_i_bits = system.advice_column();
    let config = DecomposeConfig::configure(&mut system, running_sum, c_i_bits, 4);
    let value = FieldElement::from_u64(0xabcd);
    let source = AssignedCell {
        cell: Cell { region: 0, column: running_sum, offset: 0 },
        value: Value::known(value),
    };
    let mut plan = Layouter::new();
    config.assign(&mut plan, source, 16).unwrap();
    assert_eq!(plan.regions[0], decomposition_region(&config, source, &value, 16));
}

// ---------------------------------------------------------------------------
// The zero test.

/// A circuit with three advice columns: a value, its inverse, and a cell
/// that a gate holds equal to the indicator.
#[derive(Default)]
struct IsZeroCircuit {
    value: Option<FieldElement>,
    claimed: Option<u64>,
}

#[derive(Clone, Debug)]
struct IsZeroWiring {
    value: Column,
    claimed: Column,
    enable: Selector,
    config: IsZeroConfig,
    wiring: Wiring,
}

impl Circuit<Fp> for IsZeroCircuit {
    type Config = IsZeroWiring;
    type FloorPlanner = SimpleFloorPlanner;

    fn without_witnesses(&self) -> Self {
        Self::default()
    }

    fn configure(meta: &mut ProverSystem<Fp>) -> Self::Config {
        let mut system = ConstraintSystem::new();
        let value = system.advice_column();
        let value_inv = system.advice_column();
        let claimed = system.advice_column();
        let enable = system.selector();
        let config = IsZeroChip::configure(
            &mut system,
            Expression::query_selector(enable),
            Expression::query_advice(value, Rotation::cur()),
            value_inv,
        );
        let poly = Expression::query_selector(enable)
            .times(Expression::query_advice(claimed, Rotation::cur()).minus(config.expr()));
        system.create_gate("claim", vec![Constraint { name: "indicator", poly }]);
        let wiring = install(meta, &system);
        IsZeroWiring { value, claimed, enable, config, wiring }
    }

    fn synthesize(
        &self,
        config: Self::Config,
        mut layouter: impl ProverLayouter<Fp>,
    ) -> Result<(), ProverError> {
        let chip = IsZeroChip::construct(config.config.clone());
        let value = self.value.map_or(Value::unknown(), Value::known);
        let claimed = self.claimed.map_or(Value::unknown(), known);
        let mut region = Region::new("zero test");
        region.enable(config.enable, 0);
        region.assign_advice(config.value, 0, value).map_err(|_| ProverError::Synthesis)?;
        region.assign_advice(config.claimed, 0, claimed).map_err(|_| ProverError::Synthesis)?;
        chip.assign(&mut region, value, 0).map_err(|_| ProverError::Synthesis)?;
        let mut plan = Layouter::new();
        plan.assign_region(region);
        replay(&mut layouter, &plan, &config.wiring)
    }
}

#[test]
fn indicator_is_one_for_zero_and_zero_otherwise() {
    let minus_one = FieldElement::zero().minus(&FieldElement::one());
    let values = [
        FieldElement::zero(),
        FieldElement::one(),
        FieldElement::from_u64(2),
        FieldElement::from_u64(152),
        FieldElement::from_u64(u64::MAX),
        minus_one,
    ];
    for value in values {
        let indicator = if value.is_zero() { 1 } else { 0 };
        for claimed in [0u64, 1] {
            let circuit = IsZeroCircuit { value: Some(value), claimed: Some(claimed) };
            let prover = MockProver::run(4, &circuit, vec![]).unwrap();
            assert_eq!(
                prover.verify().is_ok(),
                claimed == indicator,
                "value {:?} claimed {}",
                value,
                claimed
            );
        }
    }
}
