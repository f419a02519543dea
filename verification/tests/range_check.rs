//! The range checks: what `configure` declares and what `assign` lays out.

use range_gadgets::circuit::Assignment;
use range_gadgets::circuit::Layouter;
use range_gadgets::circuit::Value;
use range_gadgets::field::FieldElement;
use range_gadgets::gadgets::range_check_with_bits;
use range_gadgets::plonk::Column;
use range_gadgets::plonk::ColumnKind;
use range_gadgets::plonk::Constraint;
use range_gadgets::plonk::ConstraintSystem;
use range_gadgets::plonk::Error;
use range_gadgets::plonk::Expression;
use range_gadgets::plonk::FixedRole;
use range_gadgets::plonk::Rotation;
use range_gadgets::plonk::Selector;
use range_gadgets::plonk::TableColumn;
use range_gadgets::range_check::expression_check;
use range_gadgets::range_check::expression_check::range_check_expression;
use range_gadgets::range_check::lookup;
use range_gadgets::range_check::lookup_with_bits;

fn fe(x: u64) -> FieldElement {
    FieldElement::from_u64(x)
}

fn known(x: u64) -> Value<FieldElement> {
    Value::known(fe(x))
}

fn constant(x: u64) -> Expression {
    Expression::constant(fe(x))
}

fn fixed() -> Column {
    Column { kind: ColumnKind::Fixed, index: 0 }
}

/// `(value - 0) * (value - 1) * ... * (value - (range - 1))`, from one.
fn product(value: &Expression, range: u64) -> Expression {
    let mut product = constant(1);
    for i in 0..range {
        product = product.times(value.clone().minus(constant(i)));
    }
    product
}

/// `(1 - selector) * 1 + selector * bits`.
fn switched_bits(selector: &Expression, bits: Expression) -> Expression {
    constant(1).minus(selector.clone()).times(constant(1)).plus(selector.clone().times(bits))
}

#[test]
fn range_expression_multiplies_the_differences() {
    let value = Expression::query_advice(Column { kind: ColumnKind::Advice, index: 0 }, Rotation::cur());
    assert_eq!(range_check_expression(&value, 0), constant(1));
    assert_eq!(
        range_check_expression(&value, 1),
        constant(1).times(value.clone().minus(constant(0)))
    );
    assert_eq!(
        range_check_expression(&value, 3),
        constant(1)
            .times(value.clone().minus(constant(0)))
            .times(value.clone().minus(constant(1)))
            .times(value.clone().minus(constant(2)))
    );
    assert_eq!(range_check_expression(&value, 8), product(&value, 8));
}

#[test]
fn gate_check_configure_declares_one_gate() {
    let mut system = ConstraintSystem::new();
    let advice = system.advice_column();
    let config = expression_check::ExpressionConfig::configure(&mut system, advice, 8);
    assert_eq!(config.value, advice);
    assert_eq!(config.selector, Selector { index: 0, complex: false });
    assert_eq!(system.selectors, vec![false]);
    assert_eq!(system.advice, vec![false]);
    assert!(system.fixed.is_empty());
    assert!(system.lookups.is_empty());
    assert_eq!(system.gates.len(), 1);
    assert_eq!(system.gates[0].name, "Range check");
    let value = Expression::query_advice(advice, Rotation::cur());
    assert_eq!(
        system.gates[0].constraints,
        vec![Constraint {
            name: "range check",
            poly: Expression::query_selector(config.selector).times(product(&value, 8)),
        }]
    );
}

#[test]
fn gate_check_assign_enables_the_selector_beside_the_value() {
    let mut system = ConstraintSystem::new();
    let advice = system.advice_column();
    let config = expression_check::ExpressionConfig::configure(&mut system, advice, 8);
    let mut layouter = Layouter::new();
    assert_eq!(config.assign(&mut layouter, known(5)), Ok(()));
    assert_eq!(config.assign(&mut layouter, Value::unknown()), Ok(()));
    assert_eq!(layouter.regions.len(), 2);
    let region = &layouter.regions[0];
    assert_eq!(region.name, "range check");
    assert_eq!(region.selectors, vec![(config.selector, 0)]);
    assert_eq!(region.cells, vec![Assignment { column: advice, offset: 0, value: known(5) }]);
    assert!(region.copies.is_empty() && region.constants.is_empty());
    assert_eq!(layouter.regions[1].cells[0].value, Value::Unknown);
    assert!(layouter.tables.is_empty());
}

#[test]
fn gate_check_assign_refuses_a_column_that_is_no_advice_column() {
    let config = expression_check::ExpressionConfig {
        value: fixed(),
        selector: Selector { index: 0, complex: false },
    };
    let mut layouter = Layouter::new();
    assert_eq!(config.assign(&mut layouter, known(5)), Err(Error::Configuration));
    assert_eq!(layouter, Layouter::new());
}

#[test]
fn lookup_check_configure_declares_gate_table_and_lookup() {
    let mut system = ConstraintSystem::new();
    let advice = system.advice_column();
    let config = lookup::ExpressionConfig::configure(&mut system, advice, 8, 256);
    assert_eq!(config.value, advice);
    assert_eq!(config.range, 8);
    assert_eq!(config.lookup_range, 256);
    assert_eq!(config.selector, Selector { index: 0, complex: false });
    assert_eq!(config.lookup_selector, Selector { index: 1, complex: true });
    assert_eq!(config.lookup_table.value, TableColumn { index: 0 });
    assert_eq!(config.lookup_table.lookup_range, 256);
    assert_eq!(system.selectors, vec![false, true]);
    assert_eq!(system.fixed, vec![FixedRole::Table]);

    let value = Expression::query_advice(advice, Rotation::cur());
    assert_eq!(system.gates.len(), 1);
    assert_eq!(system.gates[0].name, "Range check");
    assert_eq!(
        system.gates[0].constraints,
        vec![Constraint {
            name: "range check",
            poly: Expression::query_selector(config.selector).times(product(&value, 8)),
        }]
    );
    assert_eq!(system.lookups.len(), 1);
    assert_eq!(
        system.lookups[0].inputs,
        vec![(
            Expression::query_selector(config.lookup_selector).times(value),
            config.lookup_table.value
        )]
    );
}

#[test]
fn lookup_check_assign_picks_the_selector_by_the_range() {
    let mut system = ConstraintSystem::new();
    let advice = system.advice_column();
    let config = lookup::ExpressionConfig::configure(&mut system, advice, 8, 256);
    let mut layouter = Layouter::new();
    for range in [0usize, 1, 7, 8] {
        assert_eq!(config.assign(&mut layouter, known(3), range), Ok(()));
        let region = layouter.regions.last().unwrap();
        assert_eq!(region.name, "range check");
        assert_eq!(region.selectors, vec![(config.selector, 0)], "range {}", range);
        assert_eq!(region.cells, vec![Assignment { column: advice, offset: 0, value: known(3) }]);
    }
    for range in [9usize, 100, 256] {
        assert_eq!(config.assign(&mut layouter, known(3), range), Ok(()));
        let region = layouter.regions.last().unwrap();
        assert_eq!(region.name, "range check with lookup table");
        assert_eq!(region.selectors, vec![(config.lookup_selector, 0)], "range {}", range);
        assert_eq!(region.cells, vec![Assignment { column: advice, offset: 0, value: known(3) }]);
    }
    assert_eq!(layouter.regions.len(), 7);
}

#[test]
fn lookup_check_assign_refuses_a_range_beyond_the_table() {
    let mut system = ConstraintSystem::new();
    let advice = system.advice_column();
    let config = lookup::ExpressionConfig::configure(&mut system, advice, 8, 256);
    let mut layouter = Layouter::new();
    assert_eq!(config.assign(&mut layouter, known(3), 257), Err(Error::Configuration));
    assert_eq!(config.assign(&mut layouter, known(3), usize::MAX), Err(Error::Configuration));
    let miswired = lookup::ExpressionConfig { value: fixed(), ..config };
    assert_eq!(miswired.assign(&mut layouter, known(3), 8), Err(Error::Configuration));
    assert_eq!(miswired.assign(&mut layouter, known(3), 256), Err(Error::Configuration));
    assert_eq!(layouter, Layouter::new());
}

#[test]
fn tagged_check_configure_declares_gate_table_and_lookup() {
    let mut system = ConstraintSystem::new();
    let advice = system.advice_column();
    let bits = system.advice_column();
    let config = lookup_with_bits::RangeCheckConfig::configure(&mut system, advice, bits, 8, 256);
    assert_eq!((config.value, config.bits), (advice, bits));
    assert_eq!((config.range, config.lookup_range), (8, 256));
    assert_eq!(config.selector, Selector { index: 0, complex: false });
    assert_eq!(config.lookup_selector, Selector { index: 1, complex: true });
    assert_eq!(config.lookup_table.value, TableColumn { index: 0 });
    assert_eq!(config.lookup_table.bits, TableColumn { index: 1 });
    assert_eq!(config.lookup_table.lookup_range, 256);
    assert_eq!(system.fixed, vec![FixedRole::Table, FixedRole::Table]);
    assert_eq!(system.selectors, vec![false, true]);

    let value = Expression::query_advice(advice, Rotation::cur());
    let width = Expression::query_advice(bits, Rotation::cur());
    let selector = Expression::query_selector(config.lookup_selector);
    assert_eq!(system.gates.len(), 1);
    assert_eq!(
        system.gates[0].constraints,
        vec![Constraint {
            name: "range check",
            poly: Expression::query_selector(config.selector).times(product(&value, 8)),
        }]
    );
    assert_eq!(system.lookups.len(), 1);
    assert_eq!(
        system.lookups[0].inputs,
        vec![
            (selector.clone().times(value), config.lookup_table.value),
            (switched_bits(&selector, width), config.lookup_table.bits),
        ]
    );
}

#[test]
fn tagged_check_assign_writes_the_bits_for_the_lookup_only() {
    let mut system = ConstraintSystem::new();
    let advice = system.advice_column();
    let bits = system.advice_column();
    let config = lookup_with_bits::RangeCheckConfig::configure(&mut system, advice, bits, 8, 256);
    let mut layouter = Layouter::new();

    assert_eq!(config.assign(&mut layouter, known(5), known(0), 8), Ok(()));
    let region = &layouter.regions[0];
    assert_eq!(region.name, "range check");
    assert_eq!(region.selectors, vec![(config.selector, 0)]);
    assert_eq!(region.cells, vec![Assignment { column: advice, offset: 0, value: known(5) }]);

    assert_eq!(config.assign(&mut layouter, known(152), known(8), 256), Ok(()));
    let region = &layouter.regions[1];
    assert_eq!(region.name, "range check with lookup table");
    assert_eq!(region.selectors, vec![(config.lookup_selector, 0)]);
    assert_eq!(
        region.cells,
        vec![
            Assignment { column: advice, offset: 0, value: known(152) },
            Assignment { column: bits, offset: 0, value: known(8) },
        ]
    );
    assert!(region.copies.is_empty() && region.constants.is_empty());
}

#[test]
fn tagged_check_assign_refuses_what_is_miswired() {
    let mut system = ConstraintSystem::new();
    let advice = system.advice_column();
    let bits = system.advice_column();
    let config = lookup_with_bits::RangeCheckConfig::configure(&mut system, advice, bits, 8, 256);
    let mut layouter = Layouter::new();
    assert_eq!(config.assign(&mut layouter, known(5), known(3), 257), Err(Error::Configuration));

    let fixed_value = lookup_with_bits::RangeCheckConfig { value: fixed(), ..config };
    assert_eq!(fixed_value.assign(&mut layouter, known(5), known(3), 8), Err(Error::Configuration));
    assert_eq!(fixed_value.assign(&mut layouter, known(5), known(3), 9), Err(Error::Configuration));

    let fixed_bits = lookup_with_bits::RangeCheckConfig { bits: fixed(), ..config };
    assert_eq!(fixed_bits.assign(&mut layouter, known(5), known(3), 9), Err(Error::Configuration));
    let one_column = lookup_with_bits::RangeCheckConfig { bits: advice, ..config };
    assert_eq!(one_column.assign(&mut layouter, known(5), known(3), 9), Err(Error::Configuration));
    assert_eq!(layouter, Layouter::new());

    // the polynomial check does not touch the bits
    assert_eq!(fixed_bits.assign(&mut layouter, known(5), known(3), 8), Ok(()));
    assert_eq!(one_column.assign(&mut layouter, known(5), known(3), 8), Ok(()));
}

#[test]
fn tagged_lookup_gadget_takes_any_expressions() {
    let mut system = ConstraintSystem::new();
    let a = system.advice_column();
    let b = system.advice_column();
    let s = system.complex_selector();
    let value = Expression::query_advice(a, Rotation::cur())
        .minus(Expression::query_advice(a, Rotation::next()).times(constant(16)));
    let bits = Expression::query_advice(b, Rotation::next());
    let selector = Expression::query_selector(s);
    let config = range_check_with_bits::RangeCheckConfig::configure(
        &mut system,
        value.clone(),
        bits.clone(),
        selector.clone(),
        16,
    );
    assert_eq!(config.lookup_table.value, TableColumn { index: 0 });
    assert_eq!(config.lookup_table.bits, TableColumn { index: 1 });
    assert_eq!(config.lookup_table.lookup_range, 16);
    assert_eq!(system.fixed, vec![FixedRole::Table, FixedRole::Table]);
    assert!(system.gates.is_empty());
    assert_eq!(
        system.lookups[0].inputs,
        vec![
            (selector.clone().times(value), config.lookup_table.value),
            (switched_bits(&selector, bits), config.lookup_table.bits),
        ]
    );
}
