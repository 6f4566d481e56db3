use blockmodel::gradient::{Gradient, GradientStop, Rgb};
use blockmodel::model::{BlockModel, ModelError};
use blockmodel::render::pack_rgba;
use blockmodel::table::{ColumnValues, Table};

fn stop(position: i64, r: u8, g: u8, b: u8) -> GradientStop {
    GradientStop { position, color: Rgb { r, g, b } }
}

fn test_gradient() -> Gradient {
    Gradient::new(vec![stop(0, 0, 0, 0), stop(100, 200, 100, 50)]).unwrap()
}

fn push_numbers(table: &mut Table, name: &str, vals: Vec<Option<i64>>) {
    assert!(table.push_column(name.to_string(), ColumnValues::Number(vals)));
}

fn geometry_table(
    x: Vec<Option<i64>>,
    y: Vec<Option<i64>>,
    z: Vec<Option<i64>>,
    xs: Vec<Option<i64>>,
    ys: Vec<Option<i64>>,
    zs: Vec<Option<i64>>,
    attr: Vec<Option<i64>>,
) -> Table {
    let mut table = Table::new();
    push_numbers(&mut table, "X", x);
    push_numbers(&mut table, "Y", y);
    push_numbers(&mut table, "Z", z);
    push_numbers(&mut table, "XS", xs);
    push_numbers(&mut table, "YS", ys);
    push_numbers(&mut table, "ZS", zs);
    push_numbers(&mut table, "grade", attr);
    table
}

fn bound_model(table: Table) -> BlockModel {
    BlockModel::new(
        "pit".to_string(),
        table,
        "X".to_string(),
        "Y".to_string(),
        "Z".to_string(),
        "XS".to_string(),
        "YS".to_string(),
        "ZS".to_string(),
    )
}

fn two_row_model() -> BlockModel {
    let table = geometry_table(
        vec![Some(0), Some(10)],
        vec![Some(0), Some(0)],
        vec![Some(0), Some(0)],
        vec![Some(1), Some(1)],
        vec![Some(1), Some(1)],
        vec![Some(1), Some(1)],
        vec![Some(5), Some(15)],
    );
    bound_model(table)
}

#[test]
fn two_row_scenario_batches() {
    let model = two_row_model();
    let gradient = test_gradient();

    assert_eq!(model.attribute_domain("grade").unwrap(), (5, 15));

    let pairs = model.resolve_and_batch("grade", &gradient, 1).unwrap();
    assert_eq!(pairs.len(), 2);

    assert_eq!(pairs[0].0.instances.len(), 1);
    let first = pairs[0].0.instances[0];
    assert_eq!((first.minimum.x, first.minimum.y, first.minimum.z), (0, 0, 0));
    assert_eq!((first.maximum.x, first.maximum.y, first.maximum.z), (1, 1, 1));
    assert_eq!(first.color, pack_rgba(gradient.sample(0)));
    assert_eq!((pairs[0].1.minimum.x, pairs[0].1.minimum.y, pairs[0].1.minimum.z), (0, 0, 0));
    assert_eq!((pairs[0].1.maximum.x, pairs[0].1.maximum.y, pairs[0].1.maximum.z), (1, 1, 1));

    assert_eq!(pairs[1].0.instances.len(), 1);
    let second = pairs[1].0.instances[0];
    assert_eq!((second.minimum.x, second.minimum.y, second.minimum.z), (10, 0, 0));
    assert_eq!((second.maximum.x, second.maximum.y, second.maximum.z), (11, 1, 1));
    assert_eq!(second.color, pack_rgba(gradient.sample(100)));
    assert_eq!((pairs[1].1.minimum.x, pairs[1].1.minimum.y, pairs[1].1.minimum.z), (10, 0, 0));
    assert_eq!((pairs[1].1.maximum.x, pairs[1].1.maximum.y, pairs[1].1.maximum.z), (11, 1, 1));
}

#[test]
fn corners_follow_row_values() {
    let table = geometry_table(
        vec![Some(2)],
        vec![Some(3)],
        vec![Some(4)],
        vec![Some(5)],
        vec![Some(6)],
        vec![Some(7)],
        vec![Some(1)],
    );
    let model = bound_model(table);
    let pairs = model.resolve_and_batch("grade", &test_gradient(), 1).unwrap();
    let inst = pairs[0].0.instances[0];
    assert_eq!((inst.minimum.x, inst.minimum.y, inst.minimum.z), (2, 3, 4));
    assert_eq!((inst.maximum.x, inst.maximum.y, inst.maximum.z), (7, 9, 11));
}

#[test]
fn incomplete_rows_are_skipped() {
    let table = geometry_table(
        vec![Some(0), Some(1), Some(2)],
        vec![Some(0), None, Some(0)],
        vec![Some(0), Some(0), Some(0)],
        vec![Some(1), Some(1), Some(1)],
        vec![Some(1), Some(1), Some(1)],
        vec![Some(1), Some(1), Some(1)],
        vec![Some(4), Some(5), Some(6)],
    );
    let model = bound_model(table);
    let pairs = model.resolve_and_batch("grade", &test_gradient(), 1).unwrap();
    assert_eq!(pairs.len(), 2);
    assert_eq!(pairs[0].0.instances[0].minimum.x, 0);
    assert_eq!(pairs[1].0.instances[0].minimum.x, 2);
}

#[test]
fn capacity_partitions_and_drops_trailing() {
    let n = 5i64;
    let table = geometry_table(
        (0..n).map(|i| Some(i)).collect(),
        (0..n).map(|_| Some(0)).collect(),
        (0..n).map(|_| Some(0)).collect(),
        (0..n).map(|_| Some(1)).collect(),
        (0..n).map(|_| Some(1)).collect(),
        (0..n).map(|_| Some(1)).collect(),
        (0..n).map(|i| Some(i)).collect(),
    );
    let model = bound_model(table);
    let pairs = model.resolve_and_batch("grade", &test_gradient(), 2).unwrap();
    assert_eq!(pairs.len(), 2);
    assert_eq!(pairs[0].0.instances.len(), 2);
    assert_eq!(pairs[1].0.instances.len(), 2);
    assert_eq!(pairs[0].0.instances[0].minimum.x, 0);
    assert_eq!(pairs[1].0.instances[1].minimum.x, 3);
}

#[test]
fn batching_twice_gives_identical_output() {
    let model = two_row_model();
    let gradient = test_gradient();
    let first = model.resolve_and_batch("grade", &gradient, 1).unwrap();
    let second = model.resolve_and_batch("grade", &gradient, 1).unwrap();
    assert_eq!(first, second);
}

#[test]
fn constant_attribute_colors_at_domain_minimum() {
    let table = geometry_table(
        vec![Some(0), Some(5), Some(10)],
        vec![Some(0), Some(0), Some(0)],
        vec![Some(0), Some(0), Some(0)],
        vec![Some(1), Some(1), Some(1)],
        vec![Some(1), Some(1), Some(1)],
        vec![Some(1), Some(1), Some(1)],
        vec![Some(7), Some(7), Some(7)],
    );
    let model = bound_model(table);
    let gradient = test_gradient();
    assert_eq!(model.attribute_domain("grade").unwrap(), (7, 7));
    let pairs = model.resolve_and_batch("grade", &gradient, 1).unwrap();
    let expected = pack_rgba(gradient.sample(0));
    assert_eq!(pairs.len(), 3);
    for pair in &pairs {
        assert_eq!(pair.0.instances[0].color, expected);
    }
}

#[test]
fn attribute_domain_bounds_present_values() {
    let table = geometry_table(
        vec![Some(0), Some(1), Some(2), Some(3)],
        vec![Some(0); 4],
        vec![Some(0); 4],
        vec![Some(1); 4],
        vec![Some(1); 4],
        vec![Some(1); 4],
        vec![Some(9), None, Some(-3), Some(4)],
    );
    let model = bound_model(table);
    let (lo, hi) = model.attribute_domain("grade").unwrap();
    assert_eq!((lo, hi), (-3, 9));
    for v in [9i64, -3, 4] {
        assert!(lo <= v && v <= hi);
    }
}

#[test]
fn single_distinct_value_collapses_domain() {
    let table = geometry_table(
        vec![Some(0), Some(1)],
        vec![Some(0); 2],
        vec![Some(0); 2],
        vec![Some(1); 2],
        vec![Some(1); 2],
        vec![Some(1); 2],
        vec![Some(7), None],
    );
    let model = bound_model(table);
    assert_eq!(model.attribute_domain("grade").unwrap(), (7, 7));
}

#[test]
fn missing_geometry_column_is_reported() {
    let mut table = Table::new();
    push_numbers(&mut table, "Y", vec![Some(0)]);
    push_numbers(&mut table, "Z", vec![Some(0)]);
    push_numbers(&mut table, "XS", vec![Some(1)]);
    push_numbers(&mut table, "YS", vec![Some(1)]);
    push_numbers(&mut table, "ZS", vec![Some(1)]);
    push_numbers(&mut table, "grade", vec![Some(1)]);
    let model = bound_model(table);
    let err = model.resolve_and_batch("grade", &test_gradient(), 1).unwrap_err();
    assert_eq!(err, ModelError::MissingColumn("X".to_string()));
}

#[test]
fn missing_attribute_column_is_reported() {
    let model = two_row_model();
    let err = model.resolve_and_batch("tonnage", &test_gradient(), 1).unwrap_err();
    assert_eq!(err, ModelError::MissingColumn("tonnage".to_string()));
    let err = model.attribute_domain("tonnage").unwrap_err();
    assert_eq!(err, ModelError::MissingColumn("tonnage".to_string()));
}

#[test]
fn label_column_is_a_type_mismatch() {
    let mut table = Table::new();
    assert!(table.push_column(
        "X".to_string(),
        ColumnValues::Label(vec![Some("a".to_string())]),
    ));
    push_numbers(&mut table, "Y", vec![Some(0)]);
    push_numbers(&mut table, "Z", vec![Some(0)]);
    push_numbers(&mut table, "XS", vec![Some(1)]);
    push_numbers(&mut table, "YS", vec![Some(1)]);
    push_numbers(&mut table, "ZS", vec![Some(1)]);
    push_numbers(&mut table, "grade", vec![Some(1)]);
    let model = bound_model(table);
    let err = model.resolve_and_batch("grade", &test_gradient(), 1).unwrap_err();
    assert_eq!(err, ModelError::TypeMismatch("X".to_string()));
}

#[test]
fn absent_attribute_values_are_an_empty_domain() {
    let table = geometry_table(
        vec![Some(0)],
        vec![Some(0)],
        vec![Some(0)],
        vec![Some(1)],
        vec![Some(1)],
        vec![Some(1)],
        vec![None],
    );
    let model = bound_model(table);
    let err = model.resolve_and_batch("grade", &test_gradient(), 1).unwrap_err();
    assert_eq!(err, ModelError::EmptyDomain);
    let err = model.attribute_domain("grade").unwrap_err();
    assert_eq!(err, ModelError::EmptyDomain);
}

#[test]
fn integer_columns_cast_to_numbers() {
    let mut table = Table::new();
    push_numbers(&mut table, "X", vec![Some(0)]);
    push_numbers(&mut table, "Y", vec![Some(0)]);
    push_numbers(&mut table, "Z", vec![Some(0)]);
    push_numbers(&mut table, "XS", vec![Some(1)]);
    push_numbers(&mut table, "YS", vec![Some(1)]);
    push_numbers(&mut table, "ZS", vec![Some(1)]);
    assert!(table.push_column("ore".to_string(), ColumnValues::Integer(vec![Some(42)])));
    let model = bound_model(table);
    assert_eq!(model.attribute_domain("ore").unwrap(), (42, 42));
}

#[test]
fn mesh_variant_emits_one_pair_per_full_row() {
    let model = two_row_model();
    let gradient = test_gradient();
    let meshes = model.resolve_and_mesh("grade", &gradient).unwrap();
    assert_eq!(meshes.len(), 2);
    assert_eq!((meshes[0].0.minimum.x, meshes[0].0.maximum.x), (0, 1));
    assert_eq!((meshes[1].0.minimum.x, meshes[1].0.maximum.x), (10, 11));
    assert_eq!(meshes[0].1, gradient.sample(0));
    assert_eq!(meshes[1].1, gradient.sample(100));
}

#[test]
fn renderer_entry_points_agree_with_the_primary_ones() {
    let model = two_row_model();
    let gradient = test_gradient();
    assert_eq!(
        model.aabb_instances("grade", &gradient, 1).unwrap(),
        model.resolve_and_batch("grade", &gradient, 1).unwrap(),
    );
    assert_eq!(
        model.mesh_material("grade", &gradient).unwrap(),
        model.resolve_and_mesh("grade", &gradient).unwrap(),
    );
}

#[test]
fn table_rejects_bad_columns() {
    let mut table = Table::new();
    push_numbers(&mut table, "X", vec![Some(0), Some(1)]);
    assert!(!table.push_column("X".to_string(), ColumnValues::Number(vec![Some(2), Some(3)])));
    assert!(!table.push_column("Y".to_string(), ColumnValues::Number(vec![Some(2)])));
    assert!(!table.push_column(
        "W".to_string(),
        ColumnValues::Number(vec![Some(2_000_000_000_000_000), Some(0)]),
    ));
    assert!(table.push_column("Y".to_string(), ColumnValues::Number(vec![Some(2), Some(3)])));
    assert_eq!(table.row_count(), 2);
}

#[test]
fn trailing_configuration_keeps_the_short_batch() {
    let n = 5i64;
    let table = geometry_table(
        (0..n).map(|i| Some(i)).collect(),
        (0..n).map(|_| Some(0)).collect(),
        (0..n).map(|_| Some(0)).collect(),
        (0..n).map(|_| Some(1)).collect(),
        (0..n).map(|_| Some(1)).collect(),
        (0..n).map(|_| Some(1)).collect(),
        (0..n).map(|i| Some(i)).collect(),
    );
    let model = bound_model(table);
    let pairs = model
        .resolve_and_batch_with_trailing("grade", &test_gradient(), 2)
        .unwrap();
    assert_eq!(pairs.len(), 3);
    assert_eq!(pairs[0].0.instances.len(), 2);
    assert_eq!(pairs[1].0.instances.len(), 2);
    assert_eq!(pairs[2].0.instances.len(), 1);
    assert_eq!(pairs[2].0.instances[0].minimum.x, 4);
    assert_eq!((pairs[2].1.minimum.x, pairs[2].1.maximum.x), (4, 5));
}

#[test]
fn trailing_configuration_matches_on_exact_multiples() {
    let model = two_row_model();
    let gradient = test_gradient();
    assert_eq!(
        model.resolve_and_batch_with_trailing("grade", &gradient, 1).unwrap(),
        model.resolve_and_batch("grade", &gradient, 1).unwrap(),
    );
}
