use blockmodel::block::{
    Block, BlockAttributes, BlockCoordinates, BlockIndex, BlockInterface, BlockSize,
};
use blockmodel::bounds::{aggregate_bounds, box_frameable, frame_camera};
use blockmodel::gradient::{Gradient, GradientStop, Rgb};
use blockmodel::model::{BlockModel, BlockModelDB, BlockModelResource};
use blockmodel::render::{batch_bounds, BoundingBox, CuboidInstance};
use blockmodel::table::{ColumnValues, Table};

fn coords(x: i64, y: i64, z: i64) -> BlockCoordinates {
    BlockCoordinates { x, y, z }
}

fn bbox(min: (i64, i64, i64), max: (i64, i64, i64)) -> BoundingBox {
    BoundingBox { minimum: coords(min.0, min.1, min.2), maximum: coords(max.0, max.1, max.2) }
}

#[test]
fn aggregating_no_boxes_is_no_content() {
    assert_eq!(aggregate_bounds(&vec![]), None);
}

#[test]
fn aggregation_merges_componentwise() {
    let boxes = vec![bbox((0, 0, 0), (1, 1, 1)), bbox((10, -5, 0), (11, 1, 8))];
    assert_eq!(aggregate_bounds(&boxes), Some(bbox((0, -5, 0), (11, 1, 8))));
}

#[test]
fn aggregation_equals_the_box_of_all_instances() {
    let make = |min: (i64, i64, i64), max: (i64, i64, i64)| CuboidInstance {
        minimum: coords(min.0, min.1, min.2),
        maximum: coords(max.0, max.1, max.2),
        color: 0,
    };
    let batch1 = vec![make((0, 0, 0), (1, 1, 1)), make((4, 4, 4), (5, 5, 5))];
    let batch2 = vec![make((-3, 2, 0), (0, 3, 9)), make((1, 1, 1), (2, 2, 2))];
    let boxes = vec![batch_bounds(&batch1), batch_bounds(&batch2)];
    let mut union = batch1.clone();
    union.extend(batch2.clone());
    assert_eq!(aggregate_bounds(&boxes), Some(batch_bounds(&union)));
}

#[test]
fn camera_frames_the_box_along_the_view_axis() {
    let b = bbox((0, 0, 0), (10, 10, 10));
    let frame = frame_camera(&b, 1, 1);
    assert_eq!(frame.target, coords(5, 5, 5));
    assert_eq!(frame.position, coords(5, 5, 10));
    assert_eq!(frame.up, coords(0, 1, 0));
}

#[test]
fn camera_distance_scales_with_the_fov_tangent() {
    let b = bbox((0, 0, 0), (0, 20, 0));
    // A half-angle tangent of 1/2 doubles the framing distance.
    let frame = frame_camera(&b, 1, 2);
    assert_eq!(frame.target, coords(0, 10, 0));
    assert_eq!(frame.position, coords(0, 10, 20));
}

#[test]
fn registry_stores_and_replaces_models_by_name() {
    let model_a = BlockModel::new(
        "a".to_string(),
        Table::new(),
        "X".to_string(),
        "Y".to_string(),
        "Z".to_string(),
        "XS".to_string(),
        "YS".to_string(),
        "ZS".to_string(),
    );
    let mut replacement_table = Table::new();
    assert!(replacement_table
        .push_column("X".to_string(), ColumnValues::Number(vec![Some(1)])));
    let model_b = BlockModel::new(
        "a".to_string(),
        replacement_table,
        "X".to_string(),
        "Y".to_string(),
        "Z".to_string(),
        "XS".to_string(),
        "YS".to_string(),
        "ZS".to_string(),
    );

    let mut db = BlockModelDB::new();
    assert!(db.get("a").is_none());
    db.insert("a".to_string(), model_a.clone());
    assert_eq!(db.get("a").unwrap(), &model_a);
    db.insert("a".to_string(), model_b.clone());
    assert_eq!(db.get("a").unwrap(), &model_b);
    assert_eq!(db.block_models.len(), 1);
    assert!(db.get("b").is_none());
}

#[test]
fn default_resource_holds_no_model() {
    let resource = BlockModelResource::default();
    assert!(resource.block_model.is_none());
}

#[test]
fn blocks_carry_their_fields() {
    let mut block = Block::new(
        BlockIndex::default(),
        coords(1, 2, 3),
        BlockSize { x_size: 4, y_size: 5, z_size: 6 },
        vec![("ore".to_string(), BlockAttributes::Number(9))],
    );
    assert_eq!(block.index(), BlockIndex { i: 0, j: 0, k: 0 });
    assert_eq!(block.coordinates(), coords(1, 2, 3));
    assert_eq!(block.size(), BlockSize { x_size: 4, y_size: 5, z_size: 6 });
    block.set_index(BlockIndex { i: 1, j: 2, k: 3 });
    assert_eq!(block.index(), BlockIndex { i: 1, j: 2, k: 3 });
}

#[test]
fn block_indices_order_lexicographically() {
    let a = BlockIndex { i: 0, j: 5, k: 9 };
    let b = BlockIndex { i: 1, j: 0, k: 0 };
    let c = BlockIndex { i: 1, j: 0, k: 1 };
    assert!(a.le(&b));
    assert!(b.le(&c));
    assert!(!c.le(&b));
    assert!(a.le(&a));
    assert!(a < b && b < c);
}

#[test]
fn gradients_survive_a_full_pipeline_round() {
    // The merged box over the batches of a real pass frames the camera.
    let mut table = Table::new();
    for (name, vals) in [
        ("X", vec![Some(0), Some(10)]),
        ("Y", vec![Some(0), Some(0)]),
        ("Z", vec![Some(0), Some(0)]),
        ("XS", vec![Some(1), Some(1)]),
        ("YS", vec![Some(1), Some(1)]),
        ("ZS", vec![Some(1), Some(1)]),
        ("grade", vec![Some(5), Some(15)]),
    ] {
        assert!(table.push_column(name.to_string(), ColumnValues::Number(vals)));
    }
    let model = BlockModel::new(
        "pit".to_string(),
        table,
        "X".to_string(),
        "Y".to_string(),
        "Z".to_string(),
        "XS".to_string(),
        "YS".to_string(),
        "ZS".to_string(),
    );
    let gradient = Gradient::new(vec![
        GradientStop { position: 0, color: Rgb { r: 0, g: 0, b: 0 } },
        GradientStop { position: 100, color: Rgb { r: 255, g: 255, b: 255 } },
    ])
    .unwrap();
    let pairs = model.resolve_and_batch("grade", &gradient, 1).unwrap();
    let boxes: Vec<BoundingBox> = pairs.iter().map(|p| p.1).collect();
    let merged = aggregate_bounds(&boxes).unwrap();
    assert_eq!(merged, bbox((0, 0, 0), (11, 1, 1)));
    let frame = frame_camera(&merged, 1, 1);
    assert_eq!(frame.target, coords(5, 0, 0));
}

#[test]
fn frameable_boxes_are_ordered_and_in_span() {
    assert!(box_frameable(&bbox((0, 0, 0), (10, 10, 10))));
    assert!(box_frameable(&bbox((-5, -5, -5), (-5, -5, -5))));
    // Unordered corners, as a negative block size produces, are refused.
    assert!(!box_frameable(&bbox((0, 0, 0), (-1, 10, 10))));
    // A corner past twice the fixed-point limit is refused.
    assert!(!box_frameable(&bbox((0, 0, 0), (2_000_000_000_000_001, 1, 1))));
}
