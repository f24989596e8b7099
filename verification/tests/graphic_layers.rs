use epaint::emath::TSTransform;
use epaint::{pos2, vec2, Color32, Rect, Shape};
use paint_layers::{ClippedShape, GraphicLayers, Id, LayerId, LayerTransforms, Order, ShapeIdx};

fn clip() -> Rect {
    Rect::from_min_max(pos2(0.0, 0.0), pos2(100.0, 50.0))
}

fn dot(x: f32) -> Shape {
    Shape::circle_filled(pos2(x, 0.0), 1.0, Color32::WHITE)
}

fn layer(order: Order, name: &str) -> LayerId {
    LayerId::new(order, Id::new(name))
}

fn shapes_of(entries: &[ClippedShape]) -> Vec<Shape> {
    entries.iter().map(|entry| entry.shape.clone()).collect()
}

#[test]
fn background_is_painted_before_middle() {
    let mut layers = GraphicLayers::default();
    let a = layer(Order::Middle, "A");
    let b = layer(Order::Background, "B");
    layers.entry(a).add(clip(), dot(1.0));
    layers.entry(a).add(clip(), dot(2.0));
    layers.entry(b).add(clip(), dot(3.0));
    let out = layers.drain(&[], &LayerTransforms::new());
    assert_eq!(out.len(), 3);
    assert_eq!(shapes_of(&out), vec![dot(3.0), dot(1.0), dot(2.0)]);
    for entry in &out {
        assert_eq!(entry.clip_rect, clip());
    }
}

#[test]
fn categories_come_in_paint_order() {
    let mut layers = GraphicLayers::new();
    layers.entry(layer(Order::Debug, "e")).add(clip(), dot(5.0));
    layers.entry(layer(Order::Tooltip, "d")).add(clip(), dot(4.0));
    layers.entry(layer(Order::Foreground, "c")).add(clip(), dot(3.0));
    layers.entry(layer(Order::Middle, "b")).add(clip(), dot(2.0));
    layers.entry(layer(Order::Background, "a")).add(clip(), dot(1.0));
    let out = layers.drain(&[], &LayerTransforms::new());
    assert_eq!(shapes_of(&out), vec![dot(1.0), dot(2.0), dot(3.0), dot(4.0), dot(5.0)]);
}

#[test]
fn area_order_beats_creation_order() {
    let mut layers = GraphicLayers::default();
    let x = layer(Order::Middle, "X");
    let y = layer(Order::Middle, "Y");
    layers.entry(x).add(clip(), dot(1.0));
    layers.entry(x).add(clip(), dot(2.0));
    layers.entry(y).add(clip(), dot(3.0));
    let out = layers.drain(&[y, x], &LayerTransforms::new());
    assert_eq!(shapes_of(&out), vec![dot(3.0), dot(1.0), dot(2.0)]);
}

#[test]
fn unnamed_layers_follow_in_creation_order() {
    let mut layers = GraphicLayers::default();
    let first = layer(Order::Middle, "first");
    let second = layer(Order::Middle, "second");
    let third = layer(Order::Middle, "third");
    layers.entry(first).add(clip(), dot(1.0));
    layers.entry(second).add(clip(), dot(2.0));
    layers.entry(third).add(clip(), dot(3.0));
    layers.entry(first).add(clip(), dot(4.0));
    let out = layers.drain(&[third], &LayerTransforms::new());
    assert_eq!(shapes_of(&out), vec![dot(3.0), dot(1.0), dot(4.0), dot(2.0)]);
}

#[test]
fn a_layer_named_twice_is_painted_once() {
    let mut layers = GraphicLayers::default();
    let x = layer(Order::Foreground, "X");
    let y = layer(Order::Foreground, "Y");
    layers.entry(x).add(clip(), dot(1.0));
    layers.entry(y).add(clip(), dot(2.0));
    let out = layers.drain(&[y, x, y, y, x], &LayerTransforms::new());
    assert_eq!(shapes_of(&out), vec![dot(2.0), dot(1.0)]);
}

#[test]
fn area_order_may_name_what_is_not_there() {
    let mut layers = GraphicLayers::default();
    let x = layer(Order::Middle, "X");
    layers.entry(x).add(clip(), dot(1.0));
    let stranger = layer(Order::Middle, "stranger");
    let other_category = layer(Order::Tooltip, "X");
    let out = layers.drain(&[stranger, other_category, x], &LayerTransforms::new());
    assert_eq!(shapes_of(&out), vec![dot(1.0)]);
    assert!(layers.get(stranger).is_none());
    assert!(layers.get(other_category).is_none());
}

#[test]
fn same_id_in_two_categories_is_two_layers() {
    let mut layers = GraphicLayers::default();
    let low = layer(Order::Background, "same");
    let high = layer(Order::Tooltip, "same");
    layers.entry(high).add(clip(), dot(2.0));
    layers.entry(low).add(clip(), dot(1.0));
    assert_eq!(layers.get(low).unwrap().all_entries().len(), 1);
    assert_eq!(layers.get(high).unwrap().all_entries().len(), 1);
    let out = layers.drain(&[high, low], &LayerTransforms::new());
    assert_eq!(shapes_of(&out), vec![dot(1.0), dot(2.0)]);
}

#[test]
fn drain_takes_a_layer_to_global_space() {
    let mut layers = GraphicLayers::default();
    let moved = layer(Order::Middle, "moved");
    let fixed = layer(Order::Middle, "fixed");
    layers.entry(moved).add(clip(), dot(1.0));
    layers.entry(moved).add(clip(), dot(2.0));
    layers.entry(fixed).add(clip(), dot(3.0));
    let mut to_global = LayerTransforms::new();
    to_global.insert(moved, TSTransform::new(vec2(10.0, 20.0), 2.0));
    let out = layers.drain(&[], &to_global);
    assert_eq!(out.len(), 3);
    let moved_clip = Rect::from_min_max(pos2(10.0, 20.0), pos2(210.0, 120.0));
    assert_eq!(
        out[0],
        ClippedShape {
            clip_rect: moved_clip,
            shape: Shape::circle_filled(pos2(12.0, 20.0), 2.0, Color32::WHITE),
        }
    );
    assert_eq!(
        out[1],
        ClippedShape {
            clip_rect: moved_clip,
            shape: Shape::circle_filled(pos2(14.0, 20.0), 2.0, Color32::WHITE),
        }
    );
    assert_eq!(out[2], ClippedShape { clip_rect: clip(), shape: dot(3.0) });
}

#[test]
fn drain_transforms_named_layers_too() {
    let mut layers = GraphicLayers::default();
    let moved = layer(Order::Middle, "moved");
    layers.entry(moved).add(clip(), dot(1.0));
    let mut to_global = LayerTransforms::new();
    to_global.insert(moved, TSTransform::from_translation(vec2(5.0, 7.0)));
    to_global.insert(layer(Order::Tooltip, "moved"), TSTransform::from_scaling(9.0));
    let out = layers.drain(&[moved], &to_global);
    assert_eq!(out.len(), 1);
    assert_eq!(out[0].clip_rect, Rect::from_min_max(pos2(5.0, 7.0), pos2(105.0, 57.0)));
    assert_eq!(out[0].shape, Shape::circle_filled(pos2(6.0, 7.0), 1.0, Color32::WHITE));
}

#[test]
fn drain_leaves_used_layers_empty_but_present() {
    let mut layers = GraphicLayers::default();
    let x = layer(Order::Middle, "X");
    layers.entry(x).add(clip(), dot(1.0));
    let out = layers.drain(&[], &LayerTransforms::new());
    assert_eq!(out.len(), 1);
    let list = layers.get(x).expect("a layer that was painted to stays");
    assert!(list.is_empty());
    assert_eq!(list.next_idx(), ShapeIdx(0));
}

#[test]
fn unused_layer_is_removed_and_comes_back_fresh() {
    let mut layers = GraphicLayers::default();
    let tooltip = layer(Order::Tooltip, "tip");
    let window = layer(Order::Middle, "window");
    layers.entry(tooltip).add(clip(), dot(1.0));
    layers.entry(window).add(clip(), dot(2.0));
    let first = layers.drain(&[], &LayerTransforms::new());
    assert_eq!(first.len(), 2);
    assert!(layers.get(tooltip).is_some());

    layers.entry(window).add(clip(), dot(3.0));
    let second = layers.drain(&[], &LayerTransforms::new());
    assert_eq!(shapes_of(&second), vec![dot(3.0)]);
    assert!(layers.get(tooltip).is_none());
    assert!(layers.get_mut(tooltip).is_none());
    assert!(layers.get(window).is_some());

    let list = layers.entry(tooltip);
    assert!(list.is_empty());
    assert_eq!(list.add(clip(), dot(4.0)), ShapeIdx(0));
    let third = layers.drain(&[], &LayerTransforms::new());
    assert_eq!(shapes_of(&third), vec![dot(4.0)]);
}

#[test]
fn layer_touched_but_left_empty_is_removed() {
    let mut layers = GraphicLayers::default();
    let x = layer(Order::Middle, "X");
    assert!(layers.entry(x).is_empty());
    assert!(layers.get(x).is_some());
    let out = layers.drain(&[x], &LayerTransforms::new());
    assert!(out.is_empty());
    assert!(layers.get(x).is_none());
}

#[test]
fn second_drain_is_empty() {
    let mut layers = GraphicLayers::default();
    let x = layer(Order::Middle, "X");
    let y = layer(Order::Debug, "Y");
    layers.entry(x).add(clip(), dot(1.0));
    layers.entry(y).add(clip(), dot(2.0));
    let mut to_global = LayerTransforms::new();
    to_global.insert(x, TSTransform::from_scaling(2.0));
    let first = layers.drain(&[x], &to_global);
    assert_eq!(first.len(), 2);
    let second = layers.drain(&[x], &to_global);
    assert!(second.is_empty());
    assert!(layers.get(x).is_none());
    assert!(layers.get(y).is_none());
    let third = layers.drain(&[y, x], &LayerTransforms::new());
    assert!(third.is_empty());
}

#[test]
fn drain_of_nothing_is_nothing() {
    let mut layers = GraphicLayers::new();
    let out = layers.drain(&[layer(Order::Middle, "X")], &LayerTransforms::new());
    assert!(out.is_empty());
}

#[test]
fn get_does_not_create() {
    let mut layers = GraphicLayers::default();
    let x = layer(Order::Middle, "X");
    assert!(layers.get(x).is_none());
    assert!(layers.get_mut(x).is_none());
    assert!(layers.get(x).is_none());
    layers.entry(x);
    assert!(layers.get(x).is_some());
    assert!(layers.get_mut(x).is_some());
}

#[test]
fn entry_returns_the_same_list_again() {
    let mut layers = GraphicLayers::default();
    let x = layer(Order::Middle, "X");
    let y = layer(Order::Middle, "Y");
    assert_eq!(layers.entry(x).add(clip(), dot(1.0)), ShapeIdx(0));
    assert_eq!(layers.entry(y).add(clip(), dot(2.0)), ShapeIdx(0));
    assert_eq!(layers.entry(x).add(clip(), dot(3.0)), ShapeIdx(1));
    assert_eq!(shapes_of(layers.get(x).unwrap().all_entries()), vec![dot(1.0), dot(3.0)]);
    assert_eq!(shapes_of(layers.get(y).unwrap().all_entries()), vec![dot(2.0)]);
}

#[test]
fn get_mut_changes_the_layer() {
    let mut layers = GraphicLayers::default();
    let x = layer(Order::Middle, "X");
    let idx = layers.entry(x).add(clip(), Shape::Noop);
    layers.get_mut(x).unwrap().set(idx, clip(), dot(7.0));
    let out = layers.drain(&[], &LayerTransforms::new());
    assert_eq!(shapes_of(&out), vec![dot(7.0)]);
}

#[test]
fn clone_of_layers_drains_alike() {
    let mut layers = GraphicLayers::default();
    let x = layer(Order::Middle, "X");
    let y = layer(Order::Middle, "Y");
    layers.entry(x).add(clip(), dot(1.0));
    layers.entry(y).add(clip(), dot(2.0));
    let mut copy = layers.clone();
    let out = layers.drain(&[y], &LayerTransforms::new());
    let out_of_copy = copy.drain(&[y], &LayerTransforms::new());
    assert_eq!(out, out_of_copy);
    assert_eq!(shapes_of(&out), vec![dot(2.0), dot(1.0)]);
}

#[test]
fn transforms_are_kept_per_layer() {
    let x = layer(Order::Middle, "X");
    let same_id_elsewhere = layer(Order::Tooltip, "X");
    let y = layer(Order::Middle, "Y");
    let mut to_global = LayerTransforms::default();
    assert_eq!(to_global.get(x), None);
    assert_eq!(to_global.insert(x, TSTransform::from_scaling(2.0)), None);
    assert_eq!(to_global.get(x), Some(TSTransform::from_scaling(2.0)));
    assert_eq!(to_global.get(same_id_elsewhere), None);
    assert_eq!(to_global.get(y), None);
    assert_eq!(
        to_global.insert(x, TSTransform::from_scaling(3.0)),
        Some(TSTransform::from_scaling(2.0))
    );
    assert_eq!(to_global.get(x), Some(TSTransform::from_scaling(3.0)));
    assert_eq!(to_global.insert(same_id_elsewhere, TSTransform::IDENTITY), None);
    assert_eq!(to_global.get(same_id_elsewhere), Some(TSTransform::IDENTITY));
    assert_eq!(to_global.get(x), Some(TSTransform::from_scaling(3.0)));
}
