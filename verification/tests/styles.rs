use bevy_reactor::gradient::ColorGradient;
use bevy_reactor::style::{StyleBuilder, StyleBuilderZIndex, StyleCommands, ZIndex, ZIndexEdit, ZIndexParam};
use bevy_reactor::text_styles::{
    compute_inherited_style, InheritableFontStyles, TextStyle, DEFAULT_COLOR, DEFAULT_FONT, DEFAULT_FONT_SIZE,
};
use bevy_reactor::store::Store;

const STYLES: u64 = 3;

fn styles(font: Option<u64>, font_size: Option<f32>, color: Option<u32>) -> InheritableFontStyles {
    InheritableFontStyles { font, font_size: font_size.map(f32::to_bits), color }
}

#[test]
fn z_index_calls_chain() {
    let mut style = StyleBuilder::new();
    style.z_index(3).z_index(0).z_index(5);
    assert_eq!(style.z_index, Some(ZIndex(5)));
}

#[test]
fn queued_z_index_edits_apply_in_order() {
    let mut commands = StyleCommands::new();
    commands.z_index(4).z_index(0);
    assert_eq!(commands.edits, vec![ZIndexEdit::Insert(ZIndex(4)), ZIndexEdit::Remove]);
    let mut style = StyleBuilder { z_index: Some(ZIndex(9)) };
    commands.apply(&mut style);
    assert_eq!(style.z_index, None);
    commands.z_index(ZIndex(7));
    commands.apply(&mut style);
    assert_eq!(style.z_index, Some(ZIndex(7)));
    StyleCommands::new().apply(&mut style);
    assert_eq!(style.z_index, Some(ZIndex(7)));
}

#[test]
fn font_styles_are_final_when_all_are_set() {
    assert!(!InheritableFontStyles::default().is_final());
    assert!(!styles(Some(1), Some(10.), None).is_final());
    assert!(!styles(None, Some(10.), Some(2)).is_final());
    assert!(!styles(Some(1), None, Some(2)).is_final());
    assert!(styles(Some(1), Some(10.), Some(2)).is_final());
}

#[test]
fn merge_fills_only_what_is_open() {
    let mut own = styles(Some(1), None, None);
    own.merge(&styles(Some(9), Some(20.), None));
    assert_eq!(own, styles(Some(1), Some(20.), None));
    own.merge(&styles(None, Some(30.), Some(5)));
    assert_eq!(own, styles(Some(1), Some(20.), Some(5)));
    own.merge(&InheritableFontStyles::default());
    assert_eq!(own, styles(Some(1), Some(20.), Some(5)));
}

#[test]
fn text_takes_each_property_from_the_nearest_node() {
    let mut world: Store<InheritableFontStyles> = Store::new();
    let root = world.spawn_empty();
    let panel = world.spawn_child(root).unwrap();
    let label = world.spawn_child(panel).unwrap();
    let text = world.spawn_child(label).unwrap();
    world.insert(root, STYLES, styles(Some(1), Some(16.), Some(0x000000FF))).unwrap();
    world.insert(panel, STYLES, styles(None, Some(20.), None)).unwrap();
    world.insert(label, STYLES, styles(Some(7), None, None)).unwrap();
    assert_eq!(
        compute_inherited_style(&world, text, STYLES),
        TextStyle { font: 7, font_size: 20f32.to_bits(), color: 0x000000FF }
    );
    assert_eq!(
        compute_inherited_style(&world, panel, STYLES),
        TextStyle { font: 1, font_size: 20f32.to_bits(), color: 0x000000FF }
    );
    assert_eq!(
        compute_inherited_style(&world, root, STYLES),
        TextStyle { font: 1, font_size: 16f32.to_bits(), color: 0x000000FF }
    );
}

#[test]
fn text_without_styles_above_it_has_the_defaults() {
    let mut world: Store<InheritableFontStyles> = Store::new();
    let root = world.spawn_empty();
    let text = world.spawn_child(root).unwrap();
    assert_eq!(DEFAULT_FONT_SIZE, 12f32.to_bits());
    assert_eq!(
        compute_inherited_style(&world, text, STYLES),
        TextStyle { font: DEFAULT_FONT, font_size: DEFAULT_FONT_SIZE, color: DEFAULT_COLOR }
    );
    world.insert(root, STYLES, styles(None, None, Some(5))).unwrap();
    assert_eq!(
        compute_inherited_style(&world, text, STYLES),
        TextStyle { font: DEFAULT_FONT, font_size: DEFAULT_FONT_SIZE, color: 5 }
    );
    assert_eq!(
        compute_inherited_style(&world, text, STYLES + 1),
        TextStyle { font: DEFAULT_FONT, font_size: DEFAULT_FONT_SIZE, color: DEFAULT_COLOR }
    );
    assert_eq!(
        compute_inherited_style(&world, 40, STYLES),
        TextStyle { font: DEFAULT_FONT, font_size: DEFAULT_FONT_SIZE, color: DEFAULT_COLOR }
    );
}

#[test]
fn gradient_holds_its_stops_in_order() {
    let gradient = ColorGradient::new(&[(1.0f32, 0.0f32), (0.5, 0.5), (0.0, 1.0)]);
    assert_eq!(gradient.len(), 3);
    assert!(!gradient.is_empty());
    assert_eq!(gradient.first(), Some((1.0, 0.0)));
    assert_eq!(gradient.last(), Some((0.0, 1.0)));
}

#[test]
fn empty_and_single_gradient() {
    let empty: ColorGradient<u32> = ColorGradient::new(&[]);
    assert_eq!(empty.len(), 0);
    assert!(empty.is_empty());
    assert_eq!(empty.first(), None);
    assert_eq!(empty.last(), None);
    let one = ColorGradient::single(0xFF0000FFu32);
    assert_eq!(one.len(), 1);
    assert_eq!(one.first(), Some(0xFF0000FF));
    assert_eq!(one.last(), Some(0xFF0000FF));
    let full = ColorGradient::new(&[1u32, 2, 3, 4, 5, 6, 7, 8]);
    assert_eq!(full.len(), 8);
    assert_eq!(full.last(), Some(8));
}

#[test]
fn z_index_zero_takes_the_index_off() {
    let mut style = StyleBuilder::new();
    assert_eq!(style.z_index, None);
    style.z_index(3);
    assert_eq!(style.z_index, Some(ZIndex(3)));
    style.z_index(0);
    assert_eq!(style.z_index, None);
    style.z_index(ZIndex(-2));
    assert_eq!(style.z_index, Some(ZIndex(-2)));
    style.z_index(ZIndex(0));
    assert_eq!(style.z_index, None);
}

#[test]
fn z_index_params() {
    assert_eq!(5.to_val(), ZIndex(5));
    assert_eq!(ZIndex(7).to_val(), ZIndex(7));
}
