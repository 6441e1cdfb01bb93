use voxelinator::material::{u8_to_unit, Color, Mtl, MtlBuilder, MtlParams};
use voxelinator::vec3::UNIT;

fn red() -> Color {
    Color { r: UNIT, g: 0, b: 0 }
}

#[test]
fn channel_levels_map_to_the_unit_interval() {
    assert_eq!(u8_to_unit(0), 0);
    assert_eq!(u8_to_unit(255), UNIT);
    assert_eq!(u8_to_unit(128), 501_961);
    assert_eq!(u8_to_unit(1), 3_922);
    assert_eq!(u8_to_unit(51), 200_000);
    assert_eq!(u8_to_unit(254), 996_078);
}

#[test]
fn colour_from_bytes() {
    assert_eq!(Color::from_rgb8(255, 0, 128), Color { r: UNIT, g: 0, b: 501_961 });
}

#[test]
fn material_from_colour_is_matte_with_white_highlight() {
    let m = Mtl::new_from_color(red());
    assert_eq!(m.ambient_color, red());
    assert_eq!(m.diffuse_color, red());
    assert_eq!(m.specular_color, Color { r: UNIT, g: UNIT, b: UNIT });
    assert_eq!(m.dissolve, None);
    assert_eq!(m.diffuse_texture_map, None);
    assert_eq!(m.illumination_model, None);
}

#[test]
fn builder_starts_without_optional_fields() {
    let params = MtlParams { ambient_color: red(), diffuse_color: red(), specular_color: red() };
    let m = Mtl::builder(params).build();
    assert_eq!(
        m,
        Mtl {
            ambient_color: red(),
            diffuse_color: red(),
            specular_color: red(),
            dissolve: None,
            diffuse_texture_map: None,
            illumination_model: None,
        }
    );
}

#[test]
fn builder_sets_each_field() {
    let white = Color { r: UNIT, g: UNIT, b: UNIT };
    let blue = Color { r: 0, g: 0, b: UNIT };
    let params = MtlParams { ambient_color: red(), diffuse_color: red(), specular_color: red() };
    let m = Mtl::builder(params)
        .with_dissolve(Some(UNIT))
        .with_diffuse_texture_map(Some(0))
        .with_illumination_model(Some(2))
        .with_ambient_color(white)
        .with_diffuse_color(blue)
        .with_specular_color(white)
        .build();
    assert_eq!(
        m,
        Mtl {
            ambient_color: white,
            diffuse_color: blue,
            specular_color: white,
            dissolve: Some(UNIT),
            diffuse_texture_map: Some(0),
            illumination_model: Some(2),
        }
    );
}

#[test]
fn builder_can_clear_an_optional_field() {
    let params = MtlParams { ambient_color: red(), diffuse_color: red(), specular_color: red() };
    let m = Mtl::builder(params).with_dissolve(Some(5)).with_dissolve(None).build();
    assert_eq!(m.dissolve, None);
}

#[test]
fn conversions_between_params_builder_and_material() {
    let params = MtlParams { ambient_color: red(), diffuse_color: red(), specular_color: red() };
    let direct: Mtl = Mtl::from(params);
    assert_eq!(direct, Mtl::builder(params).build());
    let builder: MtlBuilder = MtlBuilder::from(direct);
    assert_eq!(builder.inner, direct);
    let again: Mtl = Mtl::from(builder.with_illumination_model(Some(1)));
    assert_eq!(again.illumination_model, Some(1));
    assert_eq!(again.ambient_color, red());
}

#[test]
fn materials_are_equal_only_if_every_field_is() {
    let a = Mtl::new_from_color(red());
    assert_eq!(a, Mtl::new_from_color(red()));
    assert_ne!(a, Mtl::builder(MtlParams {
        ambient_color: red(),
        diffuse_color: red(),
        specular_color: Color { r: UNIT, g: UNIT, b: UNIT },
    }).with_dissolve(Some(UNIT)).build());
    assert_ne!(a, Mtl::new_from_color(Color { r: UNIT, g: 1, b: 0 }));
}
