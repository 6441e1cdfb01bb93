//! Colours and surface materials.

use vstd::prelude::*;
use vstd::std_specs::convert::FromSpecImpl;
use crate::vec3::UNIT;

verus! {

/// An RGB colour; each channel is a fixed-point scalar, `UNIT` being full
/// intensity. Channels are not clamped.
#[derive(Clone, Copy, Debug, PartialEq, Eq, Structural)]
pub struct Color {
    pub r: i64,
    pub g: i64,
    pub b: i64,
}

/// The scalar nearest to `level / 255`.
pub open spec fn channel_of(level: int) -> int {
    (2 * level * UNIT + 255) / 510
}

/// Converts an 8-bit channel to a scalar in `0..=UNIT`, rounding to nearest.
pub fn u8_to_unit(level: u8) -> (r: i64)
    ensures
        r == channel_of(level as int),
        0 <= r <= UNIT,
        level == 0 ==> r == 0,
        level == 255 ==> r == UNIT,
{
    (2 * (level as i64) * UNIT + 255) / 510
}

impl Color {
    /// Full-intensity white.
    pub open spec fn white() -> Color {
        Color { r: UNIT, g: UNIT, b: UNIT }
    }

    /// The colour of an 8-bit RGB triple.
    pub fn from_rgb8(r: u8, g: u8, b: u8) -> (c: Color)
        ensures
            c == (Color {
                r: channel_of(r as int) as i64,
                g: channel_of(g as int) as i64,
                b: channel_of(b as int) as i64,
            }),
    {
        Color { r: u8_to_unit(r), g: u8_to_unit(g), b: u8_to_unit(b) }
    }
}

/// A surface material. Two materials are the same material exactly when all
/// six fields agree.
#[derive(Clone, Copy, Debug, PartialEq, Eq, Structural)]
pub struct Mtl {
    pub ambient_color: Color,
    pub diffuse_color: Color,
    pub specular_color: Color,
    /// Opacity, from 0 (transparent) to `UNIT` (opaque).
    pub dissolve: Option<i64>,
    /// Index into the mesh's list of texture files.
    pub diffuse_texture_map: Option<usize>,
    pub illumination_model: Option<i32>,
}

/// The fields a material cannot do without.
#[derive(Clone, Copy, Debug, PartialEq, Eq, Structural)]
pub struct MtlParams {
    pub ambient_color: Color,
    pub diffuse_color: Color,
    pub specular_color: Color,
}

/// A material under construction.
#[derive(Clone, Copy, Debug, PartialEq, Eq, Structural)]
pub struct MtlBuilder {
    pub inner: Mtl,
}

impl MtlParams {
    /// The material with these colours and every optional field absent.
    pub open spec fn material(self) -> Mtl {
        Mtl {
            ambient_color: self.ambient_color,
            diffuse_color: self.diffuse_color,
            specular_color: self.specular_color,
            dissolve: None,
            diffuse_texture_map: None,
            illumination_model: None,
        }
    }
}

impl Mtl {
    /// A matte material: `c` as ambient and diffuse colour, white specular.
    pub fn new_from_color(c: Color) -> (m: Mtl)
        ensures
            m == (MtlParams {
                ambient_color: c,
                diffuse_color: c,
                specular_color: Color::white(),
            }).material(),
    {
        let params = MtlParams {
            ambient_color: c,
            diffuse_color: c,
            specular_color: Color { r: UNIT, g: UNIT, b: UNIT },
        };
        Mtl::builder(params).build()
    }

    /// Starts a builder from the required fields.
    pub fn builder(params: MtlParams) -> (b: MtlBuilder)
        ensures
            b.inner == params.material(),
    {
        MtlBuilder {
            inner: Mtl {
                ambient_color: params.ambient_color,
                diffuse_color: params.diffuse_color,
                specular_color: params.specular_color,
                dissolve: None,
                diffuse_texture_map: None,
                illumination_model: None,
            },
        }
    }
}

impl MtlBuilder {
    /// Replaces the ambient colour.
    pub fn with_ambient_color(self, value: Color) -> (b: MtlBuilder)
        ensures
            b.inner == (Mtl { ambient_color: value, ..self.inner }),
    {
        MtlBuilder { inner: Mtl { ambient_color: value, ..self.inner } }
    }

    /// Replaces the diffuse colour.
    pub fn with_diffuse_color(self, value: Color) -> (b: MtlBuilder)
        ensures
            b.inner == (Mtl { diffuse_color: value, ..self.inner }),
    {
        MtlBuilder { inner: Mtl { diffuse_color: value, ..self.inner } }
    }

    /// Replaces the specular colour.
    pub fn with_specular_color(self, value: Color) -> (b: MtlBuilder)
        ensures
            b.inner == (Mtl { specular_color: value, ..self.inner }),
    {
        MtlBuilder { inner: Mtl { specular_color: value, ..self.inner } }
    }

    /// Replaces the opacity.
    pub fn with_dissolve(self, value: Option<i64>) -> (b: MtlBuilder)
        ensures
            b.inner == (Mtl { dissolve: value, ..self.inner }),
    {
        MtlBuilder { inner: Mtl { dissolve: value, ..self.inner } }
    }

    /// Replaces the texture reference.
    pub fn with_diffuse_texture_map(self, value: Option<usize>) -> (b: MtlBuilder)
        ensures
            b.inner == (Mtl { diffuse_texture_map: value, ..self.inner }),
    {
        MtlBuilder { inner: Mtl { diffuse_texture_map: value, ..self.inner } }
    }

    /// Replaces the illumination model.
    pub fn with_illumination_model(self, value: Option<i32>) -> (b: MtlBuilder)
        ensures
            b.inner == (Mtl { illumination_model: value, ..self.inner }),
    {
        MtlBuilder { inner: Mtl { illumination_model: value, ..self.inner } }
    }

    /// The finished material.
    pub fn build(self) -> (m: Mtl)
        ensures
            m == self.inner,
    {
        self.inner
    }
}

impl From<MtlParams> for Mtl {
    fn from(params: MtlParams) -> (m: Mtl) {
        Mtl::builder(params).build()
    }
}

impl FromSpecImpl<MtlParams> for Mtl {
    open spec fn obeys_from_spec() -> bool {
        true
    }

    open spec fn from_spec(params: MtlParams) -> Mtl {
        params.material()
    }
}

impl From<MtlBuilder> for Mtl {
    fn from(builder: MtlBuilder) -> (m: Mtl) {
        builder.inner
    }
}

impl FromSpecImpl<MtlBuilder> for Mtl {
    open spec fn obeys_from_spec() -> bool {
        true
    }

    open spec fn from_spec(builder: MtlBuilder) -> Mtl {
        builder.inner
    }
}

impl From<Mtl> for MtlBuilder {
    fn from(material: Mtl) -> (b: MtlBuilder) {
        MtlBuilder { inner: material }
    }
}

impl FromSpecImpl<Mtl> for MtlBuilder {
    open spec fn obeys_from_spec() -> bool {
        true
    }

    open spec fn from_spec(material: Mtl) -> MtlBuilder {
        MtlBuilder { inner: material }
    }
}

} // verus!
