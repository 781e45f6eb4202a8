//! Scene-wide chunks: scene information, materials, nodes, lights, cameras
//! and key events.
//!
//! As in `geometry`, the format's `f64` values are held as their bit patterns.
use vstd::prelude::*;
use crate::error::{EnumKind, Failure, FailureAt, ReadError};
use crate::geometry::{Colour, Matrix4};
use crate::wire::{Wire, lemma_concat_assoc};

verus! {

/// The time range of a scene.
#[derive(Debug)]
pub struct SceneInfo1 {
    pub start_time: u64,
    pub end_time: u64,
}

type SceneInfo1Fields = (u64, u64);

impl SceneInfo1 {
    pub open spec fn fields(self) -> (u64, u64) {
        (self.start_time, self.end_time)
    }
}

impl Wire for SceneInfo1 {
    type Model = SceneInfo1;

    open spec fn model(&self) -> SceneInfo1 {
        *self
    }

    open spec fn writable(m: SceneInfo1) -> bool {
        SceneInfo1Fields::writable(m.fields())
    }

    open spec fn wf(m: SceneInfo1) -> bool {
        SceneInfo1Fields::wf(m.fields())
    }

    open spec fn encode(m: SceneInfo1) -> Seq<u8> {
        SceneInfo1Fields::encode(m.fields())
    }

    open spec fn decode(s: Seq<u8>, pos: int) -> Result<(SceneInfo1, int), FailureAt> {
        match SceneInfo1Fields::decode(s, pos) {
            Ok(((start_time, end_time), p)) => Ok((SceneInfo1 { start_time, end_time }, p)),
            Err(e) => Err(e),
        }
    }

    proof fn lemma_decode_ok(s: Seq<u8>, pos: int) {
        SceneInfo1Fields::lemma_decode_ok(s, pos);
    }

    proof fn lemma_decode_extend(s: Seq<u8>, t: Seq<u8>, pos: int) {
        SceneInfo1Fields::lemma_decode_extend(s, t, pos);
    }

    proof fn lemma_roundtrip(m: SceneInfo1, s: Seq<u8>, pos: int) {
        SceneInfo1Fields::lemma_roundtrip(m.fields(), s, pos);
    }

    fn read(s: &[u8], pos: usize) -> (r: Result<(SceneInfo1, usize), Failure>) {
        let ((start_time, end_time), p): (SceneInfo1Fields, usize) = SceneInfo1Fields::read(s, pos)?;
        Ok((SceneInfo1 { start_time, end_time }, p))
    }

    fn fits(&self) -> (r: bool) {
        true
    }

    fn write(&self, out: &mut Vec<u8>) {
        (self.start_time, self.end_time).write(out);
    }
}

/// The time range of a scene, who wrote it and from what.
#[derive(Debug)]
pub struct SceneInfo2 {
    pub start_time: u64,
    pub end_time: u64,
    pub author_tag: String,
    pub source_filename: String,
}

pub struct SceneInfo2Model {
    pub start_time: u64,
    pub end_time: u64,
    pub author_tag: Seq<char>,
    pub source_filename: Seq<char>,
}

type SceneInfo2Fields = (u64, (u64, (String, String)));

impl SceneInfo2Model {
    pub open spec fn fields(self) -> (u64, (u64, (Seq<char>, Seq<char>))) {
        (self.start_time, (self.end_time, (self.author_tag, self.source_filename)))
    }
}

impl Wire for SceneInfo2 {
    type Model = SceneInfo2Model;

    open spec fn model(&self) -> SceneInfo2Model {
        SceneInfo2Model {
            start_time: self.start_time,
            end_time: self.end_time,
            author_tag: self.author_tag.model(),
            source_filename: self.source_filename.model(),
        }
    }

    open spec fn writable(m: SceneInfo2Model) -> bool {
        SceneInfo2Fields::writable(m.fields())
    }

    open spec fn wf(m: SceneInfo2Model) -> bool {
        SceneInfo2Fields::wf(m.fields())
    }

    open spec fn encode(m: SceneInfo2Model) -> Seq<u8> {
        SceneInfo2Fields::encode(m.fields())
    }

    open spec fn decode(s: Seq<u8>, pos: int) -> Result<(SceneInfo2Model, int), FailureAt> {
        match SceneInfo2Fields::decode(s, pos) {
            Ok(((start_time, (end_time, (author_tag, source_filename))), p)) => Ok((SceneInfo2Model { start_time, end_time, author_tag, source_filename }, p)),
            Err(e) => Err(e),
        }
    }

    proof fn lemma_decode_ok(s: Seq<u8>, pos: int) {
        SceneInfo2Fields::lemma_decode_ok(s, pos);
    }

    proof fn lemma_decode_extend(s: Seq<u8>, t: Seq<u8>, pos: int) {
        SceneInfo2Fields::lemma_decode_extend(s, t, pos);
    }

    proof fn lemma_roundtrip(m: SceneInfo2Model, s: Seq<u8>, pos: int) {
        SceneInfo2Fields::lemma_roundtrip(m.fields(), s, pos);
    }

    fn read(s: &[u8], pos: usize) -> (r: Result<(SceneInfo2, usize), Failure>) {
        let ((start_time, (end_time, (author_tag, source_filename))), p): (SceneInfo2Fields, usize) = SceneInfo2Fields::read(s, pos)?;
        Ok((SceneInfo2 { start_time, end_time, author_tag, source_filename }, p))
    }

    fn fits(&self) -> (r: bool) {
        self.author_tag.fits() && self.source_filename.fits()
    }

    fn write(&self, out: &mut Vec<u8>) {
        let ghost start = out@;
        self.start_time.write(out);
        self.end_time.write(out);
        self.author_tag.write(out);
        self.source_filename.write(out);
        assert(out@ =~= start + Self::encode(self.model()));
    }
}

/// The time range of a scene, who wrote it, from what, and its kind.
#[derive(Debug)]
pub struct SceneInfo3 {
    pub start_time: u64,
    pub end_time: u64,
    pub author_tag: String,
    pub source_filename: String,
    pub scene_type: String,
}

pub struct SceneInfo3Model {
    pub start_time: u64,
    pub end_time: u64,
    pub author_tag: Seq<char>,
    pub source_filename: Seq<char>,
    pub scene_type: Seq<char>,
}

type SceneInfo3Fields = (u64, (u64, (String, (String, String))));

impl SceneInfo3Model {
    pub open spec fn fields(self) -> (u64, (u64, (Seq<char>, (Seq<char>, Seq<char>)))) {
        (self.start_time, (self.end_time, (self.author_tag, (self.source_filename, self.scene_type))))
    }
}

impl Wire for SceneInfo3 {
    type Model = SceneInfo3Model;

    open spec fn model(&self) -> SceneInfo3Model {
        SceneInfo3Model {
            start_time: self.start_time,
            end_time: self.end_time,
            author_tag: self.author_tag.model(),
            source_filename: self.source_filename.model(),
            scene_type: self.scene_type.model(),
        }
    }

    open spec fn writable(m: SceneInfo3Model) -> bool {
        SceneInfo3Fields::writable(m.fields())
    }

    open spec fn wf(m: SceneInfo3Model) -> bool {
        SceneInfo3Fields::wf(m.fields())
    }

    open spec fn encode(m: SceneInfo3Model) -> Seq<u8> {
        SceneInfo3Fields::encode(m.fields())
    }

    open spec fn decode(s: Seq<u8>, pos: int) -> Result<(SceneInfo3Model, int), FailureAt> {
        match SceneInfo3Fields::decode(s, pos) {
            Ok(((start_time, (end_time, (author_tag, (source_filename, scene_type)))), p)) => Ok((SceneInfo3Model { start_time, end_time, author_tag, source_filename, scene_type }, p)),
            Err(e) => Err(e),
        }
    }

    proof fn lemma_decode_ok(s: Seq<u8>, pos: int) {
        SceneInfo3Fields::lemma_decode_ok(s, pos);
    }

    proof fn lemma_decode_extend(s: Seq<u8>, t: Seq<u8>, pos: int) {
        SceneInfo3Fields::lemma_decode_extend(s, t, pos);
    }

    proof fn lemma_roundtrip(m: SceneInfo3Model, s: Seq<u8>, pos: int) {
        SceneInfo3Fields::lemma_roundtrip(m.fields(), s, pos);
    }

    fn read(s: &[u8], pos: usize) -> (r: Result<(SceneInfo3, usize), Failure>) {
        let ((start_time, (end_time, (author_tag, (source_filename, scene_type)))), p): (SceneInfo3Fields, usize) = SceneInfo3Fields::read(s, pos)?;
        Ok((SceneInfo3 { start_time, end_time, author_tag, source_filename, scene_type }, p))
    }

    fn fits(&self) -> (r: bool) {
        self.author_tag.fits() && self.source_filename.fits() && self.scene_type.fits()
    }

    fn write(&self, out: &mut Vec<u8>) {
        let ghost start = out@;
        self.start_time.write(out);
        self.end_time.write(out);
        self.author_tag.write(out);
        self.source_filename.write(out);
        self.scene_type.write(out);
        assert(out@ =~= start + Self::encode(self.model()));
    }
}

impl Default for SceneInfo3 {
    /// Zero times (the bit pattern of `0.0`) and empty strings.
    fn default() -> (r: SceneInfo3)
        ensures
            r.start_time == 0,
            r.end_time == 0,
            r.author_tag@ == Seq::<char>::empty(),
            r.source_filename@ == Seq::<char>::empty(),
            r.scene_type@ == Seq::<char>::empty(),
    {
        SceneInfo3 {
            start_time: 0,
            end_time: 0,
            author_tag: String::new(),
            source_filename: String::new(),
            scene_type: String::new(),
        }
    }
}

/// A material, by id and name, under its parent material.
#[derive(Debug)]
pub struct Material {
    pub id: u32,
    pub name: String,
    pub parent_id: u32,
}

pub struct MaterialModel {
    pub id: u32,
    pub name: Seq<char>,
    pub parent_id: u32,
}

type MaterialFields = (u32, (String, u32));

impl MaterialModel {
    pub open spec fn fields(self) -> (u32, (Seq<char>, u32)) {
        (self.id, (self.name, self.parent_id))
    }
}

impl Wire for Material {
    type Model = MaterialModel;

    open spec fn model(&self) -> MaterialModel {
        MaterialModel {
            id: self.id,
            name: self.name.model(),
            parent_id: self.parent_id,
        }
    }

    open spec fn writable(m: MaterialModel) -> bool {
        MaterialFields::writable(m.fields())
    }

    open spec fn wf(m: MaterialModel) -> bool {
        MaterialFields::wf(m.fields())
    }

    open spec fn encode(m: MaterialModel) -> Seq<u8> {
        MaterialFields::encode(m.fields())
    }

    open spec fn decode(s: Seq<u8>, pos: int) -> Result<(MaterialModel, int), FailureAt> {
        match MaterialFields::decode(s, pos) {
            Ok(((id, (name, parent_id)), p)) => Ok((MaterialModel { id, name, parent_id }, p)),
            Err(e) => Err(e),
        }
    }

    proof fn lemma_decode_ok(s: Seq<u8>, pos: int) {
        MaterialFields::lemma_decode_ok(s, pos);
    }

    proof fn lemma_decode_extend(s: Seq<u8>, t: Seq<u8>, pos: int) {
        MaterialFields::lemma_decode_extend(s, t, pos);
    }

    proof fn lemma_roundtrip(m: MaterialModel, s: Seq<u8>, pos: int) {
        MaterialFields::lemma_roundtrip(m.fields(), s, pos);
    }

    fn read(s: &[u8], pos: usize) -> (r: Result<(Material, usize), Failure>) {
        let ((id, (name, parent_id)), p): (MaterialFields, usize) = MaterialFields::read(s, pos)?;
        Ok((Material { id, name, parent_id }, p))
    }

    fn fits(&self) -> (r: bool) {
        self.name.fits()
    }

    fn write(&self, out: &mut Vec<u8>) {
        let ghost start = out@;
        self.id.write(out);
        self.name.write(out);
        self.parent_id.write(out);
        assert(out@ =~= start + Self::encode(self.model()));
    }
}

/// The materials of a scene as an XML document.
#[derive(Debug)]
pub struct MaterialsXml {
    pub xml: String,
}

pub struct MaterialsXmlModel {
    pub xml: Seq<char>,
}

type MaterialsXmlFields = String;

impl MaterialsXmlModel {
    pub open spec fn fields(self) -> Seq<char> {
        self.xml
    }
}

impl Wire for MaterialsXml {
    type Model = MaterialsXmlModel;

    open spec fn model(&self) -> MaterialsXmlModel {
        MaterialsXmlModel {
            xml: self.xml.model(),
        }
    }

    open spec fn writable(m: MaterialsXmlModel) -> bool {
        MaterialsXmlFields::writable(m.fields())
    }

    open spec fn wf(m: MaterialsXmlModel) -> bool {
        MaterialsXmlFields::wf(m.fields())
    }

    open spec fn encode(m: MaterialsXmlModel) -> Seq<u8> {
        MaterialsXmlFields::encode(m.fields())
    }

    open spec fn decode(s: Seq<u8>, pos: int) -> Result<(MaterialsXmlModel, int), FailureAt> {
        match MaterialsXmlFields::decode(s, pos) {
            Ok((xml, p)) => Ok((MaterialsXmlModel { xml }, p)),
            Err(e) => Err(e),
        }
    }

    proof fn lemma_decode_ok(s: Seq<u8>, pos: int) {
        MaterialsXmlFields::lemma_decode_ok(s, pos);
    }

    proof fn lemma_decode_extend(s: Seq<u8>, t: Seq<u8>, pos: int) {
        MaterialsXmlFields::lemma_decode_extend(s, t, pos);
    }

    proof fn lemma_roundtrip(m: MaterialsXmlModel, s: Seq<u8>, pos: int) {
        MaterialsXmlFields::lemma_roundtrip(m.fields(), s, pos);
    }

    fn read(s: &[u8], pos: usize) -> (r: Result<(MaterialsXml, usize), Failure>) {
        let (xml, p): (MaterialsXmlFields, usize) = MaterialsXmlFields::read(s, pos)?;
        Ok((MaterialsXml { xml }, p))
    }

    fn fits(&self) -> (r: bool) {
        self.xml.fits()
    }

    fn write(&self, out: &mut Vec<u8>) {
        let ghost start = out@;
        self.xml.write(out);
        assert(out@ =~= start + Self::encode(self.model()));
    }
}

/// A node of the scene graph, with its transforms and parent.
#[derive(Debug)]
pub struct Node {
    pub id: u32,
    pub name: String,
    pub transform: Matrix4,
    pub pivot_transform: Matrix4,
    pub parent_id: u32,
}

pub struct NodeModel {
    pub id: u32,
    pub name: Seq<char>,
    pub transform: Seq<u64>,
    pub pivot_transform: Seq<u64>,
    pub parent_id: u32,
}

type NodeFields = (u32, (String, (Matrix4, (Matrix4, u32))));

impl NodeModel {
    pub open spec fn fields(self) -> (u32, (Seq<char>, (Seq<u64>, (Seq<u64>, u32)))) {
        (self.id, (self.name, (self.transform, (self.pivot_transform, self.parent_id))))
    }
}

impl Wire for Node {
    type Model = NodeModel;

    open spec fn model(&self) -> NodeModel {
        NodeModel {
            id: self.id,
            name: self.name.model(),
            transform: self.transform.model(),
            pivot_transform: self.pivot_transform.model(),
            parent_id: self.parent_id,
        }
    }

    open spec fn writable(m: NodeModel) -> bool {
        NodeFields::writable(m.fields())
    }

    open spec fn wf(m: NodeModel) -> bool {
        NodeFields::wf(m.fields())
    }

    open spec fn encode(m: NodeModel) -> Seq<u8> {
        NodeFields::encode(m.fields())
    }

    open spec fn decode(s: Seq<u8>, pos: int) -> Result<(NodeModel, int), FailureAt> {
        match NodeFields::decode(s, pos) {
            Ok(((id, (name, (transform, (pivot_transform, parent_id)))), p)) => Ok((NodeModel { id, name, transform, pivot_transform, parent_id }, p)),
            Err(e) => Err(e),
        }
    }

    proof fn lemma_decode_ok(s: Seq<u8>, pos: int) {
        NodeFields::lemma_decode_ok(s, pos);
    }

    proof fn lemma_decode_extend(s: Seq<u8>, t: Seq<u8>, pos: int) {
        NodeFields::lemma_decode_extend(s, t, pos);
    }

    proof fn lemma_roundtrip(m: NodeModel, s: Seq<u8>, pos: int) {
        NodeFields::lemma_roundtrip(m.fields(), s, pos);
    }

    fn read(s: &[u8], pos: usize) -> (r: Result<(Node, usize), Failure>) {
        let ((id, (name, (transform, (pivot_transform, parent_id)))), p): (NodeFields, usize) = NodeFields::read(s, pos)?;
        Ok((Node { id, name, transform, pivot_transform, parent_id }, p))
    }

    fn fits(&self) -> (r: bool) {
        self.name.fits()
    }

    fn write(&self, out: &mut Vec<u8>) {
        let ghost start = out@;
        self.id.write(out);
        self.name.write(out);
        self.transform.write(out);
        self.pivot_transform.write(out);
        self.parent_id.write(out);
        assert(out@ =~= start + Self::encode(self.model()));
    }
}

/// The kind of a light.
#[derive(Debug, Clone, Copy, PartialEq, Eq, Structural)]
pub enum LightType {
    Spot,
    Directional,
    Omni,
}

impl LightType {
    /// The number that stands for the variant in a file.
    pub open spec fn code(self) -> u32 {
        match self {
            LightType::Spot => 0,
            LightType::Directional => 1,
            LightType::Omni => 2,
        }
    }

    pub open spec fn from_code(v: u32) -> Option<LightType> {
        if v == 0 {
            Some(LightType::Spot)
        } else if v == 1 {
            Some(LightType::Directional)
        } else if v == 2 {
            Some(LightType::Omni)
        } else {
            None
        }
    }

    pub fn to_u32(self) -> (r: u32)
        ensures
            r == self.code(),
    {
        match self {
            LightType::Spot => 0,
            LightType::Directional => 1,
            LightType::Omni => 2,
        }
    }

    pub fn try_from_u32(v: u32) -> (r: Option<LightType>)
        ensures
            r == Self::from_code(v),
    {
        if v == 0 {
            Some(LightType::Spot)
        } else if v == 1 {
            Some(LightType::Directional)
        } else if v == 2 {
            Some(LightType::Omni)
        } else {
            None
        }
    }
}

impl Wire for LightType {
    type Model = LightType;

    open spec fn model(&self) -> LightType {
        *self
    }

    open spec fn writable(m: LightType) -> bool {
        true
    }

    open spec fn wf(m: LightType) -> bool {
        true
    }

    open spec fn encode(m: LightType) -> Seq<u8> {
        u32::encode(m.code())
    }

    open spec fn decode(s: Seq<u8>, pos: int) -> Result<(LightType, int), FailureAt> {
        match u32::decode(s, pos) {
            Ok((v, p)) => match LightType::from_code(v) {
                Some(t) => Ok((t, p)),
                None => Err((ReadError::BadDiscriminant(EnumKind::LightType, v), p)),
            },
            Err(e) => Err(e),
        }
    }

    proof fn lemma_decode_ok(s: Seq<u8>, pos: int) {
    }

    proof fn lemma_decode_extend(s: Seq<u8>, t: Seq<u8>, pos: int) {
        u32::lemma_decode_extend(s, t, pos);
    }

    proof fn lemma_roundtrip(m: LightType, s: Seq<u8>, pos: int) {
        u32::lemma_roundtrip(m.code(), s, pos);
    }

    fn read(s: &[u8], pos: usize) -> (r: Result<(LightType, usize), Failure>) {
        let (v, p): (u32, usize) = u32::read(s, pos)?;
        match LightType::try_from_u32(v) {
            Some(t) => Ok((t, p)),
            None => Err((ReadError::BadDiscriminant(EnumKind::LightType, v), p)),
        }
    }

    fn fits(&self) -> (r: bool) {
        true
    }

    fn write(&self, out: &mut Vec<u8>) {
        self.to_u32().write(out);
    }
}

/// The shape of a spotlight's cone.
#[derive(Debug, Clone, Copy, PartialEq, Eq, Structural)]
pub enum SpotlightShape {
    Rectangular,
    Circular,
}

impl SpotlightShape {
    /// The number that stands for the variant in a file.
    pub open spec fn code(self) -> u32 {
        match self {
            SpotlightShape::Rectangular => 0,
            SpotlightShape::Circular => 1,
        }
    }

    pub open spec fn from_code(v: u32) -> Option<SpotlightShape> {
        if v == 0 {
            Some(SpotlightShape::Rectangular)
        } else if v == 1 {
            Some(SpotlightShape::Circular)
        } else {
            None
        }
    }

    pub fn to_u32(self) -> (r: u32)
        ensures
            r == self.code(),
    {
        match self {
            SpotlightShape::Rectangular => 0,
            SpotlightShape::Circular => 1,
        }
    }

    pub fn try_from_u32(v: u32) -> (r: Option<SpotlightShape>)
        ensures
            r == Self::from_code(v),
    {
        if v == 0 {
            Some(SpotlightShape::Rectangular)
        } else if v == 1 {
            Some(SpotlightShape::Circular)
        } else {
            None
        }
    }
}

impl Wire for SpotlightShape {
    type Model = SpotlightShape;

    open spec fn model(&self) -> SpotlightShape {
        *self
    }

    open spec fn writable(m: SpotlightShape) -> bool {
        true
    }

    open spec fn wf(m: SpotlightShape) -> bool {
        true
    }

    open spec fn encode(m: SpotlightShape) -> Seq<u8> {
        u32::encode(m.code())
    }

    open spec fn decode(s: Seq<u8>, pos: int) -> Result<(SpotlightShape, int), FailureAt> {
        match u32::decode(s, pos) {
            Ok((v, p)) => match SpotlightShape::from_code(v) {
                Some(t) => Ok((t, p)),
                None => Err((ReadError::BadDiscriminant(EnumKind::SpotlightShape, v), p)),
            },
            Err(e) => Err(e),
        }
    }

    proof fn lemma_decode_ok(s: Seq<u8>, pos: int) {
    }

    proof fn lemma_decode_extend(s: Seq<u8>, t: Seq<u8>, pos: int) {
        u32::lemma_decode_extend(s, t, pos);
    }

    proof fn lemma_roundtrip(m: SpotlightShape, s: Seq<u8>, pos: int) {
        u32::lemma_roundtrip(m.code(), s, pos);
    }

    fn read(s: &[u8], pos: usize) -> (r: Result<(SpotlightShape, usize), Failure>) {
        let (v, p): (u32, usize) = u32::read(s, pos)?;
        match SpotlightShape::try_from_u32(v) {
            Some(t) => Ok((t, p)),
            None => Err((ReadError::BadDiscriminant(EnumKind::SpotlightShape, v), p)),
        }
    }

    fn fits(&self) -> (r: bool) {
        true
    }

    fn write(&self, out: &mut Vec<u8>) {
        self.to_u32().write(out);
    }
}

/// A light attached to a node.
#[derive(Debug)]
pub struct Light {
    pub node_id: u32,
    pub lamp_type: LightType,
    pub color: Colour,
    pub multiplier: u64,
    pub far_attenuation_end: u64,
    pub far_attenuation_start: u64,
    pub near_attenuation_end: u64,
    pub near_attenuation_start: u64,
    pub falloff: u64,
    pub hotspot: u64,
    pub aspect_ratio: u64,
    pub overshoot: bool,
    pub shape: SpotlightShape,
    pub target_id: u32,
    pub on: bool,
}

type LightFields = (u32, (LightType, (Colour, (u64, (u64, (u64, (u64, (u64, (u64, (u64, (u64, (bool, (SpotlightShape, (u32, bool))))))))))))));

impl Light {
    pub open spec fn fields(self) -> (u32, (LightType, (Colour, (u64, (u64, (u64, (u64, (u64, (u64, (u64, (u64, (bool, (SpotlightShape, (u32, bool)))))))))))))) {
        (self.node_id, (self.lamp_type, (self.color, (self.multiplier, (self.far_attenuation_end, (self.far_attenuation_start, (self.near_attenuation_end, (self.near_attenuation_start, (self.falloff, (self.hotspot, (self.aspect_ratio, (self.overshoot, (self.shape, (self.target_id, self.on))))))))))))))
    }
}

impl Wire for Light {
    type Model = Light;

    open spec fn model(&self) -> Light {
        *self
    }

    open spec fn writable(m: Light) -> bool {
        LightFields::writable(m.fields())
    }

    open spec fn wf(m: Light) -> bool {
        LightFields::wf(m.fields())
    }

    open spec fn encode(m: Light) -> Seq<u8> {
        LightFields::encode(m.fields())
    }

    open spec fn decode(s: Seq<u8>, pos: int) -> Result<(Light, int), FailureAt> {
        match LightFields::decode(s, pos) {
            Ok(((node_id, (lamp_type, (color, (multiplier, (far_attenuation_end, (far_attenuation_start, (near_attenuation_end, (near_attenuation_start, (falloff, (hotspot, (aspect_ratio, (overshoot, (shape, (target_id, on)))))))))))))), p)) => Ok((Light { node_id, lamp_type, color, multiplier, far_attenuation_end, far_attenuation_start, near_attenuation_end, near_attenuation_start, falloff, hotspot, aspect_ratio, overshoot, shape, target_id, on }, p)),
            Err(e) => Err(e),
        }
    }

    proof fn lemma_decode_ok(s: Seq<u8>, pos: int) {
        LightFields::lemma_decode_ok(s, pos);
    }

    proof fn lemma_decode_extend(s: Seq<u8>, t: Seq<u8>, pos: int) {
        LightFields::lemma_decode_extend(s, t, pos);
    }

    proof fn lemma_roundtrip(m: Light, s: Seq<u8>, pos: int) {
        LightFields::lemma_roundtrip(m.fields(), s, pos);
    }

    fn read(s: &[u8], pos: usize) -> (r: Result<(Light, usize), Failure>) {
        let ((node_id, (lamp_type, (color, (multiplier, (far_attenuation_end, (far_attenuation_start, (near_attenuation_end, (near_attenuation_start, (falloff, (hotspot, (aspect_ratio, (overshoot, (shape, (target_id, on)))))))))))))), p): (LightFields, usize) = LightFields::read(s, pos)?;
        Ok((Light { node_id, lamp_type, color, multiplier, far_attenuation_end, far_attenuation_start, near_attenuation_end, near_attenuation_start, falloff, hotspot, aspect_ratio, overshoot, shape, target_id, on }, p))
    }

    fn fits(&self) -> (r: bool) {
        true
    }

    fn write(&self, out: &mut Vec<u8>) {
        (self.node_id, (self.lamp_type, (self.color, (self.multiplier, (self.far_attenuation_end, (self.far_attenuation_start, (self.near_attenuation_end, (self.near_attenuation_start, (self.falloff, (self.hotspot, (self.aspect_ratio, (self.overshoot, (self.shape, (self.target_id, self.on)))))))))))))).write(out);
    }
}

/// A camera attached to a node.
#[derive(Debug, Clone, Copy)]
pub struct Camera {
    pub node_id: u32,
    pub fov: u64,
    pub far_clip: u64,
    pub near_clip: u64,
    pub target_id: u32,
    pub target_distance: u64,
    pub aspect_ratio: u64,
}

type CameraFields = (u32, (u64, (u64, (u64, (u32, (u64, u64))))));

impl Camera {
    pub open spec fn fields(self) -> (u32, (u64, (u64, (u64, (u32, (u64, u64)))))) {
        (self.node_id, (self.fov, (self.far_clip, (self.near_clip, (self.target_id, (self.target_distance, self.aspect_ratio))))))
    }
}

impl Wire for Camera {
    type Model = Camera;

    open spec fn model(&self) -> Camera {
        *self
    }

    open spec fn writable(m: Camera) -> bool {
        CameraFields::writable(m.fields())
    }

    open spec fn wf(m: Camera) -> bool {
        CameraFields::wf(m.fields())
    }

    open spec fn encode(m: Camera) -> Seq<u8> {
        CameraFields::encode(m.fields())
    }

    open spec fn decode(s: Seq<u8>, pos: int) -> Result<(Camera, int), FailureAt> {
        match CameraFields::decode(s, pos) {
            Ok(((node_id, (fov, (far_clip, (near_clip, (target_id, (target_distance, aspect_ratio)))))), p)) => Ok((Camera { node_id, fov, far_clip, near_clip, target_id, target_distance, aspect_ratio }, p)),
            Err(e) => Err(e),
        }
    }

    proof fn lemma_decode_ok(s: Seq<u8>, pos: int) {
        CameraFields::lemma_decode_ok(s, pos);
    }

    proof fn lemma_decode_extend(s: Seq<u8>, t: Seq<u8>, pos: int) {
        CameraFields::lemma_decode_extend(s, t, pos);
    }

    proof fn lemma_roundtrip(m: Camera, s: Seq<u8>, pos: int) {
        CameraFields::lemma_roundtrip(m.fields(), s, pos);
    }

    fn read(s: &[u8], pos: usize) -> (r: Result<(Camera, usize), Failure>) {
        let ((node_id, (fov, (far_clip, (near_clip, (target_id, (target_distance, aspect_ratio)))))), p): (CameraFields, usize) = CameraFields::read(s, pos)?;
        Ok((Camera { node_id, fov, far_clip, near_clip, target_id, target_distance, aspect_ratio }, p))
    }

    fn fits(&self) -> (r: bool) {
        true
    }

    fn write(&self, out: &mut Vec<u8>) {
        (self.node_id, (self.fov, (self.far_clip, (self.near_clip, (self.target_id, (self.target_distance, self.aspect_ratio)))))).write(out);
    }
}

/// A beat or a trigger at a moment of the scene.
#[derive(Debug)]
pub struct KeyEvent {
    pub id: u32,
    pub name: String,
    pub timestamp: u64,
    /// The exporters always write 0xFFFFFFFF here.
    pub node_id: u32,
    /// The exporters always write "beat" or "trigger" here.
    pub event_type: String,
    /// The exporters always write 0 here.
    pub parameter_count: u32,
}

pub struct KeyEventModel {
    pub id: u32,
    pub name: Seq<char>,
    pub timestamp: u64,
    pub node_id: u32,
    pub event_type: Seq<char>,
    pub parameter_count: u32,
}

type KeyEventFields = (u32, (String, (u64, (u32, (String, u32)))));

impl KeyEventModel {
    pub open spec fn fields(self) -> (u32, (Seq<char>, (u64, (u32, (Seq<char>, u32))))) {
        (self.id, (self.name, (self.timestamp, (self.node_id, (self.event_type, self.parameter_count)))))
    }
}

impl Wire for KeyEvent {
    type Model = KeyEventModel;

    open spec fn model(&self) -> KeyEventModel {
        KeyEventModel {
            id: self.id,
            name: self.name.model(),
            timestamp: self.timestamp,
            node_id: self.node_id,
            event_type: self.event_type.model(),
            parameter_count: self.parameter_count,
        }
    }

    open spec fn writable(m: KeyEventModel) -> bool {
        KeyEventFields::writable(m.fields())
    }

    open spec fn wf(m: KeyEventModel) -> bool {
        KeyEventFields::wf(m.fields())
    }

    open spec fn encode(m: KeyEventModel) -> Seq<u8> {
        KeyEventFields::encode(m.fields())
    }

    open spec fn decode(s: Seq<u8>, pos: int) -> Result<(KeyEventModel, int), FailureAt> {
        match KeyEventFields::decode(s, pos) {
            Ok(((id, (name, (timestamp, (node_id, (event_type, parameter_count))))), p)) => Ok((KeyEventModel { id, name, timestamp, node_id, event_type, parameter_count }, p)),
            Err(e) => Err(e),
        }
    }

    proof fn lemma_decode_ok(s: Seq<u8>, pos: int) {
        KeyEventFields::lemma_decode_ok(s, pos);
    }

    proof fn lemma_decode_extend(s: Seq<u8>, t: Seq<u8>, pos: int) {
        KeyEventFields::lemma_decode_extend(s, t, pos);
    }

    proof fn lemma_roundtrip(m: KeyEventModel, s: Seq<u8>, pos: int) {
        KeyEventFields::lemma_roundtrip(m.fields(), s, pos);
    }

    fn read(s: &[u8], pos: usize) -> (r: Result<(KeyEvent, usize), Failure>) {
        let ((id, (name, (timestamp, (node_id, (event_type, parameter_count))))), p): (KeyEventFields, usize) = KeyEventFields::read(s, pos)?;
        Ok((KeyEvent { id, name, timestamp, node_id, event_type, parameter_count }, p))
    }

    fn fits(&self) -> (r: bool) {
        self.name.fits() && self.event_type.fits()
    }

    fn write(&self, out: &mut Vec<u8>) {
        let ghost start = out@;
        self.id.write(out);
        self.name.write(out);
        self.timestamp.write(out);
        self.node_id.write(out);
        self.event_type.write(out);
        self.parameter_count.write(out);
        assert(out@ =~= start + Self::encode(self.model()));
    }
}

/// The "beats and triggers" block.
#[derive(Debug)]
pub struct KeyEvents {
    pub events: Vec<KeyEvent>,
}

pub struct KeyEventsModel {
    pub events: Seq<KeyEventModel>,
}

type KeyEventsFields = Vec<KeyEvent>;

impl KeyEventsModel {
    pub open spec fn fields(self) -> Seq<KeyEventModel> {
        self.events
    }
}

impl Wire for KeyEvents {
    type Model = KeyEventsModel;

    open spec fn model(&self) -> KeyEventsModel {
        KeyEventsModel {
            events: self.events.model(),
        }
    }

    open spec fn writable(m: KeyEventsModel) -> bool {
        KeyEventsFields::writable(m.fields())
    }

    open spec fn wf(m: KeyEventsModel) -> bool {
        KeyEventsFields::wf(m.fields())
    }

    open spec fn encode(m: KeyEventsModel) -> Seq<u8> {
        KeyEventsFields::encode(m.fields())
    }

    open spec fn decode(s: Seq<u8>, pos: int) -> Result<(KeyEventsModel, int), FailureAt> {
        match KeyEventsFields::decode(s, pos) {
            Ok((events, p)) => Ok((KeyEventsModel { events }, p)),
            Err(e) => Err(e),
        }
    }

    proof fn lemma_decode_ok(s: Seq<u8>, pos: int) {
        KeyEventsFields::lemma_decode_ok(s, pos);
    }

    proof fn lemma_decode_extend(s: Seq<u8>, t: Seq<u8>, pos: int) {
        KeyEventsFields::lemma_decode_extend(s, t, pos);
    }

    proof fn lemma_roundtrip(m: KeyEventsModel, s: Seq<u8>, pos: int) {
        KeyEventsFields::lemma_roundtrip(m.fields(), s, pos);
    }

    fn read(s: &[u8], pos: usize) -> (r: Result<(KeyEvents, usize), Failure>) {
        let (events, p): (KeyEventsFields, usize) = KeyEventsFields::read(s, pos)?;
        Ok((KeyEvents { events }, p))
    }

    fn fits(&self) -> (r: bool) {
        self.events.fits()
    }

    fn write(&self, out: &mut Vec<u8>) {
        let ghost start = out@;
        self.events.write(out);
        assert(out@ =~= start + Self::encode(self.model()));
    }
}


// ---------------------------------------------------------------- layouts


/// A scene information is written as its fields one after the other, in this order:
/// start_time, end_time.
pub proof fn lemma_scene_info1_layout(m: SceneInfo1)
    ensures
        SceneInfo1::encode(m) == u64::encode(m.start_time) + u64::encode(m.end_time),
{
    assert(SceneInfo1::encode(m) =~= u64::encode(m.start_time) + u64::encode(m.end_time));
}

/// A scene information is written as its fields one after the other, in this order:
/// start_time, end_time, author_tag, source_filename.
pub proof fn lemma_scene_info2_layout(m: SceneInfo2Model)
    ensures
        SceneInfo2::encode(m) == u64::encode(m.start_time) + u64::encode(m.end_time) + String::encode(m.author_tag) + String::encode(m.source_filename),
{
    assert(SceneInfo2::encode(m) =~= u64::encode(m.start_time) + u64::encode(m.end_time) + String::encode(m.author_tag) + String::encode(m.source_filename));
}

/// A scene information is written as its fields one after the other, in this order:
/// start_time, end_time, author_tag, source_filename, scene_type.
pub proof fn lemma_scene_info3_layout(m: SceneInfo3Model)
    ensures
        SceneInfo3::encode(m) == u64::encode(m.start_time) + u64::encode(m.end_time) + String::encode(m.author_tag) + String::encode(m.source_filename) + String::encode(m.scene_type),
{
    assert(SceneInfo3::encode(m) =~= u64::encode(m.start_time) + u64::encode(m.end_time) + String::encode(m.author_tag) + String::encode(m.source_filename) + String::encode(m.scene_type));
}

/// A material is written as its fields one after the other, in this order:
/// id, name, parent_id.
pub proof fn lemma_material_layout(m: MaterialModel)
    ensures
        Material::encode(m) == u32::encode(m.id) + String::encode(m.name) + u32::encode(m.parent_id),
{
    assert(Material::encode(m) =~= u32::encode(m.id) + String::encode(m.name) + u32::encode(m.parent_id));
}

/// A materials document is written as its fields one after the other, in this order:
/// xml.
pub proof fn lemma_materials_xml_layout(m: MaterialsXmlModel)
    ensures
        MaterialsXml::encode(m) == String::encode(m.xml),
{
    assert(MaterialsXml::encode(m) =~= String::encode(m.xml));
}

/// A node is written as its fields one after the other, in this order:
/// id, name, transform, pivot_transform, parent_id.
pub proof fn lemma_node_layout(m: NodeModel)
    ensures
        Node::encode(m) == u32::encode(m.id) + String::encode(m.name) + Matrix4::encode(m.transform) + Matrix4::encode(m.pivot_transform) + u32::encode(m.parent_id),
{
    assert(Node::encode(m) =~= u32::encode(m.id) + String::encode(m.name) + Matrix4::encode(m.transform) + Matrix4::encode(m.pivot_transform) + u32::encode(m.parent_id));
}

/// A light is written as its fields one after the other, in this order:
/// node_id, lamp_type, color, multiplier, far_attenuation_end, far_attenuation_start, near_attenuation_end, near_attenuation_start, falloff, hotspot, aspect_ratio, overshoot, shape, target_id, on.
pub proof fn lemma_light_layout(m: Light)
    ensures
        Light::encode(m) == u32::encode(m.node_id) + LightType::encode(m.lamp_type) + Colour::encode(m.color) + u64::encode(m.multiplier) + u64::encode(m.far_attenuation_end) + u64::encode(m.far_attenuation_start) + u64::encode(m.near_attenuation_end) + u64::encode(m.near_attenuation_start) + u64::encode(m.falloff) + u64::encode(m.hotspot) + u64::encode(m.aspect_ratio) + bool::encode(m.overshoot) + SpotlightShape::encode(m.shape) + u32::encode(m.target_id) + bool::encode(m.on),
{
    let e0 = u32::encode(m.node_id);
    let e1 = LightType::encode(m.lamp_type);
    let e2 = Colour::encode(m.color);
    let e3 = u64::encode(m.multiplier);
    let e4 = u64::encode(m.far_attenuation_end);
    let e5 = u64::encode(m.far_attenuation_start);
    let e6 = u64::encode(m.near_attenuation_end);
    let e7 = u64::encode(m.near_attenuation_start);
    let e8 = u64::encode(m.falloff);
    let e9 = u64::encode(m.hotspot);
    let e10 = u64::encode(m.aspect_ratio);
    let e11 = bool::encode(m.overshoot);
    let e12 = SpotlightShape::encode(m.shape);
    let e13 = u32::encode(m.target_id);
    let e14 = bool::encode(m.on);
    assert(Light::encode(m) == (e0 + (e1 + (e2 + (e3 + (e4 + (e5 + (e6 + (e7 + (e8 + (e9 + (e10 + (e11 + (e12 + (e13 + e14)))))))))))))));
    lemma_concat_assoc(e0, e1, (e2 + (e3 + (e4 + (e5 + (e6 + (e7 + (e8 + (e9 + (e10 + (e11 + (e12 + (e13 + e14)))))))))))));
    lemma_concat_assoc(e0 + e1, e2, (e3 + (e4 + (e5 + (e6 + (e7 + (e8 + (e9 + (e10 + (e11 + (e12 + (e13 + e14))))))))))));
    lemma_concat_assoc(e0 + e1 + e2, e3, (e4 + (e5 + (e6 + (e7 + (e8 + (e9 + (e10 + (e11 + (e12 + (e13 + e14)))))))))));
    lemma_concat_assoc(e0 + e1 + e2 + e3, e4, (e5 + (e6 + (e7 + (e8 + (e9 + (e10 + (e11 + (e12 + (e13 + e14))))))))));
    lemma_concat_assoc(e0 + e1 + e2 + e3 + e4, e5, (e6 + (e7 + (e8 + (e9 + (e10 + (e11 + (e12 + (e13 + e14)))))))));
    lemma_concat_assoc(e0 + e1 + e2 + e3 + e4 + e5, e6, (e7 + (e8 + (e9 + (e10 + (e11 + (e12 + (e13 + e14))))))));
    lemma_concat_assoc(e0 + e1 + e2 + e3 + e4 + e5 + e6, e7, (e8 + (e9 + (e10 + (e11 + (e12 + (e13 + e14)))))));
    lemma_concat_assoc(e0 + e1 + e2 + e3 + e4 + e5 + e6 + e7, e8, (e9 + (e10 + (e11 + (e12 + (e13 + e14))))));
    lemma_concat_assoc(e0 + e1 + e2 + e3 + e4 + e5 + e6 + e7 + e8, e9, (e10 + (e11 + (e12 + (e13 + e14)))));
    lemma_concat_assoc(e0 + e1 + e2 + e3 + e4 + e5 + e6 + e7 + e8 + e9, e10, (e11 + (e12 + (e13 + e14))));
    lemma_concat_assoc(e0 + e1 + e2 + e3 + e4 + e5 + e6 + e7 + e8 + e9 + e10, e11, (e12 + (e13 + e14)));
    lemma_concat_assoc(e0 + e1 + e2 + e3 + e4 + e5 + e6 + e7 + e8 + e9 + e10 + e11, e12, (e13 + e14));
    lemma_concat_assoc(e0 + e1 + e2 + e3 + e4 + e5 + e6 + e7 + e8 + e9 + e10 + e11 + e12, e13, e14);
}

/// A camera is written as its fields one after the other, in this order:
/// node_id, fov, far_clip, near_clip, target_id, target_distance, aspect_ratio.
pub proof fn lemma_camera_layout(m: Camera)
    ensures
        Camera::encode(m) == u32::encode(m.node_id) + u64::encode(m.fov) + u64::encode(m.far_clip) + u64::encode(m.near_clip) + u32::encode(m.target_id) + u64::encode(m.target_distance) + u64::encode(m.aspect_ratio),
{
    assert(Camera::encode(m) =~= u32::encode(m.node_id) + u64::encode(m.fov) + u64::encode(m.far_clip) + u64::encode(m.near_clip) + u32::encode(m.target_id) + u64::encode(m.target_distance) + u64::encode(m.aspect_ratio));
}

/// A key event is written as its fields one after the other, in this order:
/// id, name, timestamp, node_id, event_type, parameter_count.
pub proof fn lemma_key_event_layout(m: KeyEventModel)
    ensures
        KeyEvent::encode(m) == u32::encode(m.id) + String::encode(m.name) + u64::encode(m.timestamp) + u32::encode(m.node_id) + String::encode(m.event_type) + u32::encode(m.parameter_count),
{
    assert(KeyEvent::encode(m) =~= u32::encode(m.id) + String::encode(m.name) + u64::encode(m.timestamp) + u32::encode(m.node_id) + String::encode(m.event_type) + u32::encode(m.parameter_count));
}

/// A key events block is written as its fields one after the other, in this order:
/// events.
pub proof fn lemma_key_events_layout(m: KeyEventsModel)
    ensures
        KeyEvents::encode(m) == Vec::<KeyEvent>::encode(m.events),
{
    assert(KeyEvents::encode(m) =~= Vec::<KeyEvent>::encode(m.events));
}

/// A light type is written as the `u32` 0 for Spot, 1 for Directional, 2 for Omni.
pub proof fn lemma_light_type_codes()
    ensures
        LightType::encode(LightType::Spot) == u32::encode(0),
        LightType::encode(LightType::Directional) == u32::encode(1),
        LightType::encode(LightType::Omni) == u32::encode(2),
{
}

/// Reading a light type gives the variant that the `u32` read stands for: 0 is Spot, 1 is Directional, 2 is Omni.
pub proof fn lemma_light_type_read(s: Seq<u8>, pos: int)
    ensures
        LightType::decode(s, pos) matches Ok((t, _)) ==> (u32::decode(s, pos) matches Ok((v, _)) && (v == 0 <==> t == LightType::Spot) && (v == 1 <==> t == LightType::Directional) && (v == 2 <==> t == LightType::Omni)),
{
}

/// A spotlight shape is written as the `u32` 0 for Rectangular, 1 for Circular.
pub proof fn lemma_spotlight_shape_codes()
    ensures
        SpotlightShape::encode(SpotlightShape::Rectangular) == u32::encode(0),
        SpotlightShape::encode(SpotlightShape::Circular) == u32::encode(1),
{
}

/// Reading a spotlight shape gives the variant that the `u32` read stands for: 0 is Rectangular, 1 is Circular.
pub proof fn lemma_spotlight_shape_read(s: Seq<u8>, pos: int)
    ensures
        SpotlightShape::decode(s, pos) matches Ok((t, _)) ==> (u32::decode(s, pos) matches Ok((v, _)) && (v == 0 <==> t == SpotlightShape::Rectangular) && (v == 1 <==> t == SpotlightShape::Circular)),
{
}

} // verus!
