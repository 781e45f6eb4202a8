//! Meshes: vertex channels, faces, skins and bounding boxes.
//!
//! The format's `f64` values are held as their IEEE-754 bit patterns (`u64`),
//! which is exactly what the file holds; turning them into numbers is left to
//! the caller.
use vstd::prelude::*;
use crate::error::{EnumKind, Failure, FailureAt, ReadError, SchemaError};
use vstd::bytes::lemma_auto_spec_u32_to_from_le_bytes;
use crate::wire::{
    Wire, all_wf, decode_items, encode_items, is_at, lemma_at_concat, lemma_concat_assoc,
    lemma_decode_items_extend, lemma_decode_items_ok, lemma_items_roundtrip, lemma_u64_items_at,
    models, read_items, write_items,
};

verus! {

/// Two `f64`, held as bit patterns.
#[derive(Debug, Clone, Copy, PartialEq, Eq, Structural)]
pub struct Vector2 {
    pub x: u64,
    pub y: u64,
}

/// Three `f64`, held as bit patterns.
#[derive(Debug, Clone, Copy, PartialEq, Eq, Structural)]
pub struct Vector3 {
    pub x: u64,
    pub y: u64,
    pub z: u64,
}

/// A red, green, blue triple of `f64`, held as bit patterns.
#[derive(Debug, Clone, Copy, PartialEq, Eq, Structural)]
pub struct Colour {
    pub r: u64,
    pub g: u64,
    pub b: u64,
}

/// Sixteen `f64` in the order the file holds them, held as bit patterns.
#[derive(Debug, Clone, Copy)]
pub struct Matrix4 {
    pub elements: [u64; 16],
}

impl Wire for Vector2 {
    type Model = Vector2;

    open spec fn model(&self) -> Vector2 {
        *self
    }

    open spec fn writable(m: Vector2) -> bool {
        true
    }

    open spec fn wf(m: Vector2) -> bool {
        true
    }

    open spec fn encode(m: Vector2) -> Seq<u8> {
        <(u64, u64)>::encode((m.x, m.y))
    }

    open spec fn decode(s: Seq<u8>, pos: int) -> Result<(Vector2, int), FailureAt> {
        match <(u64, u64)>::decode(s, pos) {
            Ok(((x, y), p)) => Ok((Vector2 { x, y }, p)),
            Err(e) => Err(e),
        }
    }

    proof fn lemma_decode_ok(s: Seq<u8>, pos: int) {
        <(u64, u64)>::lemma_decode_ok(s, pos);
    }

    proof fn lemma_decode_extend(s: Seq<u8>, t: Seq<u8>, pos: int) {
        <(u64, u64)>::lemma_decode_extend(s, t, pos);
    }

    proof fn lemma_roundtrip(m: Vector2, s: Seq<u8>, pos: int) {
        <(u64, u64)>::lemma_roundtrip((m.x, m.y), s, pos);
    }

    fn read(s: &[u8], pos: usize) -> (r: Result<(Vector2, usize), Failure>) {
        let ((x, y), p): ((u64, u64), usize) = <(u64, u64)>::read(s, pos)?;
        Ok((Vector2 { x, y }, p))
    }

    fn fits(&self) -> (r: bool) {
        true
    }

    fn write(&self, out: &mut Vec<u8>) {
        (self.x, self.y).write(out);
    }
}

impl Wire for Vector3 {
    type Model = Vector3;

    open spec fn model(&self) -> Vector3 {
        *self
    }

    open spec fn writable(m: Vector3) -> bool {
        true
    }

    open spec fn wf(m: Vector3) -> bool {
        true
    }

    open spec fn encode(m: Vector3) -> Seq<u8> {
        <(u64, (u64, u64))>::encode((m.x, (m.y, m.z)))
    }

    open spec fn decode(s: Seq<u8>, pos: int) -> Result<(Vector3, int), FailureAt> {
        match <(u64, (u64, u64))>::decode(s, pos) {
            Ok(((x, (y, z)), p)) => Ok((Vector3 { x, y, z }, p)),
            Err(e) => Err(e),
        }
    }

    proof fn lemma_decode_ok(s: Seq<u8>, pos: int) {
        <(u64, (u64, u64))>::lemma_decode_ok(s, pos);
    }

    proof fn lemma_decode_extend(s: Seq<u8>, t: Seq<u8>, pos: int) {
        <(u64, (u64, u64))>::lemma_decode_extend(s, t, pos);
    }

    proof fn lemma_roundtrip(m: Vector3, s: Seq<u8>, pos: int) {
        <(u64, (u64, u64))>::lemma_roundtrip((m.x, (m.y, m.z)), s, pos);
    }

    fn read(s: &[u8], pos: usize) -> (r: Result<(Vector3, usize), Failure>) {
        let ((x, (y, z)), p): ((u64, (u64, u64)), usize) = <(u64, (u64, u64))>::read(s, pos)?;
        Ok((Vector3 { x, y, z }, p))
    }

    fn fits(&self) -> (r: bool) {
        true
    }

    fn write(&self, out: &mut Vec<u8>) {
        (self.x, (self.y, self.z)).write(out);
    }
}

impl Wire for Colour {
    type Model = Colour;

    open spec fn model(&self) -> Colour {
        *self
    }

    open spec fn writable(m: Colour) -> bool {
        true
    }

    open spec fn wf(m: Colour) -> bool {
        true
    }

    open spec fn encode(m: Colour) -> Seq<u8> {
        <(u64, (u64, u64))>::encode((m.r, (m.g, m.b)))
    }

    open spec fn decode(s: Seq<u8>, pos: int) -> Result<(Colour, int), FailureAt> {
        match <(u64, (u64, u64))>::decode(s, pos) {
            Ok(((r, (g, b)), p)) => Ok((Colour { r, g, b }, p)),
            Err(e) => Err(e),
        }
    }

    proof fn lemma_decode_ok(s: Seq<u8>, pos: int) {
        <(u64, (u64, u64))>::lemma_decode_ok(s, pos);
    }

    proof fn lemma_decode_extend(s: Seq<u8>, t: Seq<u8>, pos: int) {
        <(u64, (u64, u64))>::lemma_decode_extend(s, t, pos);
    }

    proof fn lemma_roundtrip(m: Colour, s: Seq<u8>, pos: int) {
        <(u64, (u64, u64))>::lemma_roundtrip((m.r, (m.g, m.b)), s, pos);
    }

    fn read(s: &[u8], pos: usize) -> (r: Result<(Colour, usize), Failure>) {
        let ((r, (g, b)), p): ((u64, (u64, u64)), usize) = <(u64, (u64, u64))>::read(s, pos)?;
        Ok((Colour { r, g, b }, p))
    }

    fn fits(&self) -> (r: bool) {
        true
    }

    fn write(&self, out: &mut Vec<u8>) {
        (self.r, (self.g, self.b)).write(out);
    }
}

impl Wire for Matrix4 {
    type Model = Seq<u64>;

    open spec fn model(&self) -> Seq<u64> {
        self.elements@
    }

    open spec fn writable(m: Seq<u64>) -> bool {
        m.len() == 16
    }

    open spec fn wf(m: Seq<u64>) -> bool {
        m.len() == 16
    }

    open spec fn encode(m: Seq<u64>) -> Seq<u8> {
        encode_items::<u64>(m)
    }

    open spec fn decode(s: Seq<u8>, pos: int) -> Result<(Seq<u64>, int), FailureAt> {
        decode_items::<u64>(s, pos, 16)
    }

    proof fn lemma_decode_ok(s: Seq<u8>, pos: int) {
        lemma_decode_items_ok::<u64>(s, pos, 16);
    }

    proof fn lemma_decode_extend(s: Seq<u8>, t: Seq<u8>, pos: int) {
        lemma_decode_items_extend::<u64>(s, t, pos, 16);
    }

    proof fn lemma_roundtrip(m: Seq<u64>, s: Seq<u8>, pos: int) {
        lemma_items_roundtrip::<u64>(m, s, pos);
    }

    fn read(s: &[u8], pos: usize) -> (r: Result<(Matrix4, usize), Failure>) {
        let (v, p): (Vec<u64>, usize) = read_items::<u64>(s, pos, 16)?;
        proof {
            lemma_decode_items_ok::<u64>(s@, pos as int, 16);
        }
        let elements: [u64; 16] = [
            v[0], v[1], v[2], v[3], v[4], v[5], v[6], v[7],
            v[8], v[9], v[10], v[11], v[12], v[13], v[14], v[15],
        ];
        assert(elements@ =~= models(v@));
        Ok((Matrix4 { elements }, p))
    }

    fn fits(&self) -> (r: bool) {
        true
    }

    fn write(&self, out: &mut Vec<u8>) {
        assert(models(self.elements@) =~= self.elements@);
        write_items(self.elements.as_slice(), out);
    }
}


/// A box given by its two corners.
#[derive(Debug, Clone, Copy, PartialEq, Eq, Structural)]
pub struct BoundingBox {
    pub min: Vector3,
    pub max: Vector3,
}

impl Wire for BoundingBox {
    type Model = BoundingBox;

    open spec fn model(&self) -> BoundingBox {
        *self
    }

    open spec fn writable(m: BoundingBox) -> bool {
        true
    }

    open spec fn wf(m: BoundingBox) -> bool {
        true
    }

    open spec fn encode(m: BoundingBox) -> Seq<u8> {
        <(Vector3, Vector3)>::encode((m.min, m.max))
    }

    open spec fn decode(s: Seq<u8>, pos: int) -> Result<(BoundingBox, int), FailureAt> {
        match <(Vector3, Vector3)>::decode(s, pos) {
            Ok(((min, max), p)) => Ok((BoundingBox { min, max }, p)),
            Err(e) => Err(e),
        }
    }

    proof fn lemma_decode_ok(s: Seq<u8>, pos: int) {
        <(Vector3, Vector3)>::lemma_decode_ok(s, pos);
    }

    proof fn lemma_decode_extend(s: Seq<u8>, t: Seq<u8>, pos: int) {
        <(Vector3, Vector3)>::lemma_decode_extend(s, t, pos);
    }

    proof fn lemma_roundtrip(m: BoundingBox, s: Seq<u8>, pos: int) {
        <(Vector3, Vector3)>::lemma_roundtrip((m.min, m.max), s, pos);
    }

    fn read(s: &[u8], pos: usize) -> (r: Result<(BoundingBox, usize), Failure>) {
        let ((min, max), p): ((Vector3, Vector3), usize) = <(Vector3, Vector3)>::read(s, pos)?;
        Ok((BoundingBox { min, max }, p))
    }

    fn fits(&self) -> (r: bool) {
        true
    }

    fn write(&self, out: &mut Vec<u8>) {
        (self.min, self.max).write(out);
    }
}

/// One corner of a face: the channel it indexes and three indices.
#[derive(Debug, Clone, Copy, PartialEq, Eq, Structural)]
pub struct GeometryFaceloop {
    pub channel: u32,
    pub a: u32,
    pub b: u32,
    pub c: u32,
}

type FaceloopFields = (u32, (u32, (u32, u32)));

impl Wire for GeometryFaceloop {
    type Model = GeometryFaceloop;

    open spec fn model(&self) -> GeometryFaceloop {
        *self
    }

    open spec fn writable(m: GeometryFaceloop) -> bool {
        true
    }

    open spec fn wf(m: GeometryFaceloop) -> bool {
        true
    }

    open spec fn encode(m: GeometryFaceloop) -> Seq<u8> {
        FaceloopFields::encode((m.channel, (m.a, (m.b, m.c))))
    }

    open spec fn decode(s: Seq<u8>, pos: int) -> Result<(GeometryFaceloop, int), FailureAt> {
        match FaceloopFields::decode(s, pos) {
            Ok(((channel, (a, (b, c))), p)) => Ok((GeometryFaceloop { channel, a, b, c }, p)),
            Err(e) => Err(e),
        }
    }

    proof fn lemma_decode_ok(s: Seq<u8>, pos: int) {
        FaceloopFields::lemma_decode_ok(s, pos);
    }

    proof fn lemma_decode_extend(s: Seq<u8>, t: Seq<u8>, pos: int) {
        FaceloopFields::lemma_decode_extend(s, t, pos);
    }

    proof fn lemma_roundtrip(m: GeometryFaceloop, s: Seq<u8>, pos: int) {
        FaceloopFields::lemma_roundtrip((m.channel, (m.a, (m.b, m.c))), s, pos);
    }

    fn read(s: &[u8], pos: usize) -> (r: Result<(GeometryFaceloop, usize), Failure>) {
        let ((channel, (a, (b, c))), p): (FaceloopFields, usize) = FaceloopFields::read(s, pos)?;
        Ok((GeometryFaceloop { channel, a, b, c }, p))
    }

    fn fits(&self) -> (r: bool) {
        true
    }

    fn write(&self, out: &mut Vec<u8>) {
        (self.channel, (self.a, (self.b, self.c))).write(out);
    }
}

/// A face: its material, a value of unknown meaning and its corners.
#[derive(Debug, Clone)]
pub struct GeometryFace {
    pub material_id: u32,
    pub unknown1: u32,
    pub loops: Vec<GeometryFaceloop>,
}

pub struct GeometryFaceModel {
    pub material_id: u32,
    pub unknown1: u32,
    pub loops: Seq<GeometryFaceloop>,
}

type FaceFields = (u32, (u32, Vec<GeometryFaceloop>));

impl GeometryFaceModel {
    pub open spec fn fields(self) -> (u32, (u32, Seq<GeometryFaceloop>)) {
        (self.material_id, (self.unknown1, self.loops))
    }
}

impl Wire for GeometryFace {
    type Model = GeometryFaceModel;

    open spec fn model(&self) -> GeometryFaceModel {
        GeometryFaceModel {
            material_id: self.material_id,
            unknown1: self.unknown1,
            loops: self.loops.model(),
        }
    }

    open spec fn writable(m: GeometryFaceModel) -> bool {
        FaceFields::writable(m.fields())
    }

    open spec fn wf(m: GeometryFaceModel) -> bool {
        FaceFields::wf(m.fields())
    }

    open spec fn encode(m: GeometryFaceModel) -> Seq<u8> {
        FaceFields::encode(m.fields())
    }

    open spec fn decode(s: Seq<u8>, pos: int) -> Result<(GeometryFaceModel, int), FailureAt> {
        match FaceFields::decode(s, pos) {
            Ok(((material_id, (unknown1, loops)), p)) => Ok(
                (GeometryFaceModel { material_id, unknown1, loops }, p),
            ),
            Err(e) => Err(e),
        }
    }

    proof fn lemma_decode_ok(s: Seq<u8>, pos: int) {
        FaceFields::lemma_decode_ok(s, pos);
    }

    proof fn lemma_decode_extend(s: Seq<u8>, t: Seq<u8>, pos: int) {
        FaceFields::lemma_decode_extend(s, t, pos);
    }

    proof fn lemma_roundtrip(m: GeometryFaceModel, s: Seq<u8>, pos: int) {
        FaceFields::lemma_roundtrip(m.fields(), s, pos);
    }

    fn read(s: &[u8], pos: usize) -> (r: Result<(GeometryFace, usize), Failure>) {
        let ((material_id, (unknown1, loops)), p): (FaceFields, usize) = FaceFields::read(s, pos)?;
        Ok((GeometryFace { material_id, unknown1, loops }, p))
    }

    fn fits(&self) -> (r: bool) {
        self.loops.fits()
    }

    fn write(&self, out: &mut Vec<u8>) {
        let ghost start = out@;
        self.material_id.write(out);
        self.unknown1.write(out);
        self.loops.write(out);
        assert(out@ =~= start + Self::encode(self.model()));
    }
}

/// The weight of one bone on one vertex.
#[derive(Debug, Clone, Copy, PartialEq, Eq, Structural)]
pub struct VertexWeight {
    pub bone_id: u32,
    pub weight: u64,
}

impl Wire for VertexWeight {
    type Model = VertexWeight;

    open spec fn model(&self) -> VertexWeight {
        *self
    }

    open spec fn writable(m: VertexWeight) -> bool {
        true
    }

    open spec fn wf(m: VertexWeight) -> bool {
        true
    }

    open spec fn encode(m: VertexWeight) -> Seq<u8> {
        <(u32, u64)>::encode((m.bone_id, m.weight))
    }

    open spec fn decode(s: Seq<u8>, pos: int) -> Result<(VertexWeight, int), FailureAt> {
        match <(u32, u64)>::decode(s, pos) {
            Ok(((bone_id, weight), p)) => Ok((VertexWeight { bone_id, weight }, p)),
            Err(e) => Err(e),
        }
    }

    proof fn lemma_decode_ok(s: Seq<u8>, pos: int) {
        <(u32, u64)>::lemma_decode_ok(s, pos);
    }

    proof fn lemma_decode_extend(s: Seq<u8>, t: Seq<u8>, pos: int) {
        <(u32, u64)>::lemma_decode_extend(s, t, pos);
    }

    proof fn lemma_roundtrip(m: VertexWeight, s: Seq<u8>, pos: int) {
        <(u32, u64)>::lemma_roundtrip((m.bone_id, m.weight), s, pos);
    }

    fn read(s: &[u8], pos: usize) -> (r: Result<(VertexWeight, usize), Failure>) {
        let ((bone_id, weight), p): ((u32, u64), usize) = <(u32, u64)>::read(s, pos)?;
        Ok((VertexWeight { bone_id, weight }, p))
    }

    fn fits(&self) -> (r: bool) {
        true
    }

    fn write(&self, out: &mut Vec<u8>) {
        (self.bone_id, self.weight).write(out);
    }
}

/// A bone of a skin and the transform applied before it.
#[derive(Debug, Clone, Copy)]
pub struct SkinBoneEntry {
    pub bone_node_id: u32,
    pub premul_transform: Matrix4,
}

pub struct SkinBoneEntryModel {
    pub bone_node_id: u32,
    pub premul_transform: Seq<u64>,
}

impl Wire for SkinBoneEntry {
    type Model = SkinBoneEntryModel;

    open spec fn model(&self) -> SkinBoneEntryModel {
        SkinBoneEntryModel {
            bone_node_id: self.bone_node_id,
            premul_transform: self.premul_transform.model(),
        }
    }

    open spec fn writable(m: SkinBoneEntryModel) -> bool {
        <(u32, Matrix4)>::writable((m.bone_node_id, m.premul_transform))
    }

    open spec fn wf(m: SkinBoneEntryModel) -> bool {
        <(u32, Matrix4)>::wf((m.bone_node_id, m.premul_transform))
    }

    open spec fn encode(m: SkinBoneEntryModel) -> Seq<u8> {
        <(u32, Matrix4)>::encode((m.bone_node_id, m.premul_transform))
    }

    open spec fn decode(s: Seq<u8>, pos: int) -> Result<(SkinBoneEntryModel, int), FailureAt> {
        match <(u32, Matrix4)>::decode(s, pos) {
            Ok(((bone_node_id, premul_transform), p)) => Ok(
                (SkinBoneEntryModel { bone_node_id, premul_transform }, p),
            ),
            Err(e) => Err(e),
        }
    }

    proof fn lemma_decode_ok(s: Seq<u8>, pos: int) {
        <(u32, Matrix4)>::lemma_decode_ok(s, pos);
    }

    proof fn lemma_decode_extend(s: Seq<u8>, t: Seq<u8>, pos: int) {
        <(u32, Matrix4)>::lemma_decode_extend(s, t, pos);
    }

    proof fn lemma_roundtrip(m: SkinBoneEntryModel, s: Seq<u8>, pos: int) {
        <(u32, Matrix4)>::lemma_roundtrip((m.bone_node_id, m.premul_transform), s, pos);
    }

    fn read(s: &[u8], pos: usize) -> (r: Result<(SkinBoneEntry, usize), Failure>) {
        let ((bone_node_id, premul_transform), p): ((u32, Matrix4), usize) = <(
            u32,
            Matrix4,
        )>::read(s, pos)?;
        Ok((SkinBoneEntry { bone_node_id, premul_transform }, p))
    }

    fn fits(&self) -> (r: bool) {
        true
    }

    fn write(&self, out: &mut Vec<u8>) {
        (self.bone_node_id, self.premul_transform).write(out);
    }
}

/// One per-vertex attribute of a mesh: a value of unknown meaning and the
/// attribute of each vertex.
#[derive(Debug, Clone)]
pub enum GeometryChannel {
    Position(u32, Vec<Vector3>),
    TexCoord(u32, Vec<Vector2>),
    Normal(u32, Vec<Vector3>),
    Binormal(u32, Vec<Vector3>),
    Tangent(u32, Vec<Vector3>),
    Colour(u32, Vec<Colour>),
}

pub enum GeometryChannelModel {
    Position(u32, Seq<Vector3>),
    TexCoord(u32, Seq<Vector2>),
    Normal(u32, Seq<Vector3>),
    Binormal(u32, Seq<Vector3>),
    Tangent(u32, Seq<Vector3>),
    Colour(u32, Seq<Colour>),
}

/// The tag that the file writes before a channel of each kind.
pub open spec fn channel_tag(m: GeometryChannelModel) -> u32 {
    match m {
        GeometryChannelModel::Position(..) => 0,
        GeometryChannelModel::TexCoord(..) => 1,
        GeometryChannelModel::Normal(..) => 2,
        GeometryChannelModel::Binormal(..) => 3,
        GeometryChannelModel::Tangent(..) => 4,
        GeometryChannelModel::Colour(..) => 5,
    }
}

/// The encoding of a channel's fields, after its tag.
pub open spec fn channel_body(m: GeometryChannelModel) -> Seq<u8> {
    match m {
        GeometryChannelModel::Position(n, d) => <(u32, Vec<Vector3>)>::encode((n, d)),
        GeometryChannelModel::TexCoord(n, d) => <(u32, Vec<Vector2>)>::encode((n, d)),
        GeometryChannelModel::Normal(n, d) => <(u32, Vec<Vector3>)>::encode((n, d)),
        GeometryChannelModel::Binormal(n, d) => <(u32, Vec<Vector3>)>::encode((n, d)),
        GeometryChannelModel::Tangent(n, d) => <(u32, Vec<Vector3>)>::encode((n, d)),
        GeometryChannelModel::Colour(n, d) => <(u32, Vec<Colour>)>::encode((n, d)),
    }
}

/// The number of vertices a channel describes, which bounds what it can hold.
pub open spec fn channel_len(m: GeometryChannelModel) -> nat {
    match m {
        GeometryChannelModel::Position(_, d) => d.len(),
        GeometryChannelModel::TexCoord(_, d) => d.len(),
        GeometryChannelModel::Normal(_, d) => d.len(),
        GeometryChannelModel::Binormal(_, d) => d.len(),
        GeometryChannelModel::Tangent(_, d) => d.len(),
        GeometryChannelModel::Colour(_, d) => d.len(),
    }
}

impl Wire for GeometryChannel {
    type Model = GeometryChannelModel;

    open spec fn model(&self) -> GeometryChannelModel {
        match self {
            GeometryChannel::Position(n, d) => GeometryChannelModel::Position(*n, d.model()),
            GeometryChannel::TexCoord(n, d) => GeometryChannelModel::TexCoord(*n, d.model()),
            GeometryChannel::Normal(n, d) => GeometryChannelModel::Normal(*n, d.model()),
            GeometryChannel::Binormal(n, d) => GeometryChannelModel::Binormal(*n, d.model()),
            GeometryChannel::Tangent(n, d) => GeometryChannelModel::Tangent(*n, d.model()),
            GeometryChannel::Colour(n, d) => GeometryChannelModel::Colour(*n, d.model()),
        }
    }

    open spec fn writable(m: GeometryChannelModel) -> bool {
        channel_len(m) <= u32::MAX
    }

    open spec fn wf(m: GeometryChannelModel) -> bool {
        channel_len(m) <= u32::MAX
    }

    open spec fn encode(m: GeometryChannelModel) -> Seq<u8> {
        u32::encode(channel_tag(m)) + channel_body(m)
    }

    open spec fn decode(s: Seq<u8>, pos: int) -> Result<(GeometryChannelModel, int), FailureAt> {
        match u32::decode(s, pos) {
            Ok((tag, p)) => if tag == 0 {
                match <(u32, Vec<Vector3>)>::decode(s, p) {
                    Ok(((n, d), q)) => Ok((GeometryChannelModel::Position(n, d), q)),
                    Err(e) => Err(e),
                }
            } else if tag == 1 {
                match <(u32, Vec<Vector2>)>::decode(s, p) {
                    Ok(((n, d), q)) => Ok((GeometryChannelModel::TexCoord(n, d), q)),
                    Err(e) => Err(e),
                }
            } else if tag == 2 {
                match <(u32, Vec<Vector3>)>::decode(s, p) {
                    Ok(((n, d), q)) => Ok((GeometryChannelModel::Normal(n, d), q)),
                    Err(e) => Err(e),
                }
            } else if tag == 3 {
                match <(u32, Vec<Vector3>)>::decode(s, p) {
                    Ok(((n, d), q)) => Ok((GeometryChannelModel::Binormal(n, d), q)),
                    Err(e) => Err(e),
                }
            } else if tag == 4 {
                match <(u32, Vec<Vector3>)>::decode(s, p) {
                    Ok(((n, d), q)) => Ok((GeometryChannelModel::Tangent(n, d), q)),
                    Err(e) => Err(e),
                }
            } else if tag == 5 {
                match <(u32, Vec<Colour>)>::decode(s, p) {
                    Ok(((n, d), q)) => Ok((GeometryChannelModel::Colour(n, d), q)),
                    Err(e) => Err(e),
                }
            } else {
                Err((ReadError::BadDiscriminant(EnumKind::GeometryChannel, tag), p))
            },
            Err(e) => Err(e),
        }
    }

    proof fn lemma_decode_ok(s: Seq<u8>, pos: int) {
        if let Ok((tag, p)) = u32::decode(s, pos) {
            <(u32, Vec<Vector3>)>::lemma_decode_ok(s, p);
            <(u32, Vec<Vector2>)>::lemma_decode_ok(s, p);
            <(u32, Vec<Colour>)>::lemma_decode_ok(s, p);
        }
    }

    proof fn lemma_decode_extend(s: Seq<u8>, t: Seq<u8>, pos: int) {
        u32::lemma_decode_extend(s, t, pos);
        if let Ok((tag, p)) = u32::decode(s, pos) {
            <(u32, Vec<Vector3>)>::lemma_decode_extend(s, t, p);
            <(u32, Vec<Vector2>)>::lemma_decode_extend(s, t, p);
            <(u32, Vec<Colour>)>::lemma_decode_extend(s, t, p);
        }
    }

    proof fn lemma_roundtrip(m: GeometryChannelModel, s: Seq<u8>, pos: int) {
        lemma_at_concat(s, pos, u32::encode(channel_tag(m)), channel_body(m));
        u32::lemma_roundtrip(channel_tag(m), s, pos);
        lemma_auto_spec_u32_to_from_le_bytes();
        let p = pos + 4;
        match m {
            GeometryChannelModel::Position(n, d) => <(u32, Vec<Vector3>)>::lemma_roundtrip((n, d), s, p),
            GeometryChannelModel::TexCoord(n, d) => <(u32, Vec<Vector2>)>::lemma_roundtrip((n, d), s, p),
            GeometryChannelModel::Normal(n, d) => <(u32, Vec<Vector3>)>::lemma_roundtrip((n, d), s, p),
            GeometryChannelModel::Binormal(n, d) => <(u32, Vec<Vector3>)>::lemma_roundtrip((n, d), s, p),
            GeometryChannelModel::Tangent(n, d) => <(u32, Vec<Vector3>)>::lemma_roundtrip((n, d), s, p),
            GeometryChannelModel::Colour(n, d) => <(u32, Vec<Colour>)>::lemma_roundtrip((n, d), s, p),
        }
    }

    fn read(s: &[u8], pos: usize) -> (r: Result<(GeometryChannel, usize), Failure>) {
        let (tag, p): (u32, usize) = u32::read(s, pos)?;
        if tag == 0 {
            let ((n, d), q): ((u32, Vec<Vector3>), usize) = <(u32, Vec<Vector3>)>::read(s, p)?;
            Ok((GeometryChannel::Position(n, d), q))
        } else if tag == 1 {
            let ((n, d), q): ((u32, Vec<Vector2>), usize) = <(u32, Vec<Vector2>)>::read(s, p)?;
            Ok((GeometryChannel::TexCoord(n, d), q))
        } else if tag == 2 {
            let ((n, d), q): ((u32, Vec<Vector3>), usize) = <(u32, Vec<Vector3>)>::read(s, p)?;
            Ok((GeometryChannel::Normal(n, d), q))
        } else if tag == 3 {
            let ((n, d), q): ((u32, Vec<Vector3>), usize) = <(u32, Vec<Vector3>)>::read(s, p)?;
            Ok((GeometryChannel::Binormal(n, d), q))
        } else if tag == 4 {
            let ((n, d), q): ((u32, Vec<Vector3>), usize) = <(u32, Vec<Vector3>)>::read(s, p)?;
            Ok((GeometryChannel::Tangent(n, d), q))
        } else if tag == 5 {
            let ((n, d), q): ((u32, Vec<Colour>), usize) = <(u32, Vec<Colour>)>::read(s, p)?;
            Ok((GeometryChannel::Colour(n, d), q))
        } else {
            Err((ReadError::BadDiscriminant(EnumKind::GeometryChannel, tag), p))
        }
    }

    fn fits(&self) -> (r: bool) {
        match self {
            GeometryChannel::Position(_, d) => d.fits(),
            GeometryChannel::TexCoord(_, d) => d.fits(),
            GeometryChannel::Normal(_, d) => d.fits(),
            GeometryChannel::Binormal(_, d) => d.fits(),
            GeometryChannel::Tangent(_, d) => d.fits(),
            GeometryChannel::Colour(_, d) => d.fits(),
        }
    }

    fn write(&self, out: &mut Vec<u8>) {
        let ghost start = out@;
        match self {
            GeometryChannel::Position(n, d) => {
                0u32.write(out);
                n.write(out);
                d.write(out);
            },
            GeometryChannel::TexCoord(n, d) => {
                1u32.write(out);
                n.write(out);
                d.write(out);
            },
            GeometryChannel::Normal(n, d) => {
                2u32.write(out);
                n.write(out);
                d.write(out);
            },
            GeometryChannel::Binormal(n, d) => {
                3u32.write(out);
                n.write(out);
                d.write(out);
            },
            GeometryChannel::Tangent(n, d) => {
                4u32.write(out);
                n.write(out);
                d.write(out);
            },
            GeometryChannel::Colour(n, d) => {
                5u32.write(out);
                n.write(out);
                d.write(out);
            },
        }
        assert(out@ =~= start + Self::encode(self.model()));
    }
}

/// How the bones deform a mesh: for each vertex, `weights_per_vertex`
/// weights, stored one vertex after another.
#[derive(Debug, Clone)]
pub struct GeometrySkin {
    pub root_node_id: u32,
    pub postmul_transform: Matrix4,
    pub bones: Vec<SkinBoneEntry>,
    pub weights_per_vertex: u32,
    pub weights: Vec<VertexWeight>,
    /// List of lists of bone IDs.
    pub bonesets: Vec<Vec<u32>>,
}

pub struct GeometrySkinModel {
    pub root_node_id: u32,
    pub postmul_transform: Seq<u64>,
    pub bones: Seq<SkinBoneEntryModel>,
    pub weights_per_vertex: u32,
    pub weights: Seq<VertexWeight>,
    pub bonesets: Seq<Seq<u32>>,
}

/// The fields of a skin that come before its weights.
type SkinHead = (u32, (Matrix4, (Vec<SkinBoneEntry>, u32)));

impl GeometrySkinModel {
    pub open spec fn head(self) -> (u32, (Seq<u64>, (Seq<SkinBoneEntryModel>, u32))) {
        (self.root_node_id, (self.postmul_transform, (self.bones, self.weights_per_vertex)))
    }

    pub open spec fn writable(self) -> bool {
        &&& SkinHead::writable(self.head())
        &&& Vec::<Vec<u32>>::writable(self.bonesets)
    }

    /// A skin for a mesh of `vertex_count` vertices.
    pub open spec fn wf(self, vertex_count: nat) -> bool {
        &&& SkinHead::wf(self.head())
        &&& Vec::<Vec<u32>>::wf(self.bonesets)
        &&& self.weights.len() == self.weights_per_vertex * vertex_count
    }

    /// The weights carry no count: the mesh's vertex count fixes it.
    pub open spec fn encode(self) -> Seq<u8> {
        SkinHead::encode(self.head()) + (encode_items::<VertexWeight>(self.weights)
            + Vec::<Vec<u32>>::encode(self.bonesets))
    }
}

impl GeometrySkin {
    pub open spec fn model(&self) -> GeometrySkinModel {
        GeometrySkinModel {
            root_node_id: self.root_node_id,
            postmul_transform: self.postmul_transform.model(),
            bones: self.bones.model(),
            weights_per_vertex: self.weights_per_vertex,
            weights: self.weights.model(),
            bonesets: self.bonesets.model(),
        }
    }
}

/// Reading the skin of a mesh of `vertex_count` vertices at offset `pos`.
pub open spec fn decode_skin(s: Seq<u8>, pos: int, vertex_count: nat) -> Result<
    (GeometrySkinModel, int),
    FailureAt,
> {
    match SkinHead::decode(s, pos) {
        Ok(((root_node_id, (postmul_transform, (bones, weights_per_vertex))), p)) => match decode_items::<
            VertexWeight,
        >(s, p, (weights_per_vertex * vertex_count) as nat) {
            Ok((weights, q)) => match Vec::<Vec<u32>>::decode(s, q) {
                Ok((bonesets, r)) => Ok(
                    (
                        GeometrySkinModel {
                            root_node_id,
                            postmul_transform,
                            bones,
                            weights_per_vertex,
                            weights,
                            bonesets,
                        },
                        r,
                    ),
                ),
                Err(e) => Err(e),
            },
            Err(e) => Err(e),
        },
        Err(e) => Err(e),
    }
}

/// A skin read for a mesh of `vertex_count` vertices stays inside the input,
/// can be written, and holds `weights_per_vertex` weights for each vertex.
pub proof fn lemma_decode_skin_ok(s: Seq<u8>, pos: int, vertex_count: nat)
    requires
        0 <= pos <= s.len(),
    ensures
        decode_skin(s, pos, vertex_count) matches Ok((m, p)) ==> {
            &&& pos <= p <= s.len()
            &&& m.writable()
            &&& m.wf(vertex_count)
            &&& m.weights.len() == m.weights_per_vertex * vertex_count
        },
{
    SkinHead::lemma_decode_ok(s, pos);
    if let Ok(((root, (post, (bones, wpv))), p)) = SkinHead::decode(s, pos) {
        let n = (wpv * vertex_count) as nat;
        lemma_decode_items_ok::<VertexWeight>(s, p, n);
        if let Ok((weights, q)) = decode_items::<VertexWeight>(s, p, n) {
            Vec::<Vec<u32>>::lemma_decode_ok(s, q);
        }
    }
}

pub proof fn lemma_decode_skin_extend(s: Seq<u8>, t: Seq<u8>, pos: int, vertex_count: nat)
    requires
        0 <= pos <= s.len(),
        s.is_prefix_of(t),
    ensures
        decode_skin(s, pos, vertex_count) is Ok ==> decode_skin(t, pos, vertex_count) == decode_skin(
            s,
            pos,
            vertex_count,
        ),
{
    SkinHead::lemma_decode_extend(s, t, pos);
    SkinHead::lemma_decode_ok(s, pos);
    if let Ok(((root, (post, (bones, wpv))), p)) = SkinHead::decode(s, pos) {
        let n = (wpv * vertex_count) as nat;
        lemma_decode_items_extend::<VertexWeight>(s, t, p, n);
        lemma_decode_items_ok::<VertexWeight>(s, p, n);
        if let Ok((weights, q)) = decode_items::<VertexWeight>(s, p, n) {
            Vec::<Vec<u32>>::lemma_decode_extend(s, t, q);
        }
    }
}

pub proof fn lemma_skin_roundtrip(m: GeometrySkinModel, s: Seq<u8>, pos: int, vertex_count: nat)
    requires
        m.wf(vertex_count),
        is_at(s, pos, m.encode()),
    ensures
        decode_skin(s, pos, vertex_count) == Ok::<(GeometrySkinModel, int), FailureAt>(
            (m, pos + m.encode().len()),
        ),
{
    let e1 = SkinHead::encode(m.head());
    let e2 = encode_items::<VertexWeight>(m.weights);
    let e3 = Vec::<Vec<u32>>::encode(m.bonesets);
    lemma_at_concat(s, pos, e1, e2 + e3);
    lemma_at_concat(s, pos + e1.len(), e2, e3);
    SkinHead::lemma_roundtrip(m.head(), s, pos);
    assert(all_wf::<VertexWeight>(m.weights));
    lemma_items_roundtrip::<VertexWeight>(m.weights, s, pos + e1.len());
    Vec::<Vec<u32>>::lemma_roundtrip(m.bonesets, s, pos + e1.len() + e2.len());
}

/// Where reading weights from `pos` runs out of an input of `len` bytes: past
/// every whole weight that is there, and past the bone id of a last, partial
/// weight where its four bytes are there.
pub open spec fn weights_stop(len: int, pos: int) -> int {
    pos + 12 * ((len - pos) / 12) + if (len - pos) % 12 >= 4 {
        4int
    } else {
        0int
    }
}

/// Reading `n` weights either consumes twelve bytes each or runs out of input
/// at `weights_stop`.
proof fn lemma_weight_items(s: Seq<u8>, pos: int, n: nat)
    requires
        0 <= pos <= s.len(),
    ensures
        match decode_items::<VertexWeight>(s, pos, n) {
            Ok((_, p)) => p == pos + 12 * n,
            Err((e, at)) => e == ReadError::UnexpectedEof && at == weights_stop(s.len() as int, pos),
        },
    decreases n,
{
    if n > 0 {
        lemma_weight_items(s, pos, (n - 1) as nat);
        lemma_decode_items_ok::<VertexWeight>(s, pos, (n - 1) as nat);
        if let Ok((_, p)) = decode_items::<VertexWeight>(s, pos, (n - 1) as nat) {
            if VertexWeight::decode(s, p) is Err {
                vstd::arithmetic::div_mod::lemma_fundamental_div_mod_converse(
                    s.len() - pos,
                    12,
                    n - 1,
                    s.len() - p,
                );
            }
        }
    }
}

/// Reads the skin of a mesh of `vertex_count` vertices at offset `pos`.
pub fn read_skin(s: &[u8], pos: usize, vertex_count: usize) -> (r: Result<(GeometrySkin, usize), Failure>)
    requires
        pos <= s@.len(),
    ensures
        match r {
            Ok((k, p)) => decode_skin(s@, pos as int, vertex_count as nat) == Ok::<
                (GeometrySkinModel, int),
                FailureAt,
            >((k.model(), p as int)),
            Err(e) => decode_skin(s@, pos as int, vertex_count as nat) == Err::<
                (GeometrySkinModel, int),
                FailureAt,
            >((e.0, e.1 as int)),
        },
{
    let ((root_node_id, (postmul_transform, (bones, weights_per_vertex))), p): (SkinHead, usize) =
        SkinHead::read(s, pos)?;
    proof {
        SkinHead::lemma_decode_ok(s@, pos as int);
    }
    let wpv: u128 = weights_per_vertex as u128;
    let vc: u128 = vertex_count as u128;
    assert(wpv * vc <= 0xffff_ffffu128 * 0xffff_ffff_ffff_ffffu128) by (nonlinear_arith)
        requires
            wpv <= 0xffff_ffffu128,
            vc <= 0xffff_ffff_ffff_ffffu128,
    ;
    let total: u128 = wpv * vc;
    let room: usize = (s.len() - p) / 12;
    if total > room as u128 {
        proof {
            lemma_weight_items(s@, p as int, total as nat);
            lemma_decode_items_ok::<VertexWeight>(s@, p as int, total as nat);
        }
        let left: usize = s.len() - p;
        let partial: usize = if left % 12 >= 4 {
            4
        } else {
            0
        };
        return Err((ReadError::UnexpectedEof, p + 12 * room + partial));
    }
    let (weights, q): (Vec<VertexWeight>, usize) = read_items::<VertexWeight>(s, p, total as usize)?;
    proof {
        lemma_decode_items_ok::<VertexWeight>(s@, p as int, total as nat);
    }
    let (bonesets, r): (Vec<Vec<u32>>, usize) = Vec::<Vec<u32>>::read(s, q)?;
    Ok((GeometrySkin { root_node_id, postmul_transform, bones, weights_per_vertex, weights, bonesets }, r))
}

impl GeometrySkin {
    /// Whether the skin can be written.
    pub fn fits(&self) -> (r: bool)
        ensures
            r == self.model().writable(),
    {
        self.bones.fits() && self.bonesets.fits()
    }

    pub fn write(&self, out: &mut Vec<u8>)
        requires
            self.model().writable(),
        ensures
            final(out)@ == old(out)@ + self.model().encode(),
    {
        let ghost start = out@;
        self.root_node_id.write(out);
        self.postmul_transform.write(out);
        self.bones.write(out);
        self.weights_per_vertex.write(out);
        write_items(self.weights.as_slice(), out);
        self.bonesets.write(out);
        assert(out@ =~= start + self.model().encode());
    }
}

/// The vertex count of the first position channel at index `i` or later.
pub open spec fn first_position_from(chs: Seq<GeometryChannelModel>, i: int) -> Option<nat>
    decreases chs.len() - i,
{
    if i < 0 || i >= chs.len() {
        None
    } else {
        match chs[i] {
            GeometryChannelModel::Position(_, d) => Some(d.len()),
            _ => first_position_from(chs, i + 1),
        }
    }
}

/// The vertex count of a mesh: that of its first position channel.
pub open spec fn vertex_count(chs: Seq<GeometryChannelModel>) -> Option<nat> {
    first_position_from(chs, 0)
}

/// The vertex count of a mesh is the number of values in its first position
/// channel; a mesh with no position channel has none.
pub proof fn lemma_vertex_count(chs: Seq<GeometryChannelModel>)
    ensures
        vertex_count(chs) matches Some(n) ==> exists|i: int|
            0 <= i < chs.len() && (#[trigger] chs[i] matches GeometryChannelModel::Position(_, d)
                && d.len() == n) && forall|j: int| 0 <= j < i ==> !(chs[j] is Position),
        vertex_count(chs) is None <==> forall|i: int| 0 <= i < chs.len() ==> !(#[trigger] chs[i] is Position),
{
    lemma_first_position_from(chs, 0);
}

proof fn lemma_first_position_from(chs: Seq<GeometryChannelModel>, k: int)
    requires
        0 <= k,
    ensures
        first_position_from(chs, k) matches Some(n) ==> exists|i: int|
            k <= i < chs.len() && (#[trigger] chs[i] matches GeometryChannelModel::Position(_, d)
                && d.len() == n) && forall|j: int| k <= j < i ==> !(chs[j] is Position),
        first_position_from(chs, k) is None <==> forall|i: int| k <= i < chs.len() ==> !(#[trigger] chs[i] is Position),
    decreases chs.len() - k,
{
    if k < chs.len() {
        lemma_first_position_from(chs, k + 1);
        match chs[k] {
            GeometryChannelModel::Position(_, d) => {
                assert(chs[k] matches GeometryChannelModel::Position(_, d) && d.len() == d.len());
            },
            _ => {
                if let Some(n) = first_position_from(chs, k + 1) {
                    let i = choose|i: int|
                        k + 1 <= i < chs.len() && (#[trigger] chs[i] matches GeometryChannelModel::Position(_, d)
                            && d.len() == n) && forall|j: int| k + 1 <= j < i ==> !(chs[j] is Position);
                    assert(forall|j: int| k <= j < i ==> !(chs[j] is Position));
                }
            },
        }
    }
}

/// Finds the vertex count of a mesh from its channels.
pub fn find_vertex_count(channels: &Vec<GeometryChannel>) -> (r: Option<usize>)
    ensures
        match r {
            Some(n) => vertex_count(channels.model()) == Some(n as nat),
            None => vertex_count(channels.model()) is None,
        },
{
    let ghost chs = channels.model();
    let mut i: usize = 0;
    while i < channels.len()
        invariant
            i <= channels@.len(),
            chs == channels.model(),
            first_position_from(chs, 0) == first_position_from(chs, i as int),
        decreases channels@.len() - i,
    {
        assert(chs[i as int] == channels@[i as int].model());
        match &channels[i] {
            GeometryChannel::Position(_, d) => {
                return Some(d.len());
            },
            _ => {},
        }
        i = i + 1;
    }
    None
}

/// A mesh attached to a node.
#[derive(Debug, Clone)]
pub struct Geometry {
    pub node_id: u32,
    /// ID of mesh material; 0xFFFFFFFF means none.
    pub material_id: u32,
    pub casts_shadows: u8,
    pub receives_shadows: u8,
    pub channels: Vec<GeometryChannel>,
    pub faces: Vec<GeometryFace>,
    pub skin: Option<GeometrySkin>,
    pub override_bounding_box: Option<BoundingBox>,
}

pub struct GeometryModel {
    pub node_id: u32,
    pub material_id: u32,
    pub casts_shadows: u8,
    pub receives_shadows: u8,
    pub channels: Seq<GeometryChannelModel>,
    pub faces: Seq<GeometryFaceModel>,
    pub skin: Option<GeometrySkinModel>,
    pub override_bounding_box: Option<BoundingBox>,
}

/// The fields of a mesh that come before its skin.
type GeometryHead = (u32, (u32, (u8, (u8, (Vec<GeometryChannel>, Vec<GeometryFace>)))));

impl GeometryModel {
    pub open spec fn head(self) -> (
        u32,
        (u32, (u8, (u8, (Seq<GeometryChannelModel>, Seq<GeometryFaceModel>)))),
    ) {
        (
            self.node_id,
            (
                self.material_id,
                (self.casts_shadows, (self.receives_shadows, (self.channels, self.faces))),
            ),
        )
    }
}

impl Default for Geometry {
    /// A mesh with zero ids and flags, no channels, faces, skin or box.
    fn default() -> (r: Geometry)
        ensures
            r.node_id == 0,
            r.material_id == 0,
            r.casts_shadows == 0,
            r.receives_shadows == 0,
            r.channels@.len() == 0,
            r.faces@.len() == 0,
            r.skin is None,
            r.override_bounding_box is None,
    {
        Geometry {
            node_id: 0,
            material_id: 0,
            casts_shadows: 0,
            receives_shadows: 0,
            channels: Vec::new(),
            faces: Vec::new(),
            skin: None,
            override_bounding_box: None,
        }
    }
}

/// A flag, then the skin where the flag is set.
pub open spec fn encode_skin_part(skin: Option<GeometrySkinModel>) -> Seq<u8> {
    match skin {
        Some(k) => bool::encode(true) + k.encode(),
        None => bool::encode(false),
    }
}

/// A flag, then the box where the flag is set.
pub open spec fn encode_box_part(bbox: Option<BoundingBox>) -> Seq<u8> {
    match bbox {
        Some(b) => bool::encode(true) + BoundingBox::encode(b),
        None => bool::encode(false),
    }
}

pub open spec fn decode_skin_part(s: Seq<u8>, pos: int, channels: Seq<GeometryChannelModel>) -> Result<
    (Option<GeometrySkinModel>, int),
    FailureAt,
> {
    match bool::decode(s, pos) {
        Ok((has_skin, p)) => if has_skin {
            match vertex_count(channels) {
                Some(vc) => match decode_skin(s, p, vc) {
                    Ok((k, q)) => Ok((Some(k), q)),
                    Err(e) => Err(e),
                },
                None => Err((ReadError::Schema(SchemaError::SkinWithoutVertices), p)),
            }
        } else {
            Ok((None, p))
        },
        Err(e) => Err(e),
    }
}

pub open spec fn decode_box_part(s: Seq<u8>, pos: int) -> Result<(Option<BoundingBox>, int), FailureAt> {
    match bool::decode(s, pos) {
        Ok((has_box, p)) => if has_box {
            match BoundingBox::decode(s, p) {
                Ok((b, q)) => Ok((Some(b), q)),
                Err(e) => Err(e),
            }
        } else {
            Ok((None, p))
        },
        Err(e) => Err(e),
    }
}

impl Wire for Geometry {
    type Model = GeometryModel;

    open spec fn model(&self) -> GeometryModel {
        GeometryModel {
            node_id: self.node_id,
            material_id: self.material_id,
            casts_shadows: self.casts_shadows,
            receives_shadows: self.receives_shadows,
            channels: self.channels.model(),
            faces: self.faces.model(),
            skin: match self.skin {
                Some(k) => Some(k.model()),
                None => None,
            },
            override_bounding_box: self.override_bounding_box,
        }
    }

    open spec fn writable(m: GeometryModel) -> bool {
        &&& GeometryHead::writable(m.head())
        &&& m.skin matches Some(k) ==> k.writable()
    }

    /// A skin needs vertex positions, and one set of weights per vertex.
    open spec fn wf(m: GeometryModel) -> bool {
        &&& GeometryHead::wf(m.head())
        &&& m.skin matches Some(k) ==> (vertex_count(m.channels) matches Some(vc) && k.wf(vc))
    }

    open spec fn encode(m: GeometryModel) -> Seq<u8> {
        GeometryHead::encode(m.head()) + (encode_skin_part(m.skin) + encode_box_part(
            m.override_bounding_box,
        ))
    }

    open spec fn decode(s: Seq<u8>, pos: int) -> Result<(GeometryModel, int), FailureAt> {
        match GeometryHead::decode(s, pos) {
            Ok(
                (
                    (
                        node_id,
                        (material_id, (casts_shadows, (receives_shadows, (channels, faces)))),
                    ),
                    p,
                ),
            ) => match decode_skin_part(s, p, channels) {
                Ok((skin, q)) => match decode_box_part(s, q) {
                    Ok((override_bounding_box, r)) => Ok(
                        (
                            GeometryModel {
                                node_id,
                                material_id,
                                casts_shadows,
                                receives_shadows,
                                channels,
                                faces,
                                skin,
                                override_bounding_box,
                            },
                            r,
                        ),
                    ),
                    Err(e) => Err(e),
                },
                Err(e) => Err(e),
            },
            Err(e) => Err(e),
        }
    }

    proof fn lemma_decode_ok(s: Seq<u8>, pos: int) {
        GeometryHead::lemma_decode_ok(s, pos);
        if let Ok((head, p)) = GeometryHead::decode(s, pos) {
            let channels = head.1.1.1.1.0;
            if let Ok((has_skin, p1)) = bool::decode(s, p) {
                if has_skin {
                    if let Some(vc) = vertex_count(channels) {
                        lemma_decode_skin_ok(s, p1, vc);
                    }
                }
            }
            if let Ok((skin, q)) = decode_skin_part(s, p, channels) {
                if let Ok((has_box, q1)) = bool::decode(s, q) {
                    BoundingBox::lemma_decode_ok(s, q1);
                }
            }
        }
    }

    proof fn lemma_decode_extend(s: Seq<u8>, t: Seq<u8>, pos: int) {
        GeometryHead::lemma_decode_extend(s, t, pos);
        GeometryHead::lemma_decode_ok(s, pos);
        if let Ok((head, p)) = GeometryHead::decode(s, pos) {
            let channels = head.1.1.1.1.0;
            bool::lemma_decode_extend(s, t, p);
            if let Ok((has_skin, p1)) = bool::decode(s, p) {
                if has_skin {
                    if let Some(vc) = vertex_count(channels) {
                        lemma_decode_skin_extend(s, t, p1, vc);
                        lemma_decode_skin_ok(s, p1, vc);
                    }
                }
            }
            if let Ok((skin, q)) = decode_skin_part(s, p, channels) {
                if let Ok((has_skin, p1)) = bool::decode(s, p) {
                    if has_skin {
                        if let Some(vc) = vertex_count(channels) {
                            lemma_decode_skin_ok(s, p1, vc);
                        }
                    }
                }
                bool::lemma_decode_extend(s, t, q);
                if let Ok((has_box, q1)) = bool::decode(s, q) {
                    BoundingBox::lemma_decode_extend(s, t, q1);
                }
            }
        }
    }

    proof fn lemma_roundtrip(m: GeometryModel, s: Seq<u8>, pos: int) {
        let e1 = GeometryHead::encode(m.head());
        let e2 = encode_skin_part(m.skin);
        let e3 = encode_box_part(m.override_bounding_box);
        lemma_at_concat(s, pos, e1, e2 + e3);
        lemma_at_concat(s, pos + e1.len(), e2, e3);
        GeometryHead::lemma_roundtrip(m.head(), s, pos);
        let p = pos + e1.len();
        match m.skin {
            Some(k) => {
                lemma_at_concat(s, p, bool::encode(true), k.encode());
                bool::lemma_roundtrip(true, s, p);
                let vc = vertex_count(m.channels)->0;
                lemma_skin_roundtrip(k, s, p + 1, vc);
            },
            None => {
                bool::lemma_roundtrip(false, s, p);
            },
        }
        let q = p + e2.len();
        match m.override_bounding_box {
            Some(b) => {
                lemma_at_concat(s, q, bool::encode(true), BoundingBox::encode(b));
                bool::lemma_roundtrip(true, s, q);
                BoundingBox::lemma_roundtrip(b, s, q + 1);
            },
            None => {
                bool::lemma_roundtrip(false, s, q);
            },
        }
    }

    fn read(s: &[u8], pos: usize) -> (r: Result<(Geometry, usize), Failure>) {
        let (
            (node_id, (material_id, (casts_shadows, (receives_shadows, (channels, faces))))),
            p,
        ): (GeometryHead, usize) = GeometryHead::read(s, pos)?;
        proof {
            GeometryHead::lemma_decode_ok(s@, pos as int);
        }
        let (has_skin, p): (bool, usize) = bool::read(s, p)?;
        let mut skin: Option<GeometrySkin> = None;
        let mut q: usize = p;
        if has_skin {
            match find_vertex_count(&channels) {
                Some(vc) => {
                    let (k, q1): (GeometrySkin, usize) = read_skin(s, p, vc)?;
                    proof {
                        lemma_decode_skin_ok(s@, p as int, vc as nat);
                    }
                    skin = Some(k);
                    q = q1;
                },
                None => {
                    return Err((ReadError::Schema(SchemaError::SkinWithoutVertices), p));
                },
            }
        }
        let (has_box, q): (bool, usize) = bool::read(s, q)?;
        let mut override_bounding_box: Option<BoundingBox> = None;
        let mut r: usize = q;
        if has_box {
            let (b, r1): (BoundingBox, usize) = BoundingBox::read(s, q)?;
            override_bounding_box = Some(b);
            r = r1;
        }
        let g = Geometry {
            node_id,
            material_id,
            casts_shadows,
            receives_shadows,
            channels,
            faces,
            skin,
            override_bounding_box,
        };
        Ok((g, r))
    }

    fn fits(&self) -> (r: bool) {
        let skin_fits: bool = match &self.skin {
            Some(k) => k.fits(),
            None => true,
        };
        self.channels.fits() && self.faces.fits() && skin_fits
    }

    fn write(&self, out: &mut Vec<u8>) {
        let ghost start = out@;
        self.node_id.write(out);
        self.material_id.write(out);
        self.casts_shadows.write(out);
        self.receives_shadows.write(out);
        self.channels.write(out);
        self.faces.write(out);
        assert(out@ =~= start + GeometryHead::encode(self.model().head()));
        write_skin_part(&self.skin, out);
        write_box_part(&self.override_bounding_box, out);
        assert(out@ =~= start + Self::encode(self.model()));
    }
}

fn write_skin_part(skin: &Option<GeometrySkin>, out: &mut Vec<u8>)
    requires
        skin matches Some(k) ==> k.model().writable(),
    ensures
        final(out)@ == old(out)@ + encode_skin_part(
            match skin {
                Some(k) => Some(k.model()),
                None => None,
            },
        ),
{
    let ghost start = out@;
    match skin {
        Some(k) => {
            true.write(out);
            k.write(out);
            assert(out@ =~= start + (bool::encode(true) + k.model().encode()));
        },
        None => {
            false.write(out);
        },
    }
}

fn write_box_part(bbox: &Option<BoundingBox>, out: &mut Vec<u8>)
    ensures
        final(out)@ == old(out)@ + encode_box_part(*bbox),
{
    let ghost start = out@;
    match bbox {
        Some(b) => {
            true.write(out);
            b.write(out);
            assert(out@ =~= start + (bool::encode(true) + BoundingBox::encode(*b)));
        },
        None => {
            false.write(out);
        },
    }
}

// ---------------------------------------------------------------- layouts

/// A 2-vector is written as its fields one after the other, in this order:
/// x, y.
pub proof fn lemma_vector2_layout(m: Vector2)
    ensures
        Vector2::encode(m) == u64::encode(m.x) + u64::encode(m.y),
{
    assert(Vector2::encode(m) =~= u64::encode(m.x) + u64::encode(m.y));
}

/// A 3-vector is written as its fields one after the other, in this order:
/// x, y, z.
pub proof fn lemma_vector3_layout(m: Vector3)
    ensures
        Vector3::encode(m) == u64::encode(m.x) + u64::encode(m.y) + u64::encode(m.z),
{
    assert(Vector3::encode(m) =~= u64::encode(m.x) + u64::encode(m.y) + u64::encode(m.z));
}

/// A colour is written as its fields one after the other, in this order:
/// r, g, b.
pub proof fn lemma_colour_layout(m: Colour)
    ensures
        Colour::encode(m) == u64::encode(m.r) + u64::encode(m.g) + u64::encode(m.b),
{
    assert(Colour::encode(m) =~= u64::encode(m.r) + u64::encode(m.g) + u64::encode(m.b));
}

/// A bounding box is written as its fields one after the other, in this order:
/// min, max.
pub proof fn lemma_bounding_box_layout(m: BoundingBox)
    ensures
        BoundingBox::encode(m) == Vector3::encode(m.min) + Vector3::encode(m.max),
{
    assert(BoundingBox::encode(m) =~= Vector3::encode(m.min) + Vector3::encode(m.max));
}

/// A face corner is written as its fields one after the other, in this order:
/// channel, a, b, c.
pub proof fn lemma_faceloop_layout(m: GeometryFaceloop)
    ensures
        GeometryFaceloop::encode(m) == u32::encode(m.channel) + u32::encode(m.a) + u32::encode(m.b) + u32::encode(m.c),
{
    assert(GeometryFaceloop::encode(m) =~= u32::encode(m.channel) + u32::encode(m.a) + u32::encode(m.b) + u32::encode(m.c));
}

/// A face is written as its fields one after the other, in this order:
/// material_id, unknown1, loops.
pub proof fn lemma_face_layout(m: GeometryFaceModel)
    ensures
        GeometryFace::encode(m) == u32::encode(m.material_id) + u32::encode(m.unknown1) + Vec::<GeometryFaceloop>::encode(m.loops),
{
    assert(GeometryFace::encode(m) =~= u32::encode(m.material_id) + u32::encode(m.unknown1) + Vec::<GeometryFaceloop>::encode(m.loops));
}

/// A vertex weight is written as its fields one after the other, in this order:
/// bone_id, weight.
pub proof fn lemma_vertex_weight_layout(m: VertexWeight)
    ensures
        VertexWeight::encode(m) == u32::encode(m.bone_id) + u64::encode(m.weight),
{
    assert(VertexWeight::encode(m) =~= u32::encode(m.bone_id) + u64::encode(m.weight));
}

/// A skin bone is written as its fields one after the other, in this order:
/// bone_node_id, premul_transform.
pub proof fn lemma_skin_bone_layout(m: SkinBoneEntryModel)
    ensures
        SkinBoneEntry::encode(m) == u32::encode(m.bone_node_id) + Matrix4::encode(m.premul_transform),
{
    assert(SkinBoneEntry::encode(m) =~= u32::encode(m.bone_node_id) + Matrix4::encode(m.premul_transform));
}

/// A matrix is written as its sixteen elements in order, eight bytes each:
/// element `i` at offset `8 * i`.
pub proof fn lemma_matrix_layout(m: Seq<u64>, i: int)
    requires
        m.len() == 16,
        0 <= i < 16,
    ensures
        Matrix4::encode(m).len() == 128,
        Matrix4::encode(m).subrange(8 * i, 8 * i + 8) == u64::encode(m[i]),
{
    lemma_u64_items_at(m, i);
}

/// A skin is written as its root node, its transform, its bones, its weights
/// per vertex, its weights (with no count) and its bone sets, in that order.
pub proof fn lemma_skin_layout(m: GeometrySkinModel)
    ensures
        m.encode() == u32::encode(m.root_node_id) + Matrix4::encode(m.postmul_transform)
            + Vec::<SkinBoneEntry>::encode(m.bones) + u32::encode(m.weights_per_vertex)
            + encode_items::<VertexWeight>(m.weights) + Vec::<Vec<u32>>::encode(m.bonesets),
{
    assert(m.encode() =~= u32::encode(m.root_node_id) + Matrix4::encode(m.postmul_transform)
        + Vec::<SkinBoneEntry>::encode(m.bones) + u32::encode(m.weights_per_vertex)
        + encode_items::<VertexWeight>(m.weights) + Vec::<Vec<u32>>::encode(m.bonesets));
}

/// A mesh is written as its node, its material, its two shadow flags, its
/// channels and its faces; then a flag byte, one where a skin follows and zero
/// where none does; then a flag byte, one where a bounding box follows and
/// zero where none does.
pub proof fn lemma_geometry_layout(m: GeometryModel)
    ensures
        Geometry::encode(m) == u32::encode(m.node_id) + u32::encode(m.material_id) + u8::encode(
            m.casts_shadows,
        ) + u8::encode(m.receives_shadows) + Vec::<GeometryChannel>::encode(m.channels)
            + Vec::<GeometryFace>::encode(m.faces) + match m.skin {
            Some(k) => seq![1u8] + k.encode(),
            None => seq![0u8],
        } + match m.override_bounding_box {
            Some(b) => seq![1u8] + BoundingBox::encode(b),
            None => seq![0u8],
        },
{
    let skin_part = match m.skin {
        Some(k) => seq![1u8] + k.encode(),
        None => seq![0u8],
    };
    let box_part = match m.override_bounding_box {
        Some(b) => seq![1u8] + BoundingBox::encode(b),
        None => seq![0u8],
    };
    assert(encode_skin_part(m.skin) =~= skin_part);
    assert(encode_box_part(m.override_bounding_box) =~= box_part);
    assert(Geometry::encode(m) =~= u32::encode(m.node_id) + u32::encode(m.material_id) + u8::encode(
        m.casts_shadows,
    ) + u8::encode(m.receives_shadows) + Vec::<GeometryChannel>::encode(m.channels)
        + Vec::<GeometryFace>::encode(m.faces) + skin_part + box_part);
}

/// Each kind of channel is written with its tag: 0 for positions, 1 for
/// texture coordinates, 2 for normals, 3 for binormals, 4 for tangents and 5
/// for colours; then its first value and its list.
pub proof fn lemma_channel_layout(m: GeometryChannelModel)
    ensures
        match m {
            GeometryChannelModel::Position(n, d) => GeometryChannel::encode(m) == u32::encode(0)
                + u32::encode(n) + Vec::<Vector3>::encode(d),
            GeometryChannelModel::TexCoord(n, d) => GeometryChannel::encode(m) == u32::encode(1)
                + u32::encode(n) + Vec::<Vector2>::encode(d),
            GeometryChannelModel::Normal(n, d) => GeometryChannel::encode(m) == u32::encode(2)
                + u32::encode(n) + Vec::<Vector3>::encode(d),
            GeometryChannelModel::Binormal(n, d) => GeometryChannel::encode(m) == u32::encode(3)
                + u32::encode(n) + Vec::<Vector3>::encode(d),
            GeometryChannelModel::Tangent(n, d) => GeometryChannel::encode(m) == u32::encode(4)
                + u32::encode(n) + Vec::<Vector3>::encode(d),
            GeometryChannelModel::Colour(n, d) => GeometryChannel::encode(m) == u32::encode(5)
                + u32::encode(n) + Vec::<Colour>::encode(d),
        },
{
    match m {
        GeometryChannelModel::Position(n, d) => lemma_concat_assoc(
            u32::encode(0),
            u32::encode(n),
            Vec::<Vector3>::encode(d),
        ),
        GeometryChannelModel::TexCoord(n, d) => lemma_concat_assoc(
            u32::encode(1),
            u32::encode(n),
            Vec::<Vector2>::encode(d),
        ),
        GeometryChannelModel::Normal(n, d) => lemma_concat_assoc(
            u32::encode(2),
            u32::encode(n),
            Vec::<Vector3>::encode(d),
        ),
        GeometryChannelModel::Binormal(n, d) => lemma_concat_assoc(
            u32::encode(3),
            u32::encode(n),
            Vec::<Vector3>::encode(d),
        ),
        GeometryChannelModel::Tangent(n, d) => lemma_concat_assoc(
            u32::encode(4),
            u32::encode(n),
            Vec::<Vector3>::encode(d),
        ),
        GeometryChannelModel::Colour(n, d) => lemma_concat_assoc(
            u32::encode(5),
            u32::encode(n),
            Vec::<Colour>::encode(d),
        ),
    }
}

/// Reading a channel gives the kind that its tag stands for: 0 positions, 1
/// texture coordinates, 2 normals, 3 binormals, 4 tangents, 5 colours; any
/// other tag fails.
pub proof fn lemma_channel_read(s: Seq<u8>, pos: int)
    ensures
        GeometryChannel::decode(s, pos) matches Ok((c, _)) ==> (u32::decode(s, pos) matches Ok((t, _))
            && (t == 0 <==> c is Position) && (t == 1 <==> c is TexCoord) && (t == 2 <==> c is Normal)
            && (t == 3 <==> c is Binormal) && (t == 4 <==> c is Tangent) && (t == 5 <==> c is Colour)),
        u32::decode(s, pos) matches Ok((t, _)) ==> (t > 5 ==> GeometryChannel::decode(s, pos) is Err),
{
}

} // verus!
