//! Chunks: the typed contents of a file's sections.
use vstd::prelude::*;
use crate::error::{EnumKind, Failure, FailureAt, ReadError};
use crate::geometry::{Geometry, GeometryModel};
use crate::scene::{
    Camera, KeyEvents, KeyEventsModel, Light, Material, MaterialModel, MaterialsXml,
    MaterialsXmlModel, Node, NodeModel, SceneInfo1, SceneInfo2, SceneInfo2Model, SceneInfo3,
    SceneInfo3Model,
};
use crate::wire::{Wire, is_at, lemma_strict_prefix_fails};

verus! {

/// The kind of a chunk, as a section's type code gives it.
#[derive(Debug, Clone, Copy, PartialEq, Eq, Structural)]
pub enum ChunkId {
    SceneInfo1,
    SceneInfo2,
    SceneInfo3,
    Material,
    MaterialsXml,
    Node,
    Geometry,
    Light,
    Camera,
    KeyEvents,
}

impl ChunkId {
    /// The number that stands for the variant in a file.
    pub open spec fn code(self) -> u32 {
        match self {
            ChunkId::SceneInfo1 => 3,
            ChunkId::SceneInfo2 => 12,
            ChunkId::SceneInfo3 => 20,
            ChunkId::Material => 4,
            ChunkId::MaterialsXml => 11,
            ChunkId::Node => 0,
            ChunkId::Geometry => 5,
            ChunkId::Light => 10,
            ChunkId::Camera => 19,
            ChunkId::KeyEvents => 21,
        }
    }

    pub open spec fn from_code(v: u32) -> Option<ChunkId> {
        if v == 3 {
            Some(ChunkId::SceneInfo1)
        } else if v == 12 {
            Some(ChunkId::SceneInfo2)
        } else if v == 20 {
            Some(ChunkId::SceneInfo3)
        } else if v == 4 {
            Some(ChunkId::Material)
        } else if v == 11 {
            Some(ChunkId::MaterialsXml)
        } else if v == 0 {
            Some(ChunkId::Node)
        } else if v == 5 {
            Some(ChunkId::Geometry)
        } else if v == 10 {
            Some(ChunkId::Light)
        } else if v == 19 {
            Some(ChunkId::Camera)
        } else if v == 21 {
            Some(ChunkId::KeyEvents)
        } else {
            None
        }
    }

    pub fn to_u32(self) -> (r: u32)
        ensures
            r == self.code(),
    {
        match self {
            ChunkId::SceneInfo1 => 3,
            ChunkId::SceneInfo2 => 12,
            ChunkId::SceneInfo3 => 20,
            ChunkId::Material => 4,
            ChunkId::MaterialsXml => 11,
            ChunkId::Node => 0,
            ChunkId::Geometry => 5,
            ChunkId::Light => 10,
            ChunkId::Camera => 19,
            ChunkId::KeyEvents => 21,
        }
    }

    pub fn try_from_u32(v: u32) -> (r: Option<ChunkId>)
        ensures
            r == Self::from_code(v),
    {
        if v == 3 {
            Some(ChunkId::SceneInfo1)
        } else if v == 12 {
            Some(ChunkId::SceneInfo2)
        } else if v == 20 {
            Some(ChunkId::SceneInfo3)
        } else if v == 4 {
            Some(ChunkId::Material)
        } else if v == 11 {
            Some(ChunkId::MaterialsXml)
        } else if v == 0 {
            Some(ChunkId::Node)
        } else if v == 5 {
            Some(ChunkId::Geometry)
        } else if v == 10 {
            Some(ChunkId::Light)
        } else if v == 19 {
            Some(ChunkId::Camera)
        } else if v == 21 {
            Some(ChunkId::KeyEvents)
        } else {
            None
        }
    }
}

impl Wire for ChunkId {
    type Model = ChunkId;

    open spec fn model(&self) -> ChunkId {
        *self
    }

    open spec fn writable(m: ChunkId) -> bool {
        true
    }

    open spec fn wf(m: ChunkId) -> bool {
        true
    }

    open spec fn encode(m: ChunkId) -> Seq<u8> {
        u32::encode(m.code())
    }

    open spec fn decode(s: Seq<u8>, pos: int) -> Result<(ChunkId, int), FailureAt> {
        match u32::decode(s, pos) {
            Ok((v, p)) => match ChunkId::from_code(v) {
                Some(t) => Ok((t, p)),
                None => Err((ReadError::BadDiscriminant(EnumKind::ChunkId, v), p)),
            },
            Err(e) => Err(e),
        }
    }

    proof fn lemma_decode_ok(s: Seq<u8>, pos: int) {
    }

    proof fn lemma_decode_extend(s: Seq<u8>, t: Seq<u8>, pos: int) {
        u32::lemma_decode_extend(s, t, pos);
    }

    proof fn lemma_roundtrip(m: ChunkId, s: Seq<u8>, pos: int) {
        u32::lemma_roundtrip(m.code(), s, pos);
    }

    fn read(s: &[u8], pos: usize) -> (r: Result<(ChunkId, usize), Failure>) {
        let (v, p): (u32, usize) = u32::read(s, pos)?;
        match ChunkId::try_from_u32(v) {
            Some(t) => Ok((t, p)),
            None => Err((ReadError::BadDiscriminant(EnumKind::ChunkId, v), p)),
        }
    }

    fn fits(&self) -> (r: bool) {
        true
    }

    fn write(&self, out: &mut Vec<u8>) {
        self.to_u32().write(out);
    }
}

/// The contents of one section.
#[derive(Debug)]
pub enum Chunk {
    SceneInfo1(SceneInfo1),
    SceneInfo2(SceneInfo2),
    SceneInfo3(SceneInfo3),
    Material(Material),
    MaterialsXml(MaterialsXml),
    Node(Node),
    Geometry(Geometry),
    Light(Light),
    Camera(Camera),
    KeyEvents(KeyEvents),
}

pub enum ChunkModel {
    SceneInfo1(SceneInfo1),
    SceneInfo2(SceneInfo2Model),
    SceneInfo3(SceneInfo3Model),
    Material(MaterialModel),
    MaterialsXml(MaterialsXmlModel),
    Node(NodeModel),
    Geometry(GeometryModel),
    Light(Light),
    Camera(Camera),
    KeyEvents(KeyEventsModel),
}

/// The kind of a chunk.
pub open spec fn chunk_tag(m: ChunkModel) -> ChunkId {
    match m {
        ChunkModel::SceneInfo1(x) => ChunkId::SceneInfo1,
        ChunkModel::SceneInfo2(x) => ChunkId::SceneInfo2,
        ChunkModel::SceneInfo3(x) => ChunkId::SceneInfo3,
        ChunkModel::Material(x) => ChunkId::Material,
        ChunkModel::MaterialsXml(x) => ChunkId::MaterialsXml,
        ChunkModel::Node(x) => ChunkId::Node,
        ChunkModel::Geometry(x) => ChunkId::Geometry,
        ChunkModel::Light(x) => ChunkId::Light,
        ChunkModel::Camera(x) => ChunkId::Camera,
        ChunkModel::KeyEvents(x) => ChunkId::KeyEvents,
    }
}

/// A chunk's data, as its section holds it.
pub open spec fn chunk_data(m: ChunkModel) -> Seq<u8> {
    match m {
        ChunkModel::SceneInfo1(x) => SceneInfo1::encode(x),
        ChunkModel::SceneInfo2(x) => SceneInfo2::encode(x),
        ChunkModel::SceneInfo3(x) => SceneInfo3::encode(x),
        ChunkModel::Material(x) => Material::encode(x),
        ChunkModel::MaterialsXml(x) => MaterialsXml::encode(x),
        ChunkModel::Node(x) => Node::encode(x),
        ChunkModel::Geometry(x) => Geometry::encode(x),
        ChunkModel::Light(x) => Light::encode(x),
        ChunkModel::Camera(x) => Camera::encode(x),
        ChunkModel::KeyEvents(x) => KeyEvents::encode(x),
    }
}

pub open spec fn chunk_writable(m: ChunkModel) -> bool {
    match m {
        ChunkModel::SceneInfo1(x) => SceneInfo1::writable(x),
        ChunkModel::SceneInfo2(x) => SceneInfo2::writable(x),
        ChunkModel::SceneInfo3(x) => SceneInfo3::writable(x),
        ChunkModel::Material(x) => Material::writable(x),
        ChunkModel::MaterialsXml(x) => MaterialsXml::writable(x),
        ChunkModel::Node(x) => Node::writable(x),
        ChunkModel::Geometry(x) => Geometry::writable(x),
        ChunkModel::Light(x) => Light::writable(x),
        ChunkModel::Camera(x) => Camera::writable(x),
        ChunkModel::KeyEvents(x) => KeyEvents::writable(x),
    }
}

pub open spec fn chunk_wf(m: ChunkModel) -> bool {
    match m {
        ChunkModel::SceneInfo1(x) => SceneInfo1::wf(x),
        ChunkModel::SceneInfo2(x) => SceneInfo2::wf(x),
        ChunkModel::SceneInfo3(x) => SceneInfo3::wf(x),
        ChunkModel::Material(x) => Material::wf(x),
        ChunkModel::MaterialsXml(x) => MaterialsXml::wf(x),
        ChunkModel::Node(x) => Node::wf(x),
        ChunkModel::Geometry(x) => Geometry::wf(x),
        ChunkModel::Light(x) => Light::wf(x),
        ChunkModel::Camera(x) => Camera::wf(x),
        ChunkModel::KeyEvents(x) => KeyEvents::wf(x),
    }
}

/// Reading a chunk of type `type_code` from the start of a section's bytes:
/// the chunk and the number of bytes it took, or why it failed and the offset
/// it had reached.
pub open spec fn decode_chunk(type_code: u32, s: Seq<u8>) -> Result<(ChunkModel, int), FailureAt> {
    match ChunkId::from_code(type_code) {
        Some(id) => match id {
            ChunkId::SceneInfo1 => match SceneInfo1::decode(s, 0) {
                Ok((x, p)) => Ok((ChunkModel::SceneInfo1(x), p)),
                Err(e) => Err(e),
            },
            ChunkId::SceneInfo2 => match SceneInfo2::decode(s, 0) {
                Ok((x, p)) => Ok((ChunkModel::SceneInfo2(x), p)),
                Err(e) => Err(e),
            },
            ChunkId::SceneInfo3 => match SceneInfo3::decode(s, 0) {
                Ok((x, p)) => Ok((ChunkModel::SceneInfo3(x), p)),
                Err(e) => Err(e),
            },
            ChunkId::Material => match Material::decode(s, 0) {
                Ok((x, p)) => Ok((ChunkModel::Material(x), p)),
                Err(e) => Err(e),
            },
            ChunkId::MaterialsXml => match MaterialsXml::decode(s, 0) {
                Ok((x, p)) => Ok((ChunkModel::MaterialsXml(x), p)),
                Err(e) => Err(e),
            },
            ChunkId::Node => match Node::decode(s, 0) {
                Ok((x, p)) => Ok((ChunkModel::Node(x), p)),
                Err(e) => Err(e),
            },
            ChunkId::Geometry => match Geometry::decode(s, 0) {
                Ok((x, p)) => Ok((ChunkModel::Geometry(x), p)),
                Err(e) => Err(e),
            },
            ChunkId::Light => match Light::decode(s, 0) {
                Ok((x, p)) => Ok((ChunkModel::Light(x), p)),
                Err(e) => Err(e),
            },
            ChunkId::Camera => match Camera::decode(s, 0) {
                Ok((x, p)) => Ok((ChunkModel::Camera(x), p)),
                Err(e) => Err(e),
            },
            ChunkId::KeyEvents => match KeyEvents::decode(s, 0) {
                Ok((x, p)) => Ok((ChunkModel::KeyEvents(x), p)),
                Err(e) => Err(e),
            },
        },
        None => Err((ReadError::BadDiscriminant(EnumKind::ChunkId, type_code), 0)),
    }
}

/// A chunk read from a section stays inside it, has the section's type, and can
/// be written back.
pub proof fn lemma_decode_chunk_ok(type_code: u32, s: Seq<u8>)
    ensures
        decode_chunk(type_code, s) matches Ok((m, p)) ==> {
            &&& 0 <= p <= s.len()
            &&& chunk_tag(m).code() == type_code
            &&& chunk_writable(m)
            &&& chunk_wf(m)
        },
{
    SceneInfo1::lemma_decode_ok(s, 0);
    SceneInfo2::lemma_decode_ok(s, 0);
    SceneInfo3::lemma_decode_ok(s, 0);
    Material::lemma_decode_ok(s, 0);
    MaterialsXml::lemma_decode_ok(s, 0);
    Node::lemma_decode_ok(s, 0);
    Geometry::lemma_decode_ok(s, 0);
    Light::lemma_decode_ok(s, 0);
    Camera::lemma_decode_ok(s, 0);
    KeyEvents::lemma_decode_ok(s, 0);
}

/// Reading a chunk's data as a section of the chunk's type gives back the chunk,
/// and takes the whole section.
pub proof fn lemma_chunk_roundtrip(m: ChunkModel)
    requires
        chunk_wf(m),
    ensures
        decode_chunk(chunk_tag(m).code(), chunk_data(m)) == Ok::<(ChunkModel, int), FailureAt>(
            (m, chunk_data(m).len() as int),
        ),
{
    let s = chunk_data(m);
    assert(s.subrange(0, s.len() as int) =~= s);
    assert(is_at(s, 0, s));
    match m {
        ChunkModel::SceneInfo1(x) => SceneInfo1::lemma_roundtrip(x, s, 0),
        ChunkModel::SceneInfo2(x) => SceneInfo2::lemma_roundtrip(x, s, 0),
        ChunkModel::SceneInfo3(x) => SceneInfo3::lemma_roundtrip(x, s, 0),
        ChunkModel::Material(x) => Material::lemma_roundtrip(x, s, 0),
        ChunkModel::MaterialsXml(x) => MaterialsXml::lemma_roundtrip(x, s, 0),
        ChunkModel::Node(x) => Node::lemma_roundtrip(x, s, 0),
        ChunkModel::Geometry(x) => Geometry::lemma_roundtrip(x, s, 0),
        ChunkModel::Light(x) => Light::lemma_roundtrip(x, s, 0),
        ChunkModel::Camera(x) => Camera::lemma_roundtrip(x, s, 0),
        ChunkModel::KeyEvents(x) => KeyEvents::lemma_roundtrip(x, s, 0),
    }
}

/// A section cut short never reads as its chunk: reading the first `k` bytes
/// of a chunk's data, fewer than all, fails.
pub proof fn lemma_truncated_chunk_fails(m: ChunkModel, k: int)
    requires
        chunk_wf(m),
        0 <= k < chunk_data(m).len(),
    ensures
        decode_chunk(chunk_tag(m).code(), chunk_data(m).take(k)) is Err,
{
    match m {
        ChunkModel::SceneInfo1(x) => lemma_strict_prefix_fails::<SceneInfo1>(x, k),
        ChunkModel::SceneInfo2(x) => lemma_strict_prefix_fails::<SceneInfo2>(x, k),
        ChunkModel::SceneInfo3(x) => lemma_strict_prefix_fails::<SceneInfo3>(x, k),
        ChunkModel::Material(x) => lemma_strict_prefix_fails::<Material>(x, k),
        ChunkModel::MaterialsXml(x) => lemma_strict_prefix_fails::<MaterialsXml>(x, k),
        ChunkModel::Node(x) => lemma_strict_prefix_fails::<Node>(x, k),
        ChunkModel::Geometry(x) => lemma_strict_prefix_fails::<Geometry>(x, k),
        ChunkModel::Light(x) => lemma_strict_prefix_fails::<Light>(x, k),
        ChunkModel::Camera(x) => lemma_strict_prefix_fails::<Camera>(x, k),
        ChunkModel::KeyEvents(x) => lemma_strict_prefix_fails::<KeyEvents>(x, k),
    }
}

/// A chunk read from a section can be written again, and reading what was
/// written gives the same chunk.
pub proof fn lemma_reread_chunk(type_code: u32, s: Seq<u8>)
    requires
        decode_chunk(type_code, s) is Ok,
    ensures
        ({
            let m = decode_chunk(type_code, s)->Ok_0.0;
            &&& chunk_writable(m)
            &&& decode_chunk(type_code, chunk_data(m)) == Ok::<(ChunkModel, int), FailureAt>(
                (m, chunk_data(m).len() as int),
            )
        }),
{
    lemma_decode_chunk_ok(type_code, s);
    lemma_chunk_roundtrip(decode_chunk(type_code, s)->Ok_0.0);
}

/// The type codes of the kinds of chunk: 0 node, 3, 12 and 20 the three
/// scene informations, 4 material, 5 mesh, 10 light, 11 materials document,
/// 19 camera, 21 key events. No other number names a kind, and each kind is
/// written as its own number.
pub proof fn lemma_chunk_id_codes(v: u32)
    ensures
        ChunkId::Node.code() == 0,
        ChunkId::SceneInfo1.code() == 3,
        ChunkId::Material.code() == 4,
        ChunkId::Geometry.code() == 5,
        ChunkId::Light.code() == 10,
        ChunkId::MaterialsXml.code() == 11,
        ChunkId::SceneInfo2.code() == 12,
        ChunkId::Camera.code() == 19,
        ChunkId::SceneInfo3.code() == 20,
        ChunkId::KeyEvents.code() == 21,
        ChunkId::from_code(0) == Some(ChunkId::Node),
        ChunkId::from_code(3) == Some(ChunkId::SceneInfo1),
        ChunkId::from_code(4) == Some(ChunkId::Material),
        ChunkId::from_code(5) == Some(ChunkId::Geometry),
        ChunkId::from_code(10) == Some(ChunkId::Light),
        ChunkId::from_code(11) == Some(ChunkId::MaterialsXml),
        ChunkId::from_code(12) == Some(ChunkId::SceneInfo2),
        ChunkId::from_code(19) == Some(ChunkId::Camera),
        ChunkId::from_code(20) == Some(ChunkId::SceneInfo3),
        ChunkId::from_code(21) == Some(ChunkId::KeyEvents),
        ChunkId::from_code(v) is Some <==> (v == 0 || v == 3 || v == 4 || v == 5 || v == 10
            || v == 11 || v == 12 || v == 19 || v == 20 || v == 21),
        ChunkId::from_code(v) matches Some(id) ==> id.code() == v,
        ChunkId::encode(ChunkId::Light) == u32::encode(10),
        ChunkId::encode(ChunkId::Camera) == u32::encode(19),
{
}

/// Reading a section gives the kind of chunk that its type code names: 0 a
/// node, 3, 12 and 20 the three scene informations, 4 a material, 5 a mesh,
/// 10 a light, 11 a materials document, 19 a camera, 21 key events; any other
/// type code fails, whatever the bytes.
pub proof fn lemma_chunk_read(type_code: u32, s: Seq<u8>)
    ensures
        decode_chunk(type_code, s) matches Ok((m, _)) ==> {
            &&& (type_code == 0 <==> m is Node)
            &&& (type_code == 3 <==> m is SceneInfo1)
            &&& (type_code == 4 <==> m is Material)
            &&& (type_code == 5 <==> m is Geometry)
            &&& (type_code == 10 <==> m is Light)
            &&& (type_code == 11 <==> m is MaterialsXml)
            &&& (type_code == 12 <==> m is SceneInfo2)
            &&& (type_code == 19 <==> m is Camera)
            &&& (type_code == 20 <==> m is SceneInfo3)
            &&& (type_code == 21 <==> m is KeyEvents)
        },
        !(type_code == 0 || type_code == 3 || type_code == 4 || type_code == 5 || type_code == 10
            || type_code == 11 || type_code == 12 || type_code == 19 || type_code == 20
            || type_code == 21) ==> decode_chunk(type_code, s) is Err,
{
}

/// Each chunk goes in a section whose type code is its kind's number: a node
/// 0, the scene informations 3, 12 and 20, a material 4, a mesh 5, a light 10,
/// a materials document 11, a camera 19, key events 21.
pub proof fn lemma_chunk_tag_codes(m: ChunkModel)
    ensures
        m is Node ==> chunk_tag(m).code() == 0,
        m is SceneInfo1 ==> chunk_tag(m).code() == 3,
        m is Material ==> chunk_tag(m).code() == 4,
        m is Geometry ==> chunk_tag(m).code() == 5,
        m is Light ==> chunk_tag(m).code() == 10,
        m is MaterialsXml ==> chunk_tag(m).code() == 11,
        m is SceneInfo2 ==> chunk_tag(m).code() == 12,
        m is Camera ==> chunk_tag(m).code() == 19,
        m is SceneInfo3 ==> chunk_tag(m).code() == 20,
        m is KeyEvents ==> chunk_tag(m).code() == 21,
{
}

impl Chunk {
    pub open spec fn model(&self) -> ChunkModel {
        match self {
            Chunk::SceneInfo1(x) => ChunkModel::SceneInfo1(x.model()),
            Chunk::SceneInfo2(x) => ChunkModel::SceneInfo2(x.model()),
            Chunk::SceneInfo3(x) => ChunkModel::SceneInfo3(x.model()),
            Chunk::Material(x) => ChunkModel::Material(x.model()),
            Chunk::MaterialsXml(x) => ChunkModel::MaterialsXml(x.model()),
            Chunk::Node(x) => ChunkModel::Node(x.model()),
            Chunk::Geometry(x) => ChunkModel::Geometry(x.model()),
            Chunk::Light(x) => ChunkModel::Light(x.model()),
            Chunk::Camera(x) => ChunkModel::Camera(x.model()),
            Chunk::KeyEvents(x) => ChunkModel::KeyEvents(x.model()),
        }
    }

    /// The kind of the chunk.
    pub fn tag(&self) -> (r: ChunkId)
        ensures
            r == chunk_tag(self.model()),
    {
        match self {
            Chunk::SceneInfo1(_) => ChunkId::SceneInfo1,
            Chunk::SceneInfo2(_) => ChunkId::SceneInfo2,
            Chunk::SceneInfo3(_) => ChunkId::SceneInfo3,
            Chunk::Material(_) => ChunkId::Material,
            Chunk::MaterialsXml(_) => ChunkId::MaterialsXml,
            Chunk::Node(_) => ChunkId::Node,
            Chunk::Geometry(_) => ChunkId::Geometry,
            Chunk::Light(_) => ChunkId::Light,
            Chunk::Camera(_) => ChunkId::Camera,
            Chunk::KeyEvents(_) => ChunkId::KeyEvents,
        }
    }

    /// Whether the chunk can be written.
    pub fn fits(&self) -> (r: bool)
        ensures
            r == chunk_writable(self.model()),
    {
        match self {
            Chunk::SceneInfo1(x) => x.fits(),
            Chunk::SceneInfo2(x) => x.fits(),
            Chunk::SceneInfo3(x) => x.fits(),
            Chunk::Material(x) => x.fits(),
            Chunk::MaterialsXml(x) => x.fits(),
            Chunk::Node(x) => x.fits(),
            Chunk::Geometry(x) => x.fits(),
            Chunk::Light(x) => x.fits(),
            Chunk::Camera(x) => x.fits(),
            Chunk::KeyEvents(x) => x.fits(),
        }
    }

    /// Appends the chunk's data, as its section holds it.
    pub fn write_data(&self, out: &mut Vec<u8>)
        requires
            chunk_writable(self.model()),
        ensures
            final(out)@ == old(out)@ + chunk_data(self.model()),
    {
        match self {
            Chunk::SceneInfo1(x) => x.write(out),
            Chunk::SceneInfo2(x) => x.write(out),
            Chunk::SceneInfo3(x) => x.write(out),
            Chunk::Material(x) => x.write(out),
            Chunk::MaterialsXml(x) => x.write(out),
            Chunk::Node(x) => x.write(out),
            Chunk::Geometry(x) => x.write(out),
            Chunk::Light(x) => x.write(out),
            Chunk::Camera(x) => x.write(out),
            Chunk::KeyEvents(x) => x.write(out),
        }
    }
}

/// Reads a chunk of type `type_code` from the start of a section's bytes, and
/// says how many bytes it took, or why it failed and how far it got.
pub fn read_chunk(type_code: u32, s: &[u8]) -> (r: Result<(Chunk, usize), Failure>)
    ensures
        match r {
            Ok((c, p)) => decode_chunk(type_code, s@) == Ok::<(ChunkModel, int), FailureAt>(
                (c.model(), p as int),
            ),
            Err(e) => decode_chunk(type_code, s@) == Err::<(ChunkModel, int), FailureAt>((e.0, e.1 as int)),
        },
{
    match ChunkId::try_from_u32(type_code) {
        Some(id) => match id {
            ChunkId::SceneInfo1 => {
                let (x, p): (SceneInfo1, usize) = SceneInfo1::read(s, 0)?;
                Ok((Chunk::SceneInfo1(x), p))
            },
            ChunkId::SceneInfo2 => {
                let (x, p): (SceneInfo2, usize) = SceneInfo2::read(s, 0)?;
                Ok((Chunk::SceneInfo2(x), p))
            },
            ChunkId::SceneInfo3 => {
                let (x, p): (SceneInfo3, usize) = SceneInfo3::read(s, 0)?;
                Ok((Chunk::SceneInfo3(x), p))
            },
            ChunkId::Material => {
                let (x, p): (Material, usize) = Material::read(s, 0)?;
                Ok((Chunk::Material(x), p))
            },
            ChunkId::MaterialsXml => {
                let (x, p): (MaterialsXml, usize) = MaterialsXml::read(s, 0)?;
                Ok((Chunk::MaterialsXml(x), p))
            },
            ChunkId::Node => {
                let (x, p): (Node, usize) = Node::read(s, 0)?;
                Ok((Chunk::Node(x), p))
            },
            ChunkId::Geometry => {
                let (x, p): (Geometry, usize) = Geometry::read(s, 0)?;
                Ok((Chunk::Geometry(x), p))
            },
            ChunkId::Light => {
                let (x, p): (Light, usize) = Light::read(s, 0)?;
                Ok((Chunk::Light(x), p))
            },
            ChunkId::Camera => {
                let (x, p): (Camera, usize) = Camera::read(s, 0)?;
                Ok((Chunk::Camera(x), p))
            },
            ChunkId::KeyEvents => {
                let (x, p): (KeyEvents, usize) = KeyEvents::read(s, 0)?;
                Ok((Chunk::KeyEvents(x), p))
            },
        },
        None => Err((ReadError::BadDiscriminant(EnumKind::ChunkId, type_code), 0)),
    }
}

} // verus!
