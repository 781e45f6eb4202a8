use oil::chunk::{Chunk, ChunkId};
use oil::error::{EnumKind, ReadError, SchemaError};
use oil::geometry::{
    BoundingBox, Colour, Geometry, GeometryChannel, GeometryFace, GeometryFaceloop, GeometrySkin,
    Matrix4, SkinBoneEntry, Vector2, Vector3, VertexWeight,
};
use oil::scene::{
    Camera, KeyEvent, KeyEvents, Light, LightType, Material, MaterialsXml, Node, SceneInfo1,
    SceneInfo2, SceneInfo3, SpotlightShape,
};
use oil::sections::{chunks_to_bytes, section_reports, split_to_sections};
use oil::wire::Wire;

fn le32(v: u32) -> Vec<u8> {
    v.to_le_bytes().to_vec()
}

fn bits(x: f64) -> u64 {
    x.to_bits()
}

fn identity() -> Matrix4 {
    let mut elements = [0u64; 16];
    for i in 0..4 {
        elements[i * 5] = bits(1.0);
    }
    Matrix4 { elements }
}

fn material(id: u32, name: &str, parent_id: u32) -> Chunk {
    Chunk::Material(Material { id, name: name.to_string(), parent_id })
}

#[test]
fn material_file_has_exact_layout() {
    let bytes = chunks_to_bytes(&[material(1, "ab", 2)]).unwrap();
    let mut expected = b"FORM".to_vec();
    expected.extend(le32(30));
    expected.extend(le32(4));
    expected.extend(le32(14));
    expected.extend(le32(1));
    expected.extend(le32(2));
    expected.extend(b"ab");
    expected.extend(le32(2));
    expected.extend(le32(30));
    assert_eq!(bytes, expected);
}

#[test]
fn empty_chunk_list_gives_header_and_trailer() {
    let bytes = chunks_to_bytes(&[]).unwrap();
    let mut expected = b"FORM".to_vec();
    expected.extend(le32(8));
    expected.extend(le32(8));
    assert_eq!(bytes, expected);
    assert_eq!(split_to_sections(&bytes).unwrap().len(), 0);
}

#[test]
fn written_chunks_read_back() {
    let chunks = vec![
        Chunk::SceneInfo1(SceneInfo1 { start_time: bits(0.0), end_time: bits(10.5) }),
        Chunk::SceneInfo2(SceneInfo2 {
            start_time: bits(1.0),
            end_time: bits(2.0),
            author_tag: "author".to_string(),
            source_filename: "scene.max".to_string(),
        }),
        Chunk::SceneInfo3(SceneInfo3 {
            start_time: bits(1.0),
            end_time: bits(2.0),
            author_tag: "ä".to_string(),
            source_filename: "file".to_string(),
            scene_type: "default".to_string(),
        }),
        material(7, "steel", 0xFFFF_FFFF),
        Chunk::MaterialsXml(MaterialsXml { xml: "<materials/>".to_string() }),
        Chunk::Node(Node {
            id: 3,
            name: "root".to_string(),
            transform: identity(),
            pivot_transform: identity(),
            parent_id: 0xFFFF_FFFF,
        }),
        Chunk::Light(Light {
            node_id: 3,
            lamp_type: LightType::Omni,
            color: Colour { r: bits(1.0), g: bits(0.5), b: bits(0.25) },
            multiplier: bits(2.0),
            far_attenuation_end: bits(100.0),
            far_attenuation_start: bits(80.0),
            near_attenuation_end: bits(1.0),
            near_attenuation_start: bits(0.0),
            falloff: bits(45.0),
            hotspot: bits(43.0),
            aspect_ratio: bits(1.0),
            overshoot: true,
            shape: SpotlightShape::Circular,
            target_id: 9,
            on: false,
        }),
        Chunk::Camera(Camera {
            node_id: 4,
            fov: bits(0.8),
            far_clip: bits(1000.0),
            near_clip: bits(0.1),
            target_id: 5,
            target_distance: bits(10.0),
            aspect_ratio: bits(1.5),
        }),
        Chunk::KeyEvents(KeyEvents {
            events: vec![KeyEvent {
                id: 1,
                name: "hit".to_string(),
                timestamp: bits(3.0),
                node_id: 0xFFFF_FFFF,
                event_type: "beat".to_string(),
                parameter_count: 0,
            }],
        }),
    ];
    let bytes = chunks_to_bytes(&chunks).unwrap();
    let sections = split_to_sections(&bytes).unwrap();
    assert_eq!(sections.len(), chunks.len());
    for (section, chunk) in sections.iter().zip(chunks.iter()) {
        assert_eq!(section.type_code, chunk.tag().to_u32());
        assert_eq!(section.length, section.bytes.len());
        let (read, used) = section.try_into_chunk().unwrap();
        assert_eq!(used, section.length);
        assert_eq!(format!("{:?}", read), format!("{:?}", chunk));
    }
}

fn mesh(with_positions: bool) -> Geometry {
    let mut channels = vec![GeometryChannel::TexCoord(
        0,
        vec![Vector2 { x: bits(0.0), y: bits(1.0) }, Vector2 { x: bits(1.0), y: bits(0.0) }],
    )];
    if with_positions {
        channels.push(GeometryChannel::Position(
            0,
            vec![
                Vector3 { x: bits(0.0), y: bits(0.0), z: bits(0.0) },
                Vector3 { x: bits(1.0), y: bits(0.0), z: bits(0.0) },
            ],
        ));
    }
    channels.push(GeometryChannel::Colour(1, vec![Colour { r: 1, g: 2, b: 3 }]));
    Geometry {
        node_id: 3,
        material_id: 0xFFFF_FFFF,
        casts_shadows: 1,
        receives_shadows: 0,
        channels,
        faces: vec![GeometryFace {
            material_id: 7,
            unknown1: 42,
            loops: vec![GeometryFaceloop { channel: 0, a: 0, b: 1, c: 0 }],
        }],
        skin: Some(GeometrySkin {
            root_node_id: 3,
            postmul_transform: identity(),
            bones: vec![SkinBoneEntry { bone_node_id: 5, premul_transform: identity() }],
            weights_per_vertex: 2,
            weights: vec![
                VertexWeight { bone_id: 5, weight: bits(1.0) },
                VertexWeight { bone_id: 6, weight: bits(0.0) },
                VertexWeight { bone_id: 5, weight: bits(0.5) },
                VertexWeight { bone_id: 6, weight: bits(0.5) },
            ],
            bonesets: vec![vec![5, 6], vec![]],
        }),
        override_bounding_box: Some(BoundingBox {
            min: Vector3 { x: 1, y: 2, z: 3 },
            max: Vector3 { x: 4, y: 5, z: 6 },
        }),
    }
}

#[test]
fn skinned_geometry_reads_back() {
    let g = mesh(true);
    let mut out = Vec::new();
    g.write(&mut out);
    let (read, used) = Geometry::read(&out, 0).unwrap();
    assert_eq!(used, out.len());
    assert_eq!(format!("{:?}", read), format!("{:?}", g));
    let skin = read.skin.unwrap();
    assert_eq!(skin.weights.len(), 4);
    assert_eq!(skin.bonesets, vec![vec![5, 6], vec![]]);
}

#[test]
fn skin_without_positions_is_refused() {
    let g = mesh(false);
    let mut out = Vec::new();
    g.write(&mut out);
    let mut bare = mesh(false);
    bare.skin = None;
    bare.override_bounding_box = None;
    let mut head = Vec::new();
    bare.write(&mut head);
    let flag_end = head.len() - 1;
    match Geometry::read(&out, 0) {
        Err(e) => assert_eq!(e, (ReadError::Schema(SchemaError::SkinWithoutVertices), flag_end)),
        Ok(_) => panic!("a skin needs positions"),
    }
}

#[test]
fn geometry_without_skin_or_box() {
    let mut g = mesh(true);
    g.skin = None;
    g.override_bounding_box = None;
    let mut out = Vec::new();
    g.write(&mut out);
    let (read, used) = Geometry::read(&out, 0).unwrap();
    assert_eq!(used, out.len());
    assert!(read.skin.is_none());
    assert!(read.override_bounding_box.is_none());
    assert_eq!(out[out.len() - 2..].to_vec(), vec![0u8, 0u8]);
}

#[test]
fn missing_magic() {
    let mut bytes = chunks_to_bytes(&[material(1, "a", 0)]).unwrap();
    bytes[0] = b'X';
    assert_eq!(split_to_sections(&bytes).err(), Some(ReadError::Schema(SchemaError::NoMagic)));
}

#[test]
fn too_short_for_magic_or_size() {
    assert_eq!(split_to_sections(b"FO").err(), Some(ReadError::UnexpectedEof));
    assert_eq!(split_to_sections(b"FORM\x01\x00").err(), Some(ReadError::UnexpectedEof));
    assert_eq!(split_to_sections(b"FORM\x01\x00\x00\x00").unwrap().len(), 0);
}

#[test]
fn section_longer_than_file() {
    let mut bytes = b"FORM".to_vec();
    bytes.extend(le32(0));
    bytes.extend(le32(4));
    bytes.extend(le32(100));
    bytes.extend(vec![0u8; 10]);
    assert_eq!(split_to_sections(&bytes).err(), Some(ReadError::ItemTooLong(100)));
}

#[test]
fn few_trailing_bytes_are_passed_over() {
    let mut bytes = b"FORM".to_vec();
    bytes.extend(le32(0));
    bytes.extend(le32(11));
    bytes.extend(le32(4));
    bytes.extend(le32(0));
    bytes.extend(vec![1u8, 2, 3, 4, 5, 6, 7]);
    let sections = split_to_sections(&bytes).unwrap();
    assert_eq!(sections.len(), 1);
    assert_eq!(sections[0].type_code, 11);
    assert_eq!(sections[0].bytes, &[0u8, 0, 0, 0][..]);
    let (chunk, used) = sections[0].try_into_chunk().unwrap();
    assert_eq!(used, 4);
    match chunk {
        Chunk::MaterialsXml(m) => assert_eq!(m.xml, ""),
        _ => panic!("expected a materials chunk"),
    }
}

#[test]
fn unknown_chunk_type() {
    let mut bytes = b"FORM".to_vec();
    bytes.extend(le32(0));
    bytes.extend(le32(99));
    bytes.extend(le32(1));
    bytes.push(0);
    bytes.extend(le32(0));
    let sections = split_to_sections(&bytes).unwrap();
    assert_eq!(
        sections[0].try_into_chunk().err(),
        Some((ReadError::BadDiscriminant(EnumKind::ChunkId, 99), 0))
    );
}

#[test]
fn invalid_utf8_name() {
    let mut data = le32(1);
    data.extend(le32(2));
    data.extend(vec![0xffu8, 0xfe]);
    data.extend(le32(0));
    assert_eq!(Material::read(&data, 0).err(), Some((ReadError::BadUtf8, 10)));
}

#[test]
fn utf8_name_is_decoded() {
    let mut data = le32(1);
    data.extend(le32(3));
    data.extend("xä".as_bytes());
    data.extend(le32(0));
    let (m, used) = Material::read(&data, 0).unwrap();
    assert_eq!(m.name, "xä");
    assert_eq!(used, data.len());
}

#[test]
fn truncated_material() {
    let mut data = le32(1);
    data.extend(le32(5));
    data.extend(b"ab");
    assert_eq!(Material::read(&data, 0).err(), Some((ReadError::UnexpectedEof, 8)));
}

#[test]
fn bad_light_type_and_shape() {
    assert_eq!(LightType::read(&le32(3), 0).err(), Some((ReadError::BadDiscriminant(EnumKind::LightType, 3), 4)));
    assert_eq!(LightType::read(&le32(1), 0).unwrap().0, LightType::Directional);
    assert_eq!(
        SpotlightShape::read(&le32(2), 0).err(),
        Some((ReadError::BadDiscriminant(EnumKind::SpotlightShape, 2), 4))
    );
}

#[test]
fn bad_channel_tag() {
    let mut data = le32(9);
    data.extend(le32(0));
    data.extend(le32(0));
    assert_eq!(
        GeometryChannel::read(&data, 0).err(),
        Some((ReadError::BadDiscriminant(EnumKind::GeometryChannel, 9), 4))
    );
}

#[test]
fn booleans_read_nonzero_as_true() {
    assert_eq!(bool::read(&[2u8], 0).unwrap(), (true, 1));
    assert_eq!(bool::read(&[0u8], 0).unwrap(), (false, 1));
    assert_eq!(bool::read(&[], 0).err(), Some((ReadError::UnexpectedEof, 0)));
}

#[test]
fn chunk_ids() {
    assert_eq!(ChunkId::try_from_u32(20), Some(ChunkId::SceneInfo3));
    assert_eq!(ChunkId::try_from_u32(1), None);
    assert_eq!(ChunkId::KeyEvents.to_u32(), 21);
    assert_eq!(material(0, "", 0).tag(), ChunkId::Material);
}

#[test]
fn reports_count_lengths_from_eight() {
    let chunks = vec![material(1, "ab", 2), material(2, "", 1)];
    let bytes = chunks_to_bytes(&chunks).unwrap();
    let reports = section_reports(&bytes).unwrap();
    assert_eq!(reports.len(), 2);
    assert_eq!(reports[0].offset, 8);
    assert_eq!(reports[0].section.length, 14);
    assert_eq!(reports[1].offset, 22);
    assert_eq!(reports[1].section.length, 12);
    assert_eq!(reports[1].chunk.as_ref().unwrap().1, 12);
}

#[test]
fn read_chunk_writes_back_the_same_bytes() {
    let bytes = chunks_to_bytes(&[material(9, "mat", 3)]).unwrap();
    let sections = split_to_sections(&bytes).unwrap();
    let (chunk, _) = sections[0].try_into_chunk().unwrap();
    assert!(chunk.fits());
    let mut again = Vec::new();
    chunk.write_data(&mut again);
    assert_eq!(&again[..], sections[0].bytes);
}

#[test]
fn nonzero_flag_reads_as_set_and_writes_as_one() {
    let mut g = mesh(true);
    g.skin = None;
    g.override_bounding_box = None;
    let mut out = Vec::new();
    g.write(&mut out);
    let n = out.len();
    out[n - 1] = 7;
    out.extend(vec![0u8; 48]);
    let (read, used) = Geometry::read(&out, 0).unwrap();
    assert_eq!(used, out.len());
    assert!(read.override_bounding_box.is_some());
    let mut again = Vec::new();
    read.write(&mut again);
    assert_eq!(again[n - 1], 1);
}

#[test]
fn total_size_counts_all_but_trailer() {
    let bytes = chunks_to_bytes(&[material(1, "a", 2), material(3, "bcd", 4)]).unwrap();
    let n = bytes.len() as u32;
    assert_eq!(bytes[4..8].to_vec(), le32(n - 4));
    assert_eq!(bytes[bytes.len() - 4..].to_vec(), le32(n - 4));
}

#[test]
fn weights_follow_vertex_count_without_a_count() {
    let g = mesh(true);
    let mut out = Vec::new();
    g.write(&mut out);
    // Two vertices and two weights per vertex: four weights of twelve bytes.
    let (read, _) = Geometry::read(&out, 0).unwrap();
    assert_eq!(read.skin.unwrap().weights.len(), 4);
    let mut truncated = out.clone();
    truncated.truncate(out.len() - 60);
    assert_eq!(Geometry::read(&truncated, 0).err().map(|e| e.0), Some(ReadError::UnexpectedEof));
}

#[test]
fn huge_weight_count_runs_out_of_input() {
    let mut g = mesh(true);
    if let Some(skin) = g.skin.as_mut() {
        skin.weights_per_vertex = u32::MAX;
        skin.weights.clear();
    }
    let mut out = Vec::new();
    g.write(&mut out);
    // After the skin's head, 69 bytes are left: five whole weights and the
    // bone id of a sixth.
    assert_eq!(Geometry::read(&out, 0).err(), Some((ReadError::UnexpectedEof, out.len() - 5)));
}

#[test]
fn final_empty_section_is_kept() {
    let src: &[u8] = &[70, 79, 82, 77, 16, 0, 0, 0, 3, 0, 0, 0, 0, 0, 0, 0];
    let v = split_to_sections(src).unwrap();
    assert_eq!(v.len(), 1);
    assert_eq!(v[0].type_code, 3);
    assert_eq!(v[0].length, 0);
    assert!(v[0].bytes.is_empty());
    assert_eq!(v[0].try_into_chunk().err(), Some((ReadError::UnexpectedEof, 0)));
}

#[test]
fn eight_trailing_bytes_are_a_section_header() {
    let mut bytes = b"FORM".to_vec();
    bytes.extend(le32(0));
    bytes.extend(vec![1u8, 2, 3, 4, 5, 6, 7, 8]);
    assert_eq!(split_to_sections(&bytes).err(), Some(ReadError::ItemTooLong(0x0807_0605)));
}

#[test]
fn truncated_mesh_never_reads() {
    let g = mesh(true);
    let mut out = Vec::new();
    g.write(&mut out);
    for k in 0..out.len() {
        assert!(Geometry::read(&out[..k], 0).is_err());
    }
}

#[test]
fn failed_chunk_read_reports_offset() {
    let mut data = le32(1);
    data.extend(le32(2));
    data.extend(b"ab");
    let mut bytes = b"FORM".to_vec();
    bytes.extend(le32(0));
    bytes.extend(le32(4));
    bytes.extend(le32(data.len() as u32));
    bytes.extend(data);
    let reports = section_reports(&bytes).unwrap();
    assert_eq!(reports[0].chunk.as_ref().err(), Some(&(ReadError::UnexpectedEof, 10)));
}
