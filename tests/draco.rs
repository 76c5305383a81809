use bevy_gltf_draco::khr_draco_mesh_compression::{
    AccessorInfo, AttributeLayout, BufferView, ComponentType, DecodeConfig, Dimensions,
    DracoError, DracoExtension, DracoExtensionValue, DracoSemanticLink, ExtensionRecord,
    PrimitiveInfo, RawExtension, SourceView, index_component_type,
};
use bevy_gltf_draco::semantic::{parse_set_index, Checked, Semantic, SemanticCheck};

fn accessor(count: usize, component_type: ComponentType, dimensions: Dimensions) -> AccessorInfo {
    AccessorInfo {
        count,
        component_type,
        dimensions,
        min: Some(serde_json::Value::from(vec![-1.0, -2.0, -3.0])),
        max: Some(serde_json::Value::from(vec![1.0, 2.0, 3.0])),
    }
}

fn primitive(index_count: usize) -> PrimitiveInfo {
    PrimitiveInfo {
        indices: Some(AccessorInfo {
            count: index_count,
            component_type: ComponentType::U16,
            dimensions: Dimensions::Scalar,
            min: None,
            max: None,
        }),
        attributes: vec![
            (Semantic::Positions, accessor(24, ComponentType::F32, Dimensions::Vec3)),
            (Semantic::Normals, accessor(24, ComponentType::I8, Dimensions::Vec3)),
        ],
    }
}

fn value(buffer_view: usize, attributes: &[(&str, usize)]) -> DracoExtensionValue {
    DracoExtensionValue {
        buffer_view,
        attributes: attributes.iter().map(|(n, i)| (n.to_string(), *i)).collect(),
    }
}

fn extension(attributes: &[(&str, usize)]) -> DracoExtension {
    DracoExtension::parse(&ExtensionRecord::Parsed(value(0, attributes))).unwrap()
}

fn two_attribute_config() -> DecodeConfig {
    DecodeConfig {
        buffer_size: 72 + 288 + 72,
        attributes: vec![
            AttributeLayout { offset: 72, length: 288 },
            AttributeLayout { offset: 360, length: 72 },
        ],
    }
}

#[test]
fn classify_exact_names() {
    assert!(matches!(Semantic::checked("POSITION"), Checked::Valid(Semantic::Positions)));
    assert!(matches!(Semantic::checked("NORMAL"), Checked::Valid(Semantic::Normals)));
    assert!(matches!(Semantic::checked("TANGENT"), Checked::Valid(Semantic::Tangents)));
}

#[test]
fn classify_examples() {
    assert!(matches!(Semantic::checked("TEXCOORD_3"), Checked::Valid(Semantic::TexCoords(3))));
    match Semantic::checked("_Foo") {
        Checked::Valid(Semantic::Extras(name)) => assert_eq!(name, "Foo"),
        _ => panic!("expected an extra attribute"),
    }
    assert!(matches!(Semantic::checked("COLOR_x"), Checked::Invalid));
    assert!(matches!(Semantic::checked("FOO"), Checked::Invalid));
}

#[test]
fn classify_numbered_sets() {
    assert!(matches!(Semantic::checked("COLOR_0"), Checked::Valid(Semantic::Colors(0))));
    assert!(matches!(Semantic::checked("JOINTS_12"), Checked::Valid(Semantic::Joints(12))));
    assert!(matches!(Semantic::checked("WEIGHTS_+2"), Checked::Valid(Semantic::Weights(2))));
    assert!(matches!(
        Semantic::checked("TEXCOORD_4294967295"),
        Checked::Valid(Semantic::TexCoords(4294967295))
    ));
    assert!(matches!(Semantic::checked("TEXCOORD_4294967296"), Checked::Invalid));
    assert!(matches!(Semantic::checked("COLOR_"), Checked::Invalid));
    assert!(matches!(Semantic::checked("COLOR_-1"), Checked::Invalid));
    assert!(matches!(Semantic::checked("position"), Checked::Invalid));
    assert!(matches!(Semantic::checked(""), Checked::Invalid));
}

#[test]
fn classify_extra_edge_cases() {
    match Semantic::checked("_") {
        Checked::Valid(Semantic::Extras(name)) => assert_eq!(name, ""),
        _ => panic!("expected an extra attribute"),
    }
    match Semantic::checked("_COLOR_x") {
        Checked::Valid(Semantic::Extras(name)) => assert_eq!(name, "COLOR_x"),
        _ => panic!("expected an extra attribute"),
    }
}

#[test]
fn set_index_values() {
    assert_eq!(parse_set_index("0"), Some(0));
    assert_eq!(parse_set_index("+7"), Some(7));
    assert_eq!(parse_set_index("007"), Some(7));
    assert_eq!(parse_set_index("4294967295"), Some(u32::MAX));
    assert_eq!(parse_set_index("99999999999999999999"), None);
    assert_eq!(parse_set_index("+"), None);
    assert_eq!(parse_set_index(""), None);
    assert_eq!(parse_set_index("1a"), None);
    assert_eq!(parse_set_index(" 1"), None);
}

#[test]
fn index_type_promotion() {
    assert_eq!(index_component_type(ComponentType::U16, 1000), ComponentType::U16);
    assert_eq!(index_component_type(ComponentType::U16, 100000), ComponentType::U32);
    assert_eq!(index_component_type(ComponentType::U32, 1000), ComponentType::U32);
    assert_eq!(index_component_type(ComponentType::U32, 100000), ComponentType::U32);
    assert_eq!(index_component_type(ComponentType::U16, 65535), ComponentType::U16);
    assert_eq!(index_component_type(ComponentType::U16, 65536), ComponentType::U32);
    assert_eq!(index_component_type(ComponentType::U8, 70000), ComponentType::U32);
}

#[test]
fn synthesized_index_accessor_promotion() {
    let ext = extension(&[("POSITION", 0), ("NORMAL", 1)]);
    let small = ext.build_document(&primitive(1000), &two_attribute_config()).unwrap();
    assert_eq!(small.accessors[0].component_type, ComponentType::U16);
    assert_eq!(small.accessors[0].count, 1000);
    let large = ext.build_document(&primitive(100000), &two_attribute_config()).unwrap();
    assert_eq!(large.accessors[0].component_type, ComponentType::U32);
    assert_eq!(large.accessors[0].count, 100000);
}

#[test]
fn two_attribute_document_layout() {
    let ext = extension(&[("POSITION", 0), ("NORMAL", 1)]);
    let doc = ext.build_document(&primitive(36), &two_attribute_config()).unwrap();
    assert_eq!(doc.buffer_length, 432);
    assert_eq!(doc.views.len(), 3);
    assert_eq!(doc.accessors.len(), 3);
    for view in &doc.views {
        assert!(view.byte_offset + view.byte_length <= doc.buffer_length);
    }
    assert_eq!(doc.views[0], BufferView { byte_offset: 0, byte_length: 432 });
    assert_eq!(doc.views[1], BufferView { byte_offset: 72, byte_length: 288 });
    assert_eq!(doc.views[2], BufferView { byte_offset: 360, byte_length: 72 });
    for (i, a) in doc.accessors.iter().enumerate() {
        assert_eq!(a.buffer_view, i);
    }
    assert_eq!(doc.indices, 0);
    assert_eq!(doc.accessors[0].dimensions, Dimensions::Scalar);
    assert!(doc.accessors[0].min.is_none());
    assert_eq!(doc.accessors[1].component_type, ComponentType::F32);
    assert_eq!(doc.accessors[1].dimensions, Dimensions::Vec3);
    assert_eq!(doc.accessors[1].count, 24);
    assert_eq!(doc.accessors[1].min, Some(serde_json::Value::from(vec![-1.0, -2.0, -3.0])));
    assert_eq!(doc.accessors[1].max, Some(serde_json::Value::from(vec![1.0, 2.0, 3.0])));
    assert_eq!(doc.accessors[2].component_type, ComponentType::I8);
    assert_eq!(doc.attributes.len(), 2);
    assert!(matches!(doc.attributes[0], (Semantic::Positions, 1)));
    assert!(matches!(doc.attributes[1], (Semantic::Normals, 2)));
}

#[test]
fn codec_order_follows_link_not_primitive() {
    let ext = extension(&[("POSITION", 1), ("NORMAL", 0)]);
    let doc = ext.build_document(&primitive(36), &two_attribute_config()).unwrap();
    assert!(matches!(doc.attributes[0], (Semantic::Normals, 1)));
    assert!(matches!(doc.attributes[1], (Semantic::Positions, 2)));
    assert_eq!(doc.accessors[1].component_type, ComponentType::I8);
    assert_eq!(doc.accessors[2].component_type, ComponentType::F32);
}

#[test]
fn parse_record_links_attributes() {
    let v = value(2, &[("POSITION", 0), ("NORMAL", 1)]);
    let link = DracoSemanticLink::from_extension_value(&v).unwrap();
    assert_eq!(link.buffer_view, 2);
    assert_eq!(link.map.len(), 2);
    assert!(matches!(link.map.get(&0), Some(Semantic::Positions)));
    assert!(matches!(link.map.get(&1), Some(Semantic::Normals)));
    let ext = DracoExtension::parse(&ExtensionRecord::Parsed(v)).unwrap();
    assert_eq!(ext.link.buffer_view, 2);
    assert_eq!(ext.link.map.len(), 2);
}

#[test]
fn later_entry_with_same_index_wins() {
    let v = value(0, &[("POSITION", 0), ("NORMAL", 0)]);
    let link = DracoSemanticLink::from_extension_value(&v).unwrap();
    assert_eq!(link.map.len(), 1);
    assert!(matches!(link.map.get(&0), Some(Semantic::Normals)));
}

#[test]
fn parse_missing_or_malformed() {
    assert_eq!(
        DracoExtension::parse(&ExtensionRecord::Malformed).err(),
        Some(DracoError::MalformedExtension)
    );
    assert_eq!(
        DracoExtension::parse(&ExtensionRecord::Absent).err(),
        Some(DracoError::NotApplicable)
    );
}

#[test]
fn parse_unrecognized_semantic() {
    let v = value(0, &[("POSITION", 0), ("COLOR_x", 1)]);
    assert_eq!(
        DracoSemanticLink::from_extension_value(&v).err(),
        Some(DracoError::UnrecognizedSemantic)
    );
    assert_eq!(
        DracoExtension::parse(&ExtensionRecord::Parsed(v)).err(),
        Some(DracoError::UnrecognizedSemantic)
    );
}

#[test]
fn payload_is_the_view_range() {
    let ext = DracoExtension::parse(&ExtensionRecord::Parsed(value(1, &[("POSITION", 0)]))).unwrap();
    let views = vec![
        SourceView { buffer: 0, byte_offset: 0, byte_length: 2 },
        SourceView { buffer: 1, byte_offset: 1, byte_length: 3 },
    ];
    let buffers = vec![vec![9u8, 9], vec![10u8, 11, 12, 13, 14]];
    assert_eq!(ext.compressed_payload(&views, &buffers).unwrap(), &[11u8, 12, 13][..]);
}

#[test]
fn payload_out_of_range() {
    let buffers = vec![vec![1u8, 2, 3]];
    let missing = DracoExtension::parse(&ExtensionRecord::Parsed(value(5, &[("POSITION", 0)]))).unwrap();
    let views = vec![SourceView { buffer: 0, byte_offset: 0, byte_length: 3 }];
    assert_eq!(
        missing.compressed_payload(&views, &buffers).err(),
        Some(DracoError::BufferViewOutOfRange)
    );
    let ext = DracoExtension::parse(&ExtensionRecord::Parsed(value(0, &[("POSITION", 0)]))).unwrap();
    let too_long = vec![SourceView { buffer: 0, byte_offset: 1, byte_length: 3 }];
    assert_eq!(
        ext.compressed_payload(&too_long, &buffers).err(),
        Some(DracoError::BufferViewOutOfRange)
    );
    let no_buffer = vec![SourceView { buffer: 1, byte_offset: 0, byte_length: 1 }];
    assert_eq!(
        ext.compressed_payload(&no_buffer, &buffers).err(),
        Some(DracoError::BufferViewOutOfRange)
    );
}

#[test]
fn decode_failure_gives_no_replacement() {
    let ext = extension(&[("POSITION", 0), ("NORMAL", 1)]);
    assert_eq!(
        ext.finish_decoded(&primitive(36), None).err(),
        Some(DracoError::DecodeFailure)
    );
}

#[test]
fn finish_hands_back_decoded_bytes() {
    let ext = extension(&[("POSITION", 0), ("NORMAL", 1)]);
    let data: Vec<u8> = (0..432u32).map(|i| (i % 251) as u8).collect();
    let (doc, out) = ext
        .finish_decoded(&primitive(36), Some((two_attribute_config(), data.clone())))
        .unwrap();
    assert_eq!(out, vec![data]);
    assert_eq!(doc.views.len(), 3);
}

#[test]
fn finish_twice_is_identical() {
    let ext = extension(&[("POSITION", 0), ("NORMAL", 1)]);
    let data: Vec<u8> = (0..432u32).map(|i| (i * 7 % 256) as u8).collect();
    let (d1, o1) = ext
        .finish_decoded(&primitive(36), Some((two_attribute_config(), data.clone())))
        .unwrap();
    let (d2, o2) = ext
        .finish_decoded(&primitive(36), Some((two_attribute_config(), data.clone())))
        .unwrap();
    assert_eq!(o1, o2);
    assert_eq!(d1.buffer_length, d2.buffer_length);
    assert_eq!(d1.views, d2.views);
    assert_eq!(d1.indices, d2.indices);
    assert_eq!(d1.accessors.len(), d2.accessors.len());
    for (a, b) in d1.accessors.iter().zip(d2.accessors.iter()) {
        assert_eq!(a.buffer_view, b.buffer_view);
        assert_eq!(a.count, b.count);
        assert_eq!(a.component_type, b.component_type);
        assert_eq!(a.min, b.min);
        assert_eq!(a.max, b.max);
    }
    assert_eq!(format!("{:?}", d1.attributes), format!("{:?}", d2.attributes));
}

#[test]
fn synthesis_without_indices() {
    let ext = extension(&[("POSITION", 0)]);
    let mut p = primitive(36);
    p.indices = None;
    let config = DecodeConfig { buffer_size: 10, attributes: vec![AttributeLayout { offset: 0, length: 10 }] };
    assert_eq!(ext.build_document(&p, &config).err(), Some(DracoError::SynthesisInconsistency));
}

#[test]
fn synthesis_without_link_entry() {
    let ext = extension(&[("POSITION", 0)]);
    assert_eq!(
        ext.build_document(&primitive(36), &two_attribute_config()).err(),
        Some(DracoError::SynthesisInconsistency)
    );
}

#[test]
fn synthesis_without_original_accessor() {
    let ext = extension(&[("POSITION", 0), ("TEXCOORD_0", 1)]);
    assert_eq!(
        ext.build_document(&primitive(36), &two_attribute_config()).err(),
        Some(DracoError::SynthesisInconsistency)
    );
}

#[test]
fn synthesis_with_no_attributes() {
    let ext = extension(&[]);
    let config = DecodeConfig { buffer_size: 6, attributes: vec![] };
    let doc = ext.build_document(&primitive(3), &config).unwrap();
    assert_eq!(doc.views, vec![BufferView { byte_offset: 0, byte_length: 6 }]);
    assert_eq!(doc.accessors.len(), 1);
    assert!(doc.attributes.is_empty());
}

#[test]
fn primitive_lookup_by_semantic() {
    let mut p = primitive(3);
    p.attributes.push((Semantic::Extras("BATCHID".to_string()), accessor(5, ComponentType::F32, Dimensions::Scalar)));
    assert_eq!(p.get(&Semantic::Normals).unwrap().component_type, ComponentType::I8);
    assert_eq!(p.get(&Semantic::Extras("BATCHID".to_string())).unwrap().count, 5);
    assert!(p.get(&Semantic::Extras("OTHER".to_string())).is_none());
    assert!(p.get(&Semantic::Colors(0)).is_none());
}

#[test]
fn only_absent_extension_is_silent() {
    assert!(!DracoError::NotApplicable.is_reported());
    assert!(DracoError::MalformedExtension.is_reported());
    assert!(DracoError::UnrecognizedSemantic.is_reported());
    assert!(DracoError::BufferViewOutOfRange.is_reported());
    assert!(DracoError::DecodeFailure.is_reported());
    assert!(DracoError::SynthesisInconsistency.is_reported());
}

fn raw(buffer_view: Option<u64>, attributes: Option<Vec<(&str, Option<u64>)>>) -> Option<RawExtension> {
    Some(RawExtension {
        buffer_view,
        attributes: attributes.map(|a| a.into_iter().map(|(n, i)| (n.to_string(), i)).collect()),
    })
}

#[test]
fn record_with_buffer_view_and_attributes() {
    let r = ExtensionRecord::from_raw(&raw(Some(2), Some(vec![("POSITION", Some(0)), ("NORMAL", Some(1))])));
    let ext = DracoExtension::parse(&r).unwrap();
    assert_eq!(ext.link.buffer_view, 2);
    assert_eq!(ext.link.map.len(), 2);
    assert!(matches!(ext.link.map.get(&0), Some(Semantic::Positions)));
    assert!(matches!(ext.link.map.get(&1), Some(Semantic::Normals)));
}

#[test]
fn record_missing_buffer_view() {
    let r = ExtensionRecord::from_raw(&raw(None, Some(vec![("POSITION", Some(0)), ("NORMAL", Some(1))])));
    assert!(matches!(r, ExtensionRecord::Malformed));
    assert_eq!(DracoExtension::parse(&r).err(), Some(DracoError::MalformedExtension));
}

#[test]
fn record_shape_errors() {
    assert!(matches!(ExtensionRecord::from_raw(&raw(Some(0), None)), ExtensionRecord::Malformed));
    assert!(matches!(
        ExtensionRecord::from_raw(&raw(Some(0), Some(vec![("POSITION", Some(0)), ("NORMAL", None)]))),
        ExtensionRecord::Malformed
    ));
    assert!(matches!(ExtensionRecord::from_raw(&None), ExtensionRecord::Absent));
    assert_eq!(
        DracoExtension::parse(&ExtensionRecord::from_raw(&None)).err(),
        Some(DracoError::NotApplicable)
    );
}

#[test]
fn record_keeps_entries_in_order() {
    match ExtensionRecord::from_raw(&raw(Some(7), Some(vec![("NORMAL", Some(1)), ("POSITION", Some(0))]))) {
        ExtensionRecord::Parsed(v) => {
            assert_eq!(v.buffer_view, 7);
            assert_eq!(v.attributes, vec![("NORMAL".to_string(), 1), ("POSITION".to_string(), 0)]);
        }
        _ => panic!("expected a parsed record"),
    }
    match ExtensionRecord::from_raw(&raw(Some(0), Some(vec![]))) {
        ExtensionRecord::Parsed(v) => assert!(v.attributes.is_empty()),
        _ => panic!("expected a parsed record"),
    }
}

#[test]
fn pipeline_twice_is_identical() {
    let record = raw(Some(0), Some(vec![("NORMAL", Some(1)), ("POSITION", Some(0))]));
    let views = vec![SourceView { buffer: 0, byte_offset: 2, byte_length: 4 }];
    let buffers = vec![vec![0u8, 1, 2, 3, 4, 5, 6]];
    let run = || {
        let ext = DracoExtension::parse(&ExtensionRecord::from_raw(&record)).unwrap();
        let payload = ext.compressed_payload(&views, &buffers).unwrap().to_vec();
        let data: Vec<u8> = (0..432u32).map(|i| (i % 13) as u8).collect();
        let (doc, out) = ext
            .finish_decoded(&primitive(36), Some((two_attribute_config(), data)))
            .unwrap();
        (payload, format!("{:?}", doc), out)
    };
    let (p1, d1, o1) = run();
    let (p2, d2, o2) = run();
    assert_eq!(p1, vec![2u8, 3, 4, 5]);
    assert_eq!(p1, p2);
    assert_eq!(d1, d2);
    assert_eq!(o1, o2);
}
