use std::collections::BTreeMap;
use vstd::prelude::*;
use vstd::slice::slice_subrange;

use crate::semantic::{classify, Checked, Semantic, SemanticCheck, SemanticModel};

verus! {

broadcast use vstd::std_specs::btree::group_btree_axioms, vstd::laws_cmp::group_laws_cmp;

/// Why a primitive is left to the uncompressed path.
#[derive(Debug, Clone, Copy, PartialEq, Eq, Structural)]
pub enum DracoError {
    /// The primitive carries no compression extension.
    NotApplicable,
    /// The extension is present but its fields do not have the expected shape.
    MalformedExtension,
    /// An attribute name names no known semantic.
    UnrecognizedSemantic,
    /// The payload's buffer-view, or the byte range it names, does not exist.
    BufferViewOutOfRange,
    /// The decoder produced no mesh.
    DecodeFailure,
    /// The decoded layout does not fit the link map or the original primitive.
    SynthesisInconsistency,
}

impl DracoError {
    /// Whether the caller reports this outcome: every kind but an absent
    /// extension, which is no error.
    pub fn is_reported(&self) -> (r: bool)
        ensures
            r == (*self != DracoError::NotApplicable),
    {
        match self {
            DracoError::NotApplicable => false,
            _ => true,
        }
    }
}

/// The fields of the compression extension: the payload's buffer-view and the
/// codec index of each named attribute.
#[derive(Debug, Clone, Default)]
pub struct DracoExtensionValue {
    pub buffer_view: usize,
    pub attributes: Vec<(String, usize)>,
}

/// The compression extension as found on a primitive.
#[derive(Debug, Clone)]
pub enum ExtensionRecord {
    Absent,
    Malformed,
    Parsed(DracoExtensionValue),
}

/// The extension object's fields as read from JSON: each is absent where the
/// field is missing or is not a non-negative integer (an object, for
/// `attributes`).
#[derive(Debug, Clone, Default)]
pub struct RawExtension {
    pub buffer_view: Option<u64>,
    pub attributes: Option<Vec<(String, Option<u64>)>>,
}

pub open spec fn fits_usize(v: Option<u64>) -> bool {
    v is Some && v->0 <= usize::MAX
}

/// The record has a buffer-view and an attribute object whose every entry is
/// an index, all within `usize`.
pub open spec fn raw_well_formed(raw: RawExtension) -> bool {
    &&& fits_usize(raw.buffer_view)
    &&& raw.attributes is Some
    &&& forall|j: int|
        0 <= j < raw.attributes->0@.len() ==> fits_usize(#[trigger] raw.attributes->0@[j].1)
}

/// The record read from an extension entry, where there is one.
pub open spec fn record_of(raw: Option<RawExtension>, r: ExtensionRecord) -> bool {
    match raw {
        None => r is Absent,
        Some(x) => if raw_well_formed(x) {
            &&& r is Parsed
            &&& r->Parsed_0.buffer_view == x.buffer_view->0
            &&& r->Parsed_0.attributes@.len() == x.attributes->0@.len()
            &&& forall|j: int|
                0 <= j < x.attributes->0@.len() ==> (#[trigger] r->Parsed_0.attributes@[j]).0@
                    == x.attributes->0@[j].0@ && r->Parsed_0.attributes@[j].1
                    == x.attributes->0@[j].1->0
        } else {
            r is Malformed
        },
    }
}

impl ExtensionRecord {
    /// Checks the shape of an extension entry: `None` where the primitive has
    /// no such entry.
    pub fn from_raw(raw: &Option<RawExtension>) -> (r: ExtensionRecord)
        ensures
            record_of(*raw, r),
    {
        let x = match raw {
            None => return ExtensionRecord::Absent,
            Some(x) => x,
        };
        let buffer_view = match x.buffer_view {
            Some(b) if b <= usize::MAX as u64 => b as usize,
            _ => return ExtensionRecord::Malformed,
        };
        let entries = match &x.attributes {
            Some(a) => a,
            None => return ExtensionRecord::Malformed,
        };
        let mut attributes: Vec<(String, usize)> = Vec::new();
        let n = entries.len();
        let mut i: usize = 0;
        while i < n
            invariant
                n == entries@.len(),
                i <= n,
                *raw == Some(*x),
                x.attributes == Some(*entries),
                fits_usize(x.buffer_view),
                attributes@.len() == i,
                forall|j: int| 0 <= j < i ==> fits_usize(#[trigger] entries@[j].1),
                forall|j: int|
                    0 <= j < i ==> (#[trigger] attributes@[j]).0@ == entries@[j].0@
                        && attributes@[j].1 == entries@[j].1->0,
            decreases n - i,
        {
            let index = match entries[i].1 {
                Some(v) if v <= usize::MAX as u64 => v as usize,
                _ => {
                    assert(!fits_usize(entries@[i as int].1));
                    return ExtensionRecord::Malformed;
                },
            };
            attributes.push((entries[i].0.clone(), index));
            i = i + 1;
        }
        ExtensionRecord::Parsed(DracoExtensionValue { buffer_view, attributes })
    }
}

/// Codec attribute index to semantic, and the payload's buffer-view.
#[derive(Debug, Default)]
pub struct DracoSemanticLink {
    pub map: BTreeMap<usize, Semantic>,
    pub buffer_view: usize,
}

/// A primitive's compression extension, with its attributes classified.
#[derive(Debug)]
pub struct DracoExtension {
    pub link: DracoSemanticLink,
}

/// Element component type of an accessor.
#[derive(Debug, Clone, Copy, PartialEq, Eq, Structural)]
pub enum ComponentType {
    I8,
    U8,
    I16,
    U16,
    U32,
    F32,
}

/// Element shape of an accessor.
#[derive(Debug, Clone, Copy, PartialEq, Eq, Structural)]
pub enum Dimensions {
    Scalar,
    Vec2,
    Vec3,
    Vec4,
    Mat2,
    Mat3,
    Mat4,
}

/// Declared so that accessor bounds can be carried through unchanged.
#[verifier::external_type_specification]
#[verifier::external_body]
pub struct ExJsonValue(serde_json::Value);

/// Relies on serde_json's derived `Clone` for `Value`: a field-by-field copy.
pub assume_specification[ <serde_json::Value as Clone>::clone ](v: &serde_json::Value) -> (r:
    serde_json::Value)
    ensures
        r == *v,
;

/// What synthesis reads of one of the original primitive's accessors.
#[derive(Debug, Clone)]
pub struct AccessorInfo {
    pub count: usize,
    pub component_type: ComponentType,
    pub dimensions: Dimensions,
    pub min: Option<serde_json::Value>,
    pub max: Option<serde_json::Value>,
}

/// The original primitive: its index accessor and its attribute accessors.
#[derive(Debug, Clone)]
pub struct PrimitiveInfo {
    pub indices: Option<AccessorInfo>,
    pub attributes: Vec<(Semantic, AccessorInfo)>,
}

/// A buffer-view of the source document.
#[derive(Debug, Clone, Copy, PartialEq, Eq, Structural)]
pub struct SourceView {
    pub buffer: usize,
    pub byte_offset: usize,
    pub byte_length: usize,
}

/// Where one decoded attribute stream lies in the decoded buffer.
#[derive(Debug, Clone, Copy, PartialEq, Eq, Structural)]
pub struct AttributeLayout {
    pub offset: u32,
    pub length: u32,
}

/// The decoder's description of its output buffer, attributes in codec order.
#[derive(Debug, Clone)]
pub struct DecodeConfig {
    pub buffer_size: usize,
    pub attributes: Vec<AttributeLayout>,
}

/// A byte range of the one synthesized buffer.
#[derive(Debug, Clone, Copy, PartialEq, Eq, Structural)]
pub struct BufferView {
    pub byte_offset: usize,
    pub byte_length: usize,
}

/// A synthesized accessor over one buffer-view.
#[derive(Debug, Clone)]
pub struct Accessor {
    pub buffer_view: usize,
    pub count: usize,
    pub component_type: ComponentType,
    pub dimensions: Dimensions,
    pub min: Option<serde_json::Value>,
    pub max: Option<serde_json::Value>,
}

/// The synthesized sub-document: one buffer, its views and accessors, and one
/// triangle-list primitive whose attributes and indices name accessors.
#[derive(Debug)]
pub struct MeshDocument {
    pub buffer_length: usize,
    pub views: Vec<BufferView>,
    pub accessors: Vec<Accessor>,
    pub attributes: Vec<(Semantic, usize)>,
    pub indices: usize,
}

/// Mathematical value of a `MeshDocument`: semantics by their models.
pub struct MeshDocumentModel {
    pub buffer_length: usize,
    pub views: Seq<BufferView>,
    pub accessors: Seq<Accessor>,
    pub attributes: Seq<(SemanticModel, usize)>,
    pub indices: usize,
}

impl View for MeshDocument {
    type V = MeshDocumentModel;

    open spec fn view(&self) -> MeshDocumentModel {
        MeshDocumentModel {
            buffer_length: self.buffer_length,
            views: self.views@,
            accessors: self.accessors@,
            attributes: self.attributes@.map_values(|p: (Semantic, usize)| (p.0@, p.1)),
            indices: self.indices,
        }
    }
}

pub open spec fn all_classified(attrs: Seq<(String, usize)>) -> bool {
    forall|i: int| 0 <= i < attrs.len() ==> (#[trigger] classify(attrs[i].0@)) is Some
}

/// The link map of an attribute list: entries in list order, a later entry
/// replacing an earlier one with the same codec index.
pub open spec fn linked(attrs: Seq<(String, usize)>) -> Map<usize, SemanticModel>
    decreases attrs.len(),
{
    if attrs.len() == 0 {
        Map::empty()
    } else {
        linked(attrs.drop_last()).insert(attrs.last().1, classify(attrs.last().0@)->0)
    }
}

pub open spec fn link_view(m: Map<usize, Semantic>) -> Map<usize, SemanticModel> {
    Map::new(|k: usize| m.contains_key(k), |k: usize| m[k]@)
}

pub open spec fn link_of(value: DracoExtensionValue, link: DracoSemanticLink) -> bool {
    &&& link.buffer_view == value.buffer_view
    &&& link_view(link.map@) == linked(value.attributes@)
}

/// What `parse` makes of a record.
pub open spec fn parse_post(record: ExtensionRecord, r: Result<DracoExtension, DracoError>) -> bool {
    match record {
        ExtensionRecord::Absent => r == Err::<DracoExtension, DracoError>(DracoError::NotApplicable),
        ExtensionRecord::Malformed => r == Err::<DracoExtension, DracoError>(
            DracoError::MalformedExtension,
        ),
        ExtensionRecord::Parsed(v) => match r {
            Ok(ext) => all_classified(v.attributes@) && link_of(v, ext.link),
            Err(e) => !all_classified(v.attributes@) && e == DracoError::UnrecognizedSemantic,
        },
    }
}

/// The index component type: widened to `U32` when the count exceeds the
/// 16-bit range, else kept.
pub open spec fn promoted(t: ComponentType, count: usize) -> ComponentType {
    if count > 65535 {
        ComponentType::U32
    } else {
        t
    }
}

/// First position of `s` among the primitive's attribute semantics.
pub open spec fn first_with(attrs: Seq<(Semantic, AccessorInfo)>, s: SemanticModel, i: int) -> bool {
    &&& 0 <= i < attrs.len()
    &&& attrs[i].0@ == s
    &&& forall|j: int| 0 <= j < i ==> attrs[j].0@ != s
}

/// The original accessor for a semantic.
pub open spec fn accessor_of(attrs: Seq<(Semantic, AccessorInfo)>, s: SemanticModel) -> Option<
    AccessorInfo,
> {
    if exists|i: int| first_with(attrs, s, i) {
        Some(attrs[choose|i: int| first_with(attrs, s, i)].1)
    } else {
        None
    }
}

pub open spec fn payload_in_range(
    buffer_view: usize,
    views: Seq<SourceView>,
    buffers: Seq<Vec<u8>>,
) -> bool {
    &&& buffer_view < views.len()
    &&& views[buffer_view as int].buffer < buffers.len()
    &&& views[buffer_view as int].byte_offset + views[buffer_view as int].byte_length
        <= buffers[views[buffer_view as int].buffer as int]@.len()
}

pub open spec fn payload_of(buffer_view: usize, views: Seq<SourceView>, buffers: Seq<Vec<u8>>) -> Seq<
    u8,
> {
    let v = views[buffer_view as int];
    buffers[v.buffer as int]@.subrange(v.byte_offset as int, v.byte_offset + v.byte_length)
}

/// Synthesis succeeds exactly when the primitive has indices and each decoded
/// attribute has a semantic whose original accessor exists.
pub open spec fn synthesis_ok(
    link: Map<usize, Semantic>,
    primitive: PrimitiveInfo,
    config: DecodeConfig,
) -> bool {
    &&& primitive.indices is Some
    &&& forall|k: int|
        0 <= k < config.attributes.len() ==> #[trigger] link.contains_key(k as usize)
            && accessor_of(primitive.attributes@, link[k as usize]@) is Some
}

pub open spec fn index_accessor(info: AccessorInfo) -> Accessor {
    Accessor {
        buffer_view: 0,
        count: info.count,
        component_type: promoted(info.component_type, info.count),
        dimensions: info.dimensions,
        min: None,
        max: None,
    }
}

pub open spec fn layout_view(l: AttributeLayout) -> BufferView {
    BufferView { byte_offset: l.offset as usize, byte_length: l.length as usize }
}

pub open spec fn attribute_accessor(k: int, info: AccessorInfo) -> Accessor {
    Accessor {
        buffer_view: (k + 1) as usize,
        count: info.count,
        component_type: info.component_type,
        dimensions: info.dimensions,
        min: info.min,
        max: info.max,
    }
}

/// The synthesized document: the index view spans the whole buffer, then one
/// view and one accessor per decoded attribute, in codec order.
pub open spec fn synthesized(
    link: Map<usize, Semantic>,
    primitive: PrimitiveInfo,
    config: DecodeConfig,
) -> MeshDocumentModel {
    let n = config.attributes.len();
    MeshDocumentModel {
        buffer_length: config.buffer_size,
        views: seq![BufferView { byte_offset: 0, byte_length: config.buffer_size }] + Seq::new(
            n as nat,
            |k: int| layout_view(config.attributes@[k]),
        ),
        accessors: seq![index_accessor(primitive.indices->0)] + Seq::new(
            n as nat,
            |k: int| attribute_accessor(k, accessor_of(primitive.attributes@, link[k as usize]@)->0),
        ),
        attributes: Seq::new(n as nat, |k: int| (link[k as usize]@, (k + 1) as usize)),
        indices: 0,
    }
}

pub open spec fn build_post(
    link: Map<usize, Semantic>,
    primitive: PrimitiveInfo,
    config: DecodeConfig,
    r: Result<MeshDocument, DracoError>,
) -> bool {
    match r {
        Ok(doc) => synthesis_ok(link, primitive, config) && doc@ == synthesized(
            link,
            primitive,
            config,
        ),
        Err(e) => !synthesis_ok(link, primitive, config) && e == DracoError::SynthesisInconsistency,
    }
}

/// What `finish_decoded` returns for a decoder outcome.
pub open spec fn finish_post(
    link: Map<usize, Semantic>,
    primitive: PrimitiveInfo,
    decoded: Option<(DecodeConfig, Vec<u8>)>,
    r: Result<(MeshDocument, Vec<Vec<u8>>), DracoError>,
) -> bool {
    match decoded {
        None => r is Err && r->Err_0 == DracoError::DecodeFailure,
        Some((config, data)) => match r {
            Ok((doc, out)) => synthesis_ok(link, primitive, config) && doc@ == synthesized(
                link,
                primitive,
                config,
            ) && out@.len() == 1 && out@[0]@ == data@,
            Err(e) => !synthesis_ok(link, primitive, config) && e
                == DracoError::SynthesisInconsistency,
        },
    }
}

/// The index component type of the synthesized index accessor.
pub fn index_component_type(t: ComponentType, count: usize) -> (r: ComponentType)
    ensures
        r == promoted(t, count),
        r == t || r == ComponentType::U32,
        t == ComponentType::U32 ==> r == ComponentType::U32,
{
    if count > 65535 {
        ComponentType::U32
    } else {
        t
    }
}

fn copy_semantic(s: &Semantic) -> (r: Semantic)
    ensures
        r@ == s@,
{
    match s {
        Semantic::Positions => Semantic::Positions,
        Semantic::Normals => Semantic::Normals,
        Semantic::Tangents => Semantic::Tangents,
        Semantic::Colors(n) => Semantic::Colors(*n),
        Semantic::TexCoords(n) => Semantic::TexCoords(*n),
        Semantic::Joints(n) => Semantic::Joints(*n),
        Semantic::Weights(n) => Semantic::Weights(*n),
        Semantic::Extras(name) => Semantic::Extras(name.clone()),
    }
}

fn same_semantic(a: &Semantic, b: &Semantic) -> (r: bool)
    ensures
        r == (a@ == b@),
{
    match (a, b) {
        (Semantic::Positions, Semantic::Positions) => true,
        (Semantic::Normals, Semantic::Normals) => true,
        (Semantic::Tangents, Semantic::Tangents) => true,
        (Semantic::Colors(x), Semantic::Colors(y)) => *x == *y,
        (Semantic::TexCoords(x), Semantic::TexCoords(y)) => *x == *y,
        (Semantic::Joints(x), Semantic::Joints(y)) => *x == *y,
        (Semantic::Weights(x), Semantic::Weights(y)) => *x == *y,
        (Semantic::Extras(x), Semantic::Extras(y)) => *x == *y,
        _ => false,
    }
}

fn copy_bound(b: &Option<serde_json::Value>) -> (r: Option<serde_json::Value>)
    ensures
        r == *b,
{
    match b {
        Some(v) => Some(v.clone()),
        None => None,
    }
}

impl PrimitiveInfo {
    /// The original accessor for a semantic: the first attribute entry with it.
    pub fn get(&self, semantic: &Semantic) -> (r: Option<&AccessorInfo>)
        ensures
            match r {
                Some(a) => accessor_of(self.attributes@, semantic@) == Some(*a),
                None => accessor_of(self.attributes@, semantic@) is None,
            },
    {
        let n = self.attributes.len();
        let mut i: usize = 0;
        while i < n
            invariant
                n == self.attributes@.len(),
                i <= n,
                forall|j: int| 0 <= j < i ==> self.attributes@[j].0@ != semantic@,
            decreases n - i,
        {
            if same_semantic(&self.attributes[i].0, semantic) {
                let ghost attrs = self.attributes@;
                assert(first_with(attrs, semantic@, i as int));
                let ghost c = choose|c: int| first_with(attrs, semantic@, c);
                assert(c == i) by {
                    if c < i {
                        assert(attrs[c].0@ != semantic@);
                    } else if c > i {
                        assert(attrs[i as int].0@ != semantic@);
                    }
                }
                return Some(&self.attributes[i].1);
            }
            i = i + 1;
        }
        assert(!exists|c: int| first_with(self.attributes@, semantic@, c));
        None
    }
}

impl DracoSemanticLink {
    /// Classifies each attribute name and links its codec index to the result.
    pub fn from_extension_value(value: &DracoExtensionValue) -> (r: Result<
        DracoSemanticLink,
        DracoError,
    >)
        ensures
            match r {
                Ok(link) => all_classified(value.attributes@) && link_of(*value, link),
                Err(e) => !all_classified(value.attributes@) && e == DracoError::UnrecognizedSemantic,
            },
    {
        let mut map: BTreeMap<usize, Semantic> = BTreeMap::new();
        let n = value.attributes.len();
        let mut i: usize = 0;
        while i < n
            invariant
                n == value.attributes@.len(),
                i <= n,
                all_classified(value.attributes@.take(i as int)),
                link_view(map@) == linked(value.attributes@.take(i as int)),
            decreases n - i,
        {
            let ghost attrs = value.attributes@;
            let entry = &value.attributes[i];
            let checked = Semantic::checked(entry.0.as_str());
            match checked {
                Checked::Valid(semantic) => {
                    let ghost before = map@;
                    map.insert(entry.1, semantic);
                    proof {
                        let next = attrs.take(i + 1);
                        assert(next.drop_last() =~= attrs.take(i as int));
                        assert(link_view(map@) =~= link_view(before).insert(entry.1, semantic@));
                        assert forall|j: int| 0 <= j < next.len() implies (#[trigger] classify(
                            next[j].0@,
                        )) is Some by {
                            if j < i {
                                assert(next[j] == attrs.take(i as int)[j]);
                            }
                        }
                    }
                },
                Checked::Invalid => {
                    assert(classify(attrs[i as int].0@) is None);
                    return Err(DracoError::UnrecognizedSemantic);
                },
            }
            i = i + 1;
        }
        assert(value.attributes@.take(n as int) =~= value.attributes@);
        Ok(DracoSemanticLink { map, buffer_view: value.buffer_view })
    }
}

impl DracoExtension {
    /// Reads the compression extension of a primitive.
    pub fn parse(record: &ExtensionRecord) -> (r: Result<DracoExtension, DracoError>)
        ensures
            parse_post(*record, r),
    {
        match record {
            ExtensionRecord::Absent => Err(DracoError::NotApplicable),
            ExtensionRecord::Malformed => Err(DracoError::MalformedExtension),
            ExtensionRecord::Parsed(value) => match DracoSemanticLink::from_extension_value(value) {
                Ok(link) => Ok(DracoExtension { link }),
                Err(e) => Err(e),
            },
        }
    }

    /// The compressed bytes: the range of the linked buffer-view in its buffer.
    pub fn compressed_payload<'a>(&self, views: &Vec<SourceView>, buffers: &'a Vec<Vec<u8>>) -> (r:
        Result<&'a [u8], DracoError>)
        ensures
            match r {
                Ok(bytes) => payload_in_range(self.link.buffer_view, views@, buffers@) && bytes@
                    == payload_of(self.link.buffer_view, views@, buffers@),
                Err(e) => !payload_in_range(self.link.buffer_view, views@, buffers@) && e
                    == DracoError::BufferViewOutOfRange,
            },
    {
        let index = self.link.buffer_view;
        if index >= views.len() {
            return Err(DracoError::BufferViewOutOfRange);
        }
        let view = views[index];
        if view.buffer >= buffers.len() {
            return Err(DracoError::BufferViewOutOfRange);
        }
        let buffer = &buffers[view.buffer];
        let len = buffer.len();
        if view.byte_offset > len || view.byte_length > len - view.byte_offset {
            return Err(DracoError::BufferViewOutOfRange);
        }
        Ok(slice_subrange(buffer.as_slice(), view.byte_offset, view.byte_offset + view.byte_length))
    }

    /// Describes the decoded layout as a document of its own.
    pub fn build_document(&self, primitive: &PrimitiveInfo, decode_config: &DecodeConfig) -> (r:
        Result<MeshDocument, DracoError>)
        ensures
            build_post(self.link.map@, *primitive, *decode_config, r),
    {
        let ghost link = self.link.map@;
        let ghost spec_doc = synthesized(link, *primitive, *decode_config);
        let indices = match &primitive.indices {
            Some(a) => a,
            None => return Err(DracoError::SynthesisInconsistency),
        };
        let buffer_length = decode_config.buffer_size;
        let mut views: Vec<BufferView> = Vec::new();
        views.push(BufferView { byte_offset: 0, byte_length: buffer_length });
        let mut accessors: Vec<Accessor> = Vec::new();
        accessors.push(
            Accessor {
                buffer_view: 0,
                count: indices.count,
                component_type: index_component_type(indices.component_type, indices.count),
                dimensions: indices.dimensions,
                min: None,
                max: None,
            },
        );
        let mut attributes: Vec<(Semantic, usize)> = Vec::new();
        let n = decode_config.attributes.len();
        let mut k: usize = 0;
        while k < n
            invariant
                n == decode_config.attributes@.len(),
                k <= n,
                link == self.link.map@,
                spec_doc == synthesized(link, *primitive, *decode_config),
                primitive.indices is Some,
                views@.len() == k + 1,
                accessors@.len() == k + 1,
                attributes@.len() == k,
                forall|j: int| 0 <= j < k + 1 ==> views@[j] == spec_doc.views[j],
                forall|j: int| 0 <= j < k + 1 ==> accessors@[j] == spec_doc.accessors[j],
                forall|j: int|
                    0 <= j < k ==> (attributes@[j].0@, attributes@[j].1) == spec_doc.attributes[j],
                forall|j: int|
                    0 <= j < k ==> #[trigger] link.contains_key(j as usize) && accessor_of(
                        primitive.attributes@,
                        link[j as usize]@,
                    ) is Some,
            decreases n - k,
        {
            let semantic = match self.link.map.get(&k) {
                Some(s) => s,
                None => {
                    assert(!link.contains_key(k as usize));
                    return Err(DracoError::SynthesisInconsistency);
                },
            };
            let old_attr = match primitive.get(semantic) {
                Some(a) => a,
                None => {
                    assert(link.contains_key(k as usize));
                    return Err(DracoError::SynthesisInconsistency);
                },
            };
            assert(link.contains_key(k as usize) && accessor_of(
                primitive.attributes@,
                link[k as usize]@,
            ) is Some);
            let layout = decode_config.attributes[k];
            views.push(
                BufferView { byte_offset: layout.offset as usize, byte_length: layout.length as usize },
            );
            accessors.push(
                Accessor {
                    buffer_view: k + 1,
                    count: old_attr.count,
                    component_type: old_attr.component_type,
                    dimensions: old_attr.dimensions,
                    min: copy_bound(&old_attr.min),
                    max: copy_bound(&old_attr.max),
                },
            );
            attributes.push((copy_semantic(semantic), k + 1));
            k = k + 1;
        }
        let doc = MeshDocument { buffer_length, views, accessors, attributes, indices: 0 };
        assert(doc@.views =~= spec_doc.views);
        assert(doc@.accessors =~= spec_doc.accessors);
        assert(doc@.attributes =~= spec_doc.attributes);
        Ok(doc)
    }

    /// Takes the decoder's outcome for the compressed payload: no result is a
    /// decode failure, else the layout becomes a document and the decoded bytes
    /// its one buffer's data.
    pub fn finish_decoded(
        &self,
        primitive: &PrimitiveInfo,
        decoded: Option<(DecodeConfig, Vec<u8>)>,
    ) -> (r: Result<(MeshDocument, Vec<Vec<u8>>), DracoError>)
        ensures
            finish_post(self.link.map@, *primitive, decoded, r),
    {
        match decoded {
            None => Err(DracoError::DecodeFailure),
            Some((config, data)) => match self.build_document(primitive, &config) {
                Ok(doc) => {
                    let mut out: Vec<Vec<u8>> = Vec::new();
                    out.push(data);
                    Ok((doc, out))
                },
                Err(e) => Err(e),
            },
        }
    }
}

/// The outcome of `finish_decoded` as values: the document's model and the
/// bytes of each buffer.
pub open spec fn outcome_view(r: Result<(MeshDocument, Vec<Vec<u8>>), DracoError>) -> Result<
    (MeshDocumentModel, Seq<Seq<u8>>),
    DracoError,
> {
    match r {
        Ok((doc, out)) => Ok((doc@, out@.map_values(|b: Vec<u8>| b@))),
        Err(e) => Err(e),
    }
}

/// Where the decoder's attribute ranges lie within its buffer, the synthesized
/// document has one view and one accessor for the index stream and for each
/// attribute, every view lies within the one buffer, and accessor `i` reads
/// view `i`.
pub proof fn law_synthesized_layout(
    link: Map<usize, Semantic>,
    primitive: PrimitiveInfo,
    config: DecodeConfig,
)
    requires
        synthesis_ok(link, primitive, config),
        forall|k: int|
            0 <= k < config.attributes.len() ==> #[trigger] config.attributes@[k].offset
                + config.attributes@[k].length <= config.buffer_size,
    ensures
        ({
            let d = synthesized(link, primitive, config);
            let n = config.attributes.len();
            &&& d.views.len() == n + 1
            &&& d.accessors.len() == n + 1
            &&& d.attributes.len() == n
            &&& forall|i: int|
                0 <= i < d.views.len() ==> #[trigger] d.views[i].byte_offset
                    + d.views[i].byte_length <= d.buffer_length
            &&& forall|i: int|
                0 <= i < d.accessors.len() ==> #[trigger] d.accessors[i].buffer_view == i
            &&& forall|k: int|
                0 <= k < d.attributes.len() ==> #[trigger] d.attributes[k].1 == k + 1
            &&& d.indices == 0
        }),
{
    let d = synthesized(link, primitive, config);
    assert forall|i: int| 0 <= i < d.views.len() implies #[trigger] d.views[i].byte_offset
        + d.views[i].byte_length <= d.buffer_length by {
        if i > 0 {
            assert(d.views[i] == layout_view(config.attributes@[i - 1]));
        }
    }
    assert forall|i: int| 0 <= i < d.accessors.len() implies #[trigger] d.accessors[i].buffer_view
        == i by {
        if i > 0 {
            assert(d.accessors[i] == attribute_accessor(
                i - 1,
                accessor_of(primitive.attributes@, link[(i - 1) as usize]@)->0,
            ));
        }
    }
}

/// Running the pipeline twice on the same record, primitive and decoder
/// outcome gives the same document and the same bytes: `parse` fixes the link's
/// view from the record, and finishing depends on the link through that view
/// alone.
pub proof fn law_pipeline_deterministic(
    record: ExtensionRecord,
    e1: DracoExtension,
    e2: DracoExtension,
    primitive: PrimitiveInfo,
    decoded: Option<(DecodeConfig, Vec<u8>)>,
    r1: Result<(MeshDocument, Vec<Vec<u8>>), DracoError>,
    r2: Result<(MeshDocument, Vec<Vec<u8>>), DracoError>,
)
    requires
        parse_post(record, Ok(e1)),
        parse_post(record, Ok(e2)),
        finish_post(e1.link.map@, primitive, decoded, r1),
        finish_post(e2.link.map@, primitive, decoded, r2),
    ensures
        e1.link.buffer_view == e2.link.buffer_view,
        outcome_view(r1) == outcome_view(r2),
{
    let l1 = e1.link.map@;
    let l2 = e2.link.map@;
    assert(link_view(l1) == link_view(l2));
    assert forall|k: usize| l1.contains_key(k) == l2.contains_key(k) && (l1.contains_key(k)
        ==> l1[k]@ == l2[k]@) by {
        assert(link_view(l1).contains_key(k) == l1.contains_key(k));
        assert(link_view(l2).contains_key(k) == l2.contains_key(k));
        if l1.contains_key(k) {
            assert(link_view(l1)[k] == l1[k]@);
            assert(link_view(l2)[k] == l2[k]@);
        }
    }
    if let Some((config, data)) = decoded {
        assert(synthesis_ok(l1, primitive, config) == synthesis_ok(l2, primitive, config)) by {
            if synthesis_ok(l1, primitive, config) {
                assert forall|k: int| 0 <= k < config.attributes.len() implies #[trigger] l2.contains_key(
                    k as usize,
                ) && accessor_of(primitive.attributes@, l2[k as usize]@) is Some by {
                    assert(l1.contains_key(k as usize));
                }
            }
            if synthesis_ok(l2, primitive, config) {
                assert forall|k: int| 0 <= k < config.attributes.len() implies #[trigger] l1.contains_key(
                    k as usize,
                ) && accessor_of(primitive.attributes@, l1[k as usize]@) is Some by {
                    assert(l2.contains_key(k as usize));
                }
            }
        }
        if let (Ok((d1, o1)), Ok((d2, o2))) = (r1, r2) {
            let s1 = synthesized(l1, primitive, config);
            let s2 = synthesized(l2, primitive, config);
            assert(s1.accessors =~= s2.accessors) by {
                assert forall|i: int| 0 <= i < s1.accessors.len() implies s1.accessors[i]
                    == s2.accessors[i] by {
                    if i > 0 {
                        assert(l1.contains_key((i - 1) as usize));
                    }
                }
            }
            assert(s1.attributes =~= s2.attributes) by {
                assert forall|i: int| 0 <= i < s1.attributes.len() implies s1.attributes[i]
                    == s2.attributes[i] by {
                    assert(l1.contains_key(i as usize));
                }
            }
            assert(s1.views =~= s2.views);
            assert(o1@.map_values(|b: Vec<u8>| b@) =~= o2@.map_values(|b: Vec<u8>| b@));
        }
    }
}

} // verus!
