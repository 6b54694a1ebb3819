//! The binary codec for column-schema metadata: an ordered list of
//! (name, type-tag) field descriptors, encoded as a little-endian `u64`
//! field count followed, per field, by a `u64` name byte-length, the UTF-8
//! name bytes, and a one-byte type tag.

use vstd::bytes::{
    lemma_auto_spec_u64_to_from_le_bytes, spec_u64_from_le_bytes, spec_u64_to_le_bytes,
    u64_from_le_bytes, u64_to_le_bytes,
};
use vstd::prelude::*;
use vstd::slice::{slice_subrange, slice_to_vec};
use vstd::std_specs::cmp::PartialEqSpec;
use vstd::utf8::{decode_utf8, encode_utf8, encode_utf8_decode_utf8, encode_utf8_valid_utf8,
    valid_utf8};

use crate::util::SliceReader;

verus! {

/// The declared type of a column.
#[derive(Clone, Copy, Debug, PartialEq, Eq, Structural)]
pub enum FieldType {
    Numeric,
    Text,
}

/// Why decoding a metadata buffer failed.
#[derive(Clone, Copy, Debug, PartialEq, Eq, Structural)]
pub enum MetaError {
    /// Fewer bytes remained than a decoding step required.
    TruncatedBuffer,
    /// The name bytes of a field are not valid UTF-8.
    InvalidUtf8,
    /// A type-tag byte matches no known field type.
    InvalidTypeTag,
}

impl FieldType {
    /// The one-byte tag of this type in the binary layout.
    pub open spec fn spec_tag(self) -> u8 {
        match self {
            FieldType::Numeric => 0,
            FieldType::Text => 1,
        }
    }

    /// The type a tag byte names, if any.
    pub open spec fn spec_from_tag(tag: u8) -> Option<FieldType> {
        if tag == 0 {
            Some(FieldType::Numeric)
        } else if tag == 1 {
            Some(FieldType::Text)
        } else {
            None
        }
    }

    pub fn tag(self) -> (r: u8)
        ensures
            r == self.spec_tag(),
    {
        match self {
            FieldType::Numeric => 0,
            FieldType::Text => 1,
        }
    }

    pub fn from_tag(tag: u8) -> (r: Option<FieldType>)
        ensures
            r == Self::spec_from_tag(tag),
    {
        if tag == 0 {
            Some(FieldType::Numeric)
        } else if tag == 1 {
            Some(FieldType::Text)
        } else {
            None
        }
    }
}

/// One field descriptor: a name and a declared type.
#[derive(Debug)]
pub struct FieldMeta {
    name: String,
    field_type: FieldType,
}

impl View for FieldMeta {
    type V = (Seq<char>, FieldType);

    closed spec fn view(&self) -> (Seq<char>, FieldType) {
        (self.name@, self.field_type)
    }
}

impl PartialEq for FieldMeta {
    fn eq(&self, other: &FieldMeta) -> (r: bool) {
        self.name == other.name && self.field_type == other.field_type
    }
}

impl vstd::std_specs::cmp::PartialEqSpecImpl for FieldMeta {
    open spec fn obeys_eq_spec() -> bool {
        true
    }

    closed spec fn eq_spec(&self, other: &FieldMeta) -> bool {
        self.name@ == other.name@ && self.field_type == other.field_type
    }
}

impl Eq for FieldMeta {

}

/// An ordered list of field descriptors with its (redundant) field count.
#[derive(Debug)]
pub struct Metadata {
    num_fields: usize,
    fields: Vec<FieldMeta>,
}

impl PartialEq for Metadata {
    fn eq(&self, other: &Metadata) -> (r: bool) {
        let r = self.num_fields == other.num_fields && self.fields == other.fields;
        proof {
            if self.fields@.len() == other.fields@.len() && (forall|i: int|
                0 <= i < self.fields@.len() ==> #[trigger] self.fields@[i].eq_spec(
                    &other.fields@[i],
                )) {
                assert forall|i: int|
                    0 <= i < self.fields@.len() implies self.spec_fields()[i]
                    == other.spec_fields()[i] by {
                    assert(self.fields@[i].eq_spec(&other.fields@[i]));
                }
                assert(self.spec_fields() =~= other.spec_fields());
            }
            if self.spec_fields() == other.spec_fields() {
                assert forall|i: int|
                    0 <= i < self.fields@.len() implies #[trigger] self.fields@[i].eq_spec(
                    &other.fields@[i],
                ) by {
                    assert(self.spec_fields()[i] == other.spec_fields()[i]);
                }
            }
        }
        r
    }
}

impl vstd::std_specs::cmp::PartialEqSpecImpl for Metadata {
    open spec fn obeys_eq_spec() -> bool {
        true
    }

    closed spec fn eq_spec(&self, other: &Metadata) -> bool {
        self.num_fields == other.num_fields && self.spec_fields() == other.spec_fields()
    }
}

impl Eq for Metadata {

}

// --- The byte layout, as a specification ---

/// The encoding of one field: its name's byte length as a little-endian
/// `u64`, the UTF-8 name bytes, and the one-byte type tag.
pub open spec fn spec_encode_field(f: (Seq<char>, FieldType)) -> Seq<u8> {
    spec_u64_to_le_bytes(encode_utf8(f.0).len() as u64) + encode_utf8(f.0) + seq![f.1.spec_tag()]
}

/// The concatenated encodings of a list of fields.
pub open spec fn spec_encode_fields(fs: Seq<(Seq<char>, FieldType)>) -> Seq<u8>
    decreases fs.len(),
{
    if fs.len() == 0 {
        Seq::empty()
    } else {
        spec_encode_field(fs.first()) + spec_encode_fields(fs.drop_first())
    }
}

/// The full encoding: the field count as a little-endian `u64`, then every
/// field in order, with no padding.
pub open spec fn spec_encode(fs: Seq<(Seq<char>, FieldType)>) -> Seq<u8> {
    spec_u64_to_le_bytes(fs.len() as u64) + spec_encode_fields(fs)
}

/// Decoding one field from the front of `bytes`: the decoded field and the
/// bytes left over, or the first error met.
pub open spec fn spec_decode_field(bytes: Seq<u8>) -> Result<
    ((Seq<char>, FieldType), Seq<u8>),
    MetaError,
> {
    if bytes.len() < 8 {
        Err(MetaError::TruncatedBuffer)
    } else {
        let nlen = spec_u64_from_le_bytes(bytes.take(8)) as int;
        let rest = bytes.skip(8);
        if rest.len() < nlen + 1 {
            Err(MetaError::TruncatedBuffer)
        } else {
            let name_bytes = rest.take(nlen);
            let tag = rest[nlen];
            if !valid_utf8(name_bytes) {
                Err(MetaError::InvalidUtf8)
            } else {
                match FieldType::spec_from_tag(tag) {
                    Some(t) => Ok(((decode_utf8(name_bytes), t), rest.skip(nlen + 1))),
                    None => Err(MetaError::InvalidTypeTag),
                }
            }
        }
    }
}

/// Decoding `n` fields from the front of `bytes`: the decoded fields and the
/// bytes left over, or the first error met.
pub open spec fn spec_decode_fields(bytes: Seq<u8>, n: nat) -> Result<
    (Seq<(Seq<char>, FieldType)>, Seq<u8>),
    MetaError,
>
    decreases n,
{
    if n == 0 {
        Ok((Seq::empty(), bytes))
    } else {
        match spec_decode_field(bytes) {
            Err(e) => Err(e),
            Ok((f, rest)) => match spec_decode_fields(rest, (n - 1) as nat) {
                Err(e) => Err(e),
                Ok((fs, rest2)) => Ok((seq![f] + fs, rest2)),
            },
        }
    }
}

/// Decoding a whole metadata buffer: reads the count, then that many fields;
/// returns the fields and the (unvalidated) trailing bytes.
pub open spec fn spec_decode_full(bytes: Seq<u8>) -> Result<
    (Seq<(Seq<char>, FieldType)>, Seq<u8>),
    MetaError,
> {
    if bytes.len() < 8 {
        Err(MetaError::TruncatedBuffer)
    } else {
        spec_decode_fields(bytes.skip(8), spec_u64_from_le_bytes(bytes.take(8)) as nat)
    }
}

/// Decoding a whole metadata buffer, ignoring trailing bytes.
pub open spec fn spec_decode(bytes: Seq<u8>) -> Result<Seq<(Seq<char>, FieldType)>, MetaError> {
    match spec_decode_full(bytes) {
        Ok((fs, _)) => Ok(fs),
        Err(e) => Err(e),
    }
}

// --- The trusted boundary ---

/// Relies on `String::from_utf8`: it succeeds exactly on valid UTF-8 input
/// and returns the string those bytes decode to.
#[verifier::external_body]
fn bytes_to_string(v: Vec<u8>) -> (r: Option<String>)
    ensures
        r is Some <==> valid_utf8(v@),
        r is Some ==> r.unwrap()@ == decode_utf8(v@),
{
    match String::from_utf8(v) {
        Ok(s) => Some(s),
        Err(_) => None,
    }
}

// --- The executable codec ---

impl FieldMeta {
    pub fn new(name: String, field_type: FieldType) -> (r: FieldMeta)
        ensures
            r@ == (name@, field_type),
    {
        FieldMeta { name, field_type }
    }

    /// The field's name.
    pub fn name(&self) -> (r: &str)
        ensures
            r@ == self@.0,
    {
        self.name.as_str()
    }

    /// The field's declared type.
    pub fn field_type(&self) -> (r: FieldType)
        ensures
            r == self@.1,
    {
        self.field_type
    }

    /// Appends this field's encoding to `buf`.
    pub fn write_bytes(&self, buf: &mut Vec<u8>)
        ensures
            final(buf)@ == old(buf)@ + spec_encode_field(self@),
    {
        let bytes: &[u8] = self.name.as_str().as_bytes();
        let mut len_bytes: Vec<u8> = u64_to_le_bytes(bytes.len() as u64);
        buf.append(&mut len_bytes);
        buf.extend_from_slice(bytes);
        buf.push(self.field_type.tag());
        proof {
            assert(buf@ =~= old(buf)@ + spec_encode_field(self@));
        }
    }

    /// Decodes one field from the front of `reader`.
    pub fn from_reader(reader: &mut SliceReader<'_>) -> (r: Result<FieldMeta, MetaError>)
        ensures
            spec_decode_field(old(reader).remaining()) matches Ok((f, rest)) ==> r is Ok
                && r.unwrap()@ == f && final(reader).remaining() == rest,
            spec_decode_field(old(reader).remaining()) matches Err(e) ==> r == Err::<
                FieldMeta,
                MetaError,
            >(e),
    {
        let num_bytes: &[u8] = match reader.read_exact(8) {
            Some(b) => b,
            None => {
                return Err(MetaError::TruncatedBuffer);
            },
        };
        let length: u64 = u64_from_le_bytes(num_bytes);

        let rem_len: usize = reader.len();
        if length >= rem_len as u64 {
            return Err(MetaError::TruncatedBuffer);
        }
        let take_len: usize = (length as usize) + 1;
        let field_bytes: &[u8] = match reader.read_exact(take_len) {
            Some(b) => b,
            None => {
                return Err(MetaError::TruncatedBuffer);
            },
        };
        let name_slice: &[u8] = slice_subrange(field_bytes, 0, take_len - 1);
        let type_byte: u8 = field_bytes[take_len - 1];
        proof {
            let rest = old(reader).remaining().skip(8);
            assert(name_slice@ =~= rest.take(length as int));
            assert(type_byte == rest[length as int]);
        }

        let name: String = match bytes_to_string(slice_to_vec(name_slice)) {
            Some(s) => s,
            None => {
                return Err(MetaError::InvalidUtf8);
            },
        };
        let field_type: FieldType = match FieldType::from_tag(type_byte) {
            Some(t) => t,
            None => {
                return Err(MetaError::InvalidTypeTag);
            },
        };

        Ok(FieldMeta { name, field_type })
    }
}

impl Metadata {
    /// The fields, as (name, type) pairs.
    pub closed spec fn spec_fields(&self) -> Seq<(Seq<char>, FieldType)> {
        self.fields@.map_values(|f: FieldMeta| f@)
    }

    /// The stored count matches the number of fields.
    pub closed spec fn wf(&self) -> bool {
        self.num_fields == self.fields@.len()
    }

    pub fn new(num_fields: usize, fields: Vec<FieldMeta>) -> (r: Metadata)
        requires
            num_fields == fields@.len(),
        ensures
            r.wf(),
            r.spec_fields() == fields@.map_values(|f: FieldMeta| f@),
    {
        Metadata { num_fields, fields }
    }

    /// The number of fields described.
    pub fn num_fields(&self) -> (r: usize)
        requires
            self.wf(),
        ensures
            r == self.spec_fields().len(),
    {
        self.num_fields
    }

    /// Appends the full binary encoding of this metadata to `buffer`.
    pub fn write_bytes(&self, buffer: &mut Vec<u8>)
        requires
            self.wf(),
        ensures
            final(buffer)@ == old(buffer)@ + spec_encode(self.spec_fields()),
    {
        let mut count_bytes: Vec<u8> = u64_to_le_bytes(self.num_fields as u64);
        buffer.append(&mut count_bytes);

        let mut i: usize = 0;
        while i < self.fields.len()
            invariant
                i <= self.fields@.len(),
                buffer@ == old(buffer)@ + spec_u64_to_le_bytes(self.spec_fields().len() as u64)
                    + spec_encode_fields(self.spec_fields().take(i as int)),
            decreases self.fields@.len() - i,
        {
            proof {
                lemma_encode_fields_take_step(self.spec_fields(), i as int);
            }
            self.fields[i].write_bytes(buffer);
            proof {
                assert(buffer@ =~= old(buffer)@ + spec_u64_to_le_bytes(
                    self.spec_fields().len() as u64,
                ) + spec_encode_fields(self.spec_fields().take(i + 1)));
            }
            i = i + 1;
        }
        proof {
            assert(self.spec_fields().take(self.fields@.len() as int) =~= self.spec_fields());
            assert(buffer@ =~= old(buffer)@ + spec_encode(self.spec_fields()));
        }
    }

    /// Decodes metadata from the front of `slice`; trailing bytes are
    /// ignored.
    pub fn from_slice(slice: &[u8]) -> (r: Result<Metadata, MetaError>)
        ensures
            spec_decode(slice@) matches Ok(fs) ==> r is Ok && r.unwrap().wf()
                && r.unwrap().spec_fields() == fs,
            spec_decode(slice@) matches Err(e) ==> r == Err::<Metadata, MetaError>(e),
    {
        let mut reader = SliceReader::new(slice);
        Metadata::from_reader(&mut reader)
    }

    /// Decodes metadata from the front of `reader`, consuming exactly the
    /// bytes the layout declares.
    #[verifier::loop_isolation(false)]
    pub fn from_reader(reader: &mut SliceReader<'_>) -> (r: Result<Metadata, MetaError>)
        ensures
            spec_decode_full(old(reader).remaining()) matches Ok((fs, rest)) ==> r is Ok
                && r.unwrap().wf() && r.unwrap().spec_fields() == fs && final(reader).remaining()
                == rest,
            spec_decode_full(old(reader).remaining()) matches Err(e) ==> r == Err::<
                Metadata,
                MetaError,
            >(e),
    {
        let num_bytes: &[u8] = match reader.read_exact(8) {
            Some(b) => b,
            None => {
                return Err(MetaError::TruncatedBuffer);
            },
        };
        let num_fields: u64 = u64_from_le_bytes(num_bytes);
        let ghost s0: Seq<u8> = old(reader).remaining().skip(8);
        proof {
            assert(spec_decode_full(old(reader).remaining()) == spec_decode_fields(
                s0,
                num_fields as nat,
            ));
        }

        let mut fields: Vec<FieldMeta> = Vec::new();
        proof {
            assert(spec_fields_of(fields@) =~= Seq::<(Seq<char>, FieldType)>::empty());
            lemma_with_prefix_empty(spec_decode_fields(s0, num_fields as nat));
        }
        let mut i: u64 = 0;
        while i < num_fields
            invariant
                i <= num_fields,
                fields@.len() == i,
                spec_decode_fields(s0, num_fields as nat) == with_prefix(
                    spec_fields_of(fields@),
                    spec_decode_fields(reader.remaining(), (num_fields - i) as nat),
                ),
            decreases num_fields - i,
        {
            let ghost pre: Seq<u8> = reader.remaining();
            let ghost k: nat = (num_fields - i) as nat;
            let field: FieldMeta = match FieldMeta::from_reader(reader) {
                Ok(f) => f,
                Err(e) => {
                    proof {
                        if spec_decode_field(pre) is Ok {
                            assert(false);
                        }
                        assert(spec_decode_fields(pre, k) == Err::<
                            (Seq<(Seq<char>, FieldType)>, Seq<u8>),
                            MetaError,
                        >(spec_decode_field(pre)->Err_0));
                    }
                    return Err(e);
                },
            };
            let ghost fs_pre: Seq<FieldMeta> = fields@;
            proof {
                lemma_decode_fields_step(pre, k, field@, reader.remaining());
                lemma_with_prefix_compose(
                    spec_fields_of(fs_pre),
                    seq![field@],
                    spec_decode_fields(reader.remaining(), (k - 1) as nat),
                );
            }
            fields.push(field);
            proof {
                assert(spec_fields_of(fields@) =~= spec_fields_of(fs_pre) + seq![field@]);
            }
            i = i + 1;
        }

        proof {
            assert(spec_decode_fields(reader.remaining(), (num_fields - i) as nat) == Ok::<
                _,
                MetaError,
            >((Seq::<(Seq<char>, FieldType)>::empty(), reader.remaining())));
            assert(spec_fields_of(fields@) + Seq::<(Seq<char>, FieldType)>::empty()
                =~= spec_fields_of(fields@));
        }
        let n: usize = fields.len();
        Ok(Metadata { num_fields: n, fields })
    }
}

/// `r` with `prefix` prepended to its decoded fields, errors unchanged.
spec fn with_prefix(
    prefix: Seq<(Seq<char>, FieldType)>,
    r: Result<(Seq<(Seq<char>, FieldType)>, Seq<u8>), MetaError>,
) -> Result<(Seq<(Seq<char>, FieldType)>, Seq<u8>), MetaError> {
    match r {
        Ok((fs, rest)) => Ok((prefix + fs, rest)),
        Err(e) => Err(e),
    }
}

/// Prepending no fields changes nothing.
proof fn lemma_with_prefix_empty(r: Result<(Seq<(Seq<char>, FieldType)>, Seq<u8>), MetaError>)
    ensures
        with_prefix(Seq::empty(), r) == r,
{
    match r {
        Ok((fs, rest)) => {
            assert(Seq::<(Seq<char>, FieldType)>::empty() + fs =~= fs);
        },
        Err(_) => {},
    }
}

/// Prepending twice is prepending the concatenation.
proof fn lemma_with_prefix_compose(
    a: Seq<(Seq<char>, FieldType)>,
    b: Seq<(Seq<char>, FieldType)>,
    r: Result<(Seq<(Seq<char>, FieldType)>, Seq<u8>), MetaError>,
)
    ensures
        with_prefix(a, with_prefix(b, r)) == with_prefix(a + b, r),
{
    match r {
        Ok((fs, rest)) => {
            assert(a + (b + fs) =~= (a + b) + fs);
        },
        Err(_) => {},
    }
}

/// Decoding `k > 0` fields starts by decoding one and prepending it.
proof fn lemma_decode_fields_step(
    bytes: Seq<u8>,
    k: nat,
    f: (Seq<char>, FieldType),
    rest: Seq<u8>,
)
    requires
        k > 0,
        spec_decode_field(bytes) == Ok::<_, MetaError>((f, rest)),
    ensures
        spec_decode_fields(bytes, k) == with_prefix(
            seq![f],
            spec_decode_fields(rest, (k - 1) as nat),
        ),
{
    match spec_decode_fields(rest, (k - 1) as nat) {
        Ok((fs, rest2)) => {},
        Err(_) => {},
    }
}

/// The (name, type) views of a sequence of field descriptors.
pub open spec fn spec_fields_of(fields: Seq<FieldMeta>) -> Seq<(Seq<char>, FieldType)> {
    fields.map_values(|f: FieldMeta| f@)
}

/// Encoding one more field appends that field's bytes.
proof fn lemma_encode_fields_take_step(fs: Seq<(Seq<char>, FieldType)>, i: int)
    requires
        0 <= i < fs.len(),
    ensures
        spec_encode_fields(fs.take(i + 1)) == spec_encode_fields(fs.take(i)) + spec_encode_field(
            fs[i],
        ),
    decreases i,
{
    if i == 0 {
        assert(fs.take(1).first() == fs[0]);
        assert(fs.take(1).drop_first() =~= Seq::<(Seq<char>, FieldType)>::empty());
        assert(fs.take(0) =~= Seq::<(Seq<char>, FieldType)>::empty());
        assert(spec_encode_fields(Seq::<(Seq<char>, FieldType)>::empty()) == Seq::<u8>::empty());
        assert(spec_encode_fields(fs.take(1)) == spec_encode_field(fs[0]) + Seq::<u8>::empty());
        assert(spec_encode_field(fs[0]) + Seq::<u8>::empty() =~= spec_encode_field(fs[0]));
        assert(Seq::<u8>::empty() + spec_encode_field(fs[0]) =~= spec_encode_field(fs[0]));
    } else {
        let a = fs.take(i + 1);
        let b = fs.take(i);
        assert(a.first() == fs[0]);
        assert(b.first() == fs[0]);
        assert(a.drop_first() =~= fs.drop_first().take(i));
        assert(b.drop_first() =~= fs.drop_first().take(i - 1));
        lemma_encode_fields_take_step(fs.drop_first(), i - 1);
        assert(fs.drop_first()[i - 1] == fs[i]);
        assert(spec_encode_field(fs[0]) + (spec_encode_fields(fs.drop_first().take(i - 1))
            + spec_encode_field(fs[i])) =~= (spec_encode_field(fs[0]) + spec_encode_fields(
            fs.drop_first().take(i - 1),
        )) + spec_encode_field(fs[i]));
    }
}

// --- The round-trip law ---

/// Decoding the encoding of one field, with anything appended, gives the
/// field back and leaves exactly the appended bytes.
proof fn lemma_decode_encode_field(f: (Seq<char>, FieldType), tail: Seq<u8>)
    requires
        encode_utf8(f.0).len() <= u64::MAX,
    ensures
        spec_decode_field(spec_encode_field(f) + tail) == Ok::<_, MetaError>((f, tail)),
{
    lemma_auto_spec_u64_to_from_le_bytes();
    encode_utf8_valid_utf8(f.0);
    encode_utf8_decode_utf8(f.0);
    let name = encode_utf8(f.0);
    let nlen = name.len() as int;
    let bytes = spec_encode_field(f) + tail;
    assert(bytes.take(8) =~= spec_u64_to_le_bytes(nlen as u64));
    let rest = bytes.skip(8);
    assert(rest =~= name + seq![f.1.spec_tag()] + tail);
    assert(rest.take(nlen) =~= name);
    assert(rest[nlen] == f.1.spec_tag());
    assert(FieldType::spec_from_tag(f.1.spec_tag()) == Some(f.1));
    assert(rest.skip(nlen + 1) =~= tail);
}

/// Decoding the encodings of `fields`, with anything appended, gives the
/// fields back and leaves exactly the appended bytes.
proof fn lemma_decode_encode_fields(fields: Seq<(Seq<char>, FieldType)>, tail: Seq<u8>)
    requires
        forall|i: int| 0 <= i < fields.len() ==> encode_utf8(#[trigger] fields[i].0).len()
            <= u64::MAX,
    ensures
        spec_decode_fields(spec_encode_fields(fields) + tail, fields.len() as nat) == Ok::<
            _,
            MetaError,
        >((fields, tail)),
    decreases fields.len(),
{
    if fields.len() == 0 {
        assert(spec_encode_fields(fields) + tail =~= tail);
        assert(fields =~= Seq::<(Seq<char>, FieldType)>::empty());
    } else {
        let f = fields.first();
        let rest_fields = fields.drop_first();
        assert(spec_encode_fields(fields) + tail =~= spec_encode_field(f) + (spec_encode_fields(
            rest_fields,
        ) + tail));
        lemma_decode_encode_field(f, spec_encode_fields(rest_fields) + tail);
        lemma_decode_encode_fields(rest_fields, tail);
        assert(seq![f] + rest_fields =~= fields);
    }
}

/// The round-trip law: decoding the encoding of any list of fields — empty
/// names and duplicate names included — yields that list back, with the
/// bounds machine-representable metadata always meets (the field count and
/// each name's byte length fit in a `u64`).
pub proof fn lemma_round_trip(fields: Seq<(Seq<char>, FieldType)>)
    requires
        fields.len() <= u64::MAX,
        forall|i: int| 0 <= i < fields.len() ==> encode_utf8(#[trigger] fields[i].0).len()
            <= u64::MAX,
    ensures
        spec_decode(spec_encode(fields)) == Ok::<_, MetaError>(fields),
{
    lemma_auto_spec_u64_to_from_le_bytes();
    let bytes = spec_encode(fields);
    assert(bytes.take(8) =~= spec_u64_to_le_bytes(fields.len() as u64));
    assert(bytes.skip(8) =~= spec_encode_fields(fields));
    assert(spec_encode_fields(fields) + Seq::<u8>::empty() =~= spec_encode_fields(fields));
    lemma_decode_encode_fields(fields, Seq::<u8>::empty());
}

} // verus!
