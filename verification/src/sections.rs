//! The layout of a whole file: the magic, the total size, and the sections
//! that hold the chunks.
use vstd::prelude::*;
use vstd::bytes::{lemma_auto_spec_u32_to_from_le_bytes, spec_u32_from_le_bytes, u32_to_le_bytes};
use crate::chunk::{
    Chunk, ChunkModel, chunk_data, chunk_tag, chunk_wf, chunk_writable, decode_chunk,
    lemma_chunk_roundtrip, read_chunk,
};
use crate::error::{Failure, FailureAt, ReadError, SchemaError};
use crate::wire::{Wire, is_at, lemma_at_concat};

verus! {

/// The four bytes a file starts with: `FORM`.
pub open spec fn magic() -> Seq<u8> {
    seq![0x46u8, 0x4fu8, 0x52u8, 0x4du8]
}

/// The little-endian `u32` at offset `pos`.
pub open spec fn u32_at(s: Seq<u8>, pos: int) -> u32 {
    spec_u32_from_le_bytes(s.subrange(pos, pos + 4))
}

/// A section: its type code and its bytes.
pub struct SectionModel {
    pub type_code: u32,
    pub body: Seq<u8>,
}

/// The sections from offset `pos` to the end of `s`. A section is a `u32` type
/// code, a `u32` length and that many bytes; fewer than eight bytes left over
/// (such as the size that a written file ends with) hold no section and are
/// passed over.
pub open spec fn sections_from(s: Seq<u8>, pos: int) -> Result<Seq<SectionModel>, ReadError>
    decreases s.len() - pos,
{
    if pos < 0 || s.len() - pos < 8 {
        Ok(Seq::empty())
    } else {
        let length = u32_at(s, pos + 4);
        if length > s.len() - (pos + 8) {
            Err(ReadError::ItemTooLong(length as usize))
        } else {
            match sections_from(s, pos + 8 + length) {
                Ok(rest) => Ok(
                    seq![
                        SectionModel {
                            type_code: u32_at(s, pos),
                            body: s.subrange(pos + 8, pos + 8 + length),
                        },
                    ] + rest,
                ),
                Err(e) => Err(e),
            }
        }
    }
}

/// The sections of a file: after the magic and the total size, which is not
/// checked, the sections up to the end.
pub open spec fn parse_sections(s: Seq<u8>) -> Result<Seq<SectionModel>, ReadError> {
    if s.len() < 4 {
        Err(ReadError::UnexpectedEof)
    } else if s.subrange(0, 4) != magic() {
        Err(ReadError::Schema(SchemaError::NoMagic))
    } else if s.len() < 8 {
        Err(ReadError::UnexpectedEof)
    } else {
        sections_from(s, 8)
    }
}

/// A section of a file, not yet read as a chunk.
pub struct UnparsedSection<'a> {
    pub type_code: u32,
    pub length: usize,
    pub bytes: &'a [u8],
}

impl<'a> UnparsedSection<'a> {
    pub open spec fn model(&self) -> SectionModel {
        SectionModel { type_code: self.type_code, body: self.bytes@ }
    }

    /// Reads the section's bytes as a chunk of the section's type, and says how
    /// many of them the chunk took, or, where reading fails, why and how far
    /// it got.
    pub fn try_into_chunk(&self) -> (r: Result<(Chunk, usize), Failure>)
        ensures
            match r {
                Ok((c, p)) => decode_chunk(self.type_code, self.bytes@) == Ok::<
                    (ChunkModel, int),
                    FailureAt,
                >((c.model(), p as int)),
                Err(e) => decode_chunk(self.type_code, self.bytes@) == Err::<
                    (ChunkModel, int),
                    FailureAt,
                >((e.0, e.1 as int)),
            },
    {
        read_chunk(self.type_code, self.bytes)
    }
}

pub open spec fn section_models<'a>(v: Seq<UnparsedSection<'a>>) -> Seq<SectionModel> {
    v.map_values(|x: UnparsedSection<'a>| x.model())
}

/// The sections before `rest`, where `rest` is not an error.
pub open spec fn prepend(pre: Seq<SectionModel>, rest: Result<Seq<SectionModel>, ReadError>) -> Result<
    Seq<SectionModel>,
    ReadError,
> {
    match rest {
        Ok(r) => Ok(pre + r),
        Err(e) => Err(e),
    }
}

/// Splits a file into its sections.
pub fn split_to_sections<'a>(src: &'a [u8]) -> (r: Result<Vec<UnparsedSection<'a>>, ReadError>)
    ensures
        match r {
            Ok(v) => {
                &&& parse_sections(src@) == Ok::<Seq<SectionModel>, ReadError>(section_models(v@))
                &&& forall|i: int| 0 <= i < v@.len() ==> (#[trigger] v@[i]).length == v@[i].bytes@.len()
            },
            Err(e) => parse_sections(src@) == Err::<Seq<SectionModel>, ReadError>(e),
        },
{
    if src.len() < 4 {
        return Err(ReadError::UnexpectedEof);
    }
    assert(src@.subrange(0, 4)[0] == src@[0]);
    assert(src@.subrange(0, 4)[1] == src@[1]);
    assert(src@.subrange(0, 4)[2] == src@[2]);
    assert(src@.subrange(0, 4)[3] == src@[3]);
    if !(src[0] == 0x46u8 && src[1] == 0x4fu8 && src[2] == 0x52u8 && src[3] == 0x4du8) {
        return Err(ReadError::Schema(SchemaError::NoMagic));
    }
    assert(src@.subrange(0, 4) =~= magic());
    if src.len() < 8 {
        return Err(ReadError::UnexpectedEof);
    }
    let mut out: Vec<UnparsedSection<'a>> = Vec::new();
    let mut pos: usize = 8;
    assert(section_models(out@) =~= Seq::<SectionModel>::empty());
    assert(prepend(section_models(out@), sections_from(src@, 8)) =~= sections_from(src@, 8)) by {
        if let Ok(r) = sections_from(src@, 8) {
            assert(Seq::<SectionModel>::empty() + r =~= r);
        }
    }
    while src.len() - pos >= 8
        invariant
            8 <= pos <= src@.len(),
            parse_sections(src@) == prepend(section_models(out@), sections_from(src@, pos as int)),
            forall|i: int| 0 <= i < out@.len() ==> (#[trigger] out@[i]).length == out@[i].bytes@.len(),
        decreases src@.len() - pos,
    {
        let (type_code, p): (u32, usize) = match u32::read(src, pos) {
            Ok(x) => x,
            Err((e, _)) => {
                return Err(e);
            },
        };
        let (length32, p): (u32, usize) = match u32::read(src, p) {
            Ok(x) => x,
            Err((e, _)) => {
                return Err(e);
            },
        };
        let length: usize = length32 as usize;
        if length > src.len() - p {
            return Err(ReadError::ItemTooLong(length));
        }
        let bytes = vstd::slice::slice_subrange(src, p, p + length);
        let ghost before = section_models(out@);
        let ghost next = sections_from(src@, (p + length) as int);
        let section = UnparsedSection { type_code, length, bytes };
        let ghost sm = section.model();
        out.push(section);
        assert(section_models(out@) =~= before.push(sm));
        proof {
            if let Ok(rest) = next {
                assert(before.push(sm) + rest =~= before + (seq![sm] + rest));
            }
        }
        pos = p + length;
    }
    assert(section_models(out@) + Seq::<SectionModel>::empty() =~= section_models(out@));
    Ok(out)
}

/// `std::io::Error`, which `chunks_to_bytes` can return in its signature.
#[verifier::external_type_specification]
#[verifier::external_body]
pub struct ExIoError(std::io::Error);

/// A chunk's section: its type code, its length and its data.
pub open spec fn frame(m: ChunkModel) -> Seq<u8> {
    u32::encode(chunk_tag(m).code()) + (u32::encode(chunk_data(m).len() as u32) + chunk_data(m))
}

/// The chunks' sections one after the other.
pub open spec fn frames(cs: Seq<ChunkModel>) -> Seq<u8>
    decreases cs.len(),
{
    if cs.len() == 0 {
        Seq::empty()
    } else {
        frames(cs.drop_last()) + frame(cs.last())
    }
}

/// The file that holds the chunks: the magic, the total size, the sections,
/// and the total size again. The total size counts all but its last copy.
pub open spec fn file_bytes(cs: Seq<ChunkModel>) -> Seq<u8> {
    let total = (8 + frames(cs).len()) as u32;
    magic() + u32::encode(total) + frames(cs) + u32::encode(total)
}

pub open spec fn chunk_models(cs: Seq<Chunk>) -> Seq<ChunkModel> {
    cs.map_values(|c: Chunk| c.model())
}

pub proof fn lemma_frames_prefix(cs: Seq<ChunkModel>, k: int)
    requires
        0 <= k <= cs.len(),
    ensures
        frames(cs.take(k)).len() <= frames(cs).len(),
    decreases cs.len(),
{
    if k < cs.len() {
        let init = cs.drop_last();
        assert(init.take(k) =~= cs.take(k));
        lemma_frames_prefix(init, k);
    } else {
        assert(cs.take(k) =~= cs);
    }
}

/// Puts the four bytes of `value` at offset `at` in place of what stood there.
fn patch_u32(buf: &mut Vec<u8>, at: usize, value: u32)
    requires
        at + 4 <= old(buf)@.len(),
    ensures
        final(buf)@ == old(buf)@.subrange(0, at as int) + u32::encode(value) + old(buf)@.subrange(
            at + 4,
            old(buf)@.len() as int,
        ),
{
    proof {
        lemma_auto_spec_u32_to_from_le_bytes();
        vstd::std_specs::vec::axiom_spec_len(buf);
    }
    let (a1, a2, a3): (usize, usize, usize) = (at + 1, at + 2, at + 3);
    let bytes = u32_to_le_bytes(value);
    let ghost before = buf@;
    buf[at] = bytes[0];
    buf[a1] = bytes[1];
    buf[a2] = bytes[2];
    buf[a3] = bytes[3];
    assert(buf@ =~= before.subrange(0, at as int) + u32::encode(value) + before.subrange(
        at + 4,
        before.len() as int,
    ));
}

/// Writes the chunks as a file. Each section's length, and the total size, are
/// filled in once the data they count has been written.
pub fn chunks_to_bytes(chunks: &[Chunk]) -> (r: std::io::Result<Vec<u8>>)
    requires
        forall|i: int| 0 <= i < chunks@.len() ==> chunk_writable(#[trigger] chunks@[i].model()),
        8 + frames(chunk_models(chunks@)).len() <= u32::MAX,
    ensures
        r matches Ok(v) && v@ == file_bytes(chunk_models(chunks@)),
{
    proof {
        lemma_auto_spec_u32_to_from_le_bytes();
    }
    let ghost cs = chunk_models(chunks@);
    let mut buf: Vec<u8> = Vec::with_capacity(8 * 1024 * 1024);
    buf.push(0x46u8);
    buf.push(0x4fu8);
    buf.push(0x52u8);
    buf.push(0x4du8);
    0xffff_ffffu32.write(&mut buf);
    assert(cs.take(0) =~= Seq::<ChunkModel>::empty());
    assert(buf@ =~= magic() + u32::encode(0xffff_ffffu32) + frames(cs.take(0)));
    let mut i: usize = 0;
    while i < chunks.len()
        invariant
            i <= chunks@.len(),
            cs == chunk_models(chunks@),
            forall|j: int| 0 <= j < chunks@.len() ==> chunk_writable(#[trigger] chunks@[j].model()),
            8 + frames(cs).len() <= u32::MAX,
            buf@ == magic() + u32::encode(0xffff_ffffu32) + frames(cs.take(i as int)),
        decreases chunks@.len() - i,
    {
        proof {
            lemma_auto_spec_u32_to_from_le_bytes();
        }
        let ghost prefix = buf@;
        let chunk = &chunks[i];
        chunk.tag().to_u32().write(&mut buf);
        let len_pos: usize = buf.len();
        0xffff_ffffu32.write(&mut buf);
        let start_pos: usize = buf.len();
        chunk.write_data(&mut buf);
        proof {
            let next = cs.take(i + 1);
            assert(next.drop_last() =~= cs.take(i as int));
            assert(next.last() == cs[i as int]);
            lemma_frames_prefix(cs, i + 1);
        }
        let length: u32 = (buf.len() - start_pos) as u32;
        patch_u32(&mut buf, len_pos, length);
        let ghost m = cs[i as int];
        assert(buf@ =~= prefix + frame(m));
        i = i + 1;
    }
    assert(cs.take(i as int) =~= cs);
    let len: u32 = buf.len() as u32;
    len.write(&mut buf);
    patch_u32(&mut buf, 4, len);
    assert(buf@ =~= file_bytes(cs));
    Ok(buf)
}

/// The sections that a file holding the chunks should have: one per chunk,
/// with the chunk's type code and data.
pub open spec fn expected_sections(cs: Seq<ChunkModel>) -> Seq<SectionModel> {
    cs.map_values(|m: ChunkModel| SectionModel { type_code: chunk_tag(m).code(), body: chunk_data(m) })
}

/// The sections of a run of chunks, seen from the first chunk.
pub proof fn lemma_frames_first(cs: Seq<ChunkModel>)
    requires
        cs.len() > 0,
    ensures
        frames(cs) == frame(cs[0]) + frames(cs.drop_first()),
    decreases cs.len(),
{
    if cs.len() == 1 {
        assert(cs.drop_last() =~= Seq::<ChunkModel>::empty());
        assert(cs.drop_first() =~= Seq::<ChunkModel>::empty());
        assert(frames(cs) =~= frame(cs[0]) + frames(cs.drop_first()));
    } else {
        let init = cs.drop_last();
        lemma_frames_first(init);
        assert(init.drop_first() =~= cs.drop_first().drop_last());
        assert(cs.drop_first().last() == cs.last());
        assert(frames(cs) =~= frame(cs[0]) + frames(cs.drop_first()));
    }
}

/// Where the chunks' sections stand at `pos`, followed by fewer than eight bytes, reading sections from `pos` finds exactly the chunks' sections.
pub proof fn lemma_sections_of_frames(cs: Seq<ChunkModel>, s: Seq<u8>, pos: int)
    requires
        is_at(s, pos, frames(cs)),
        frames(cs).len() <= u32::MAX,
        pos + frames(cs).len() <= s.len() < pos + frames(cs).len() + 8,
    ensures
        sections_from(s, pos) == Ok::<Seq<SectionModel>, ReadError>(expected_sections(cs)),
    decreases cs.len(),
{
    if cs.len() == 0 {
        assert(expected_sections(cs) =~= Seq::<SectionModel>::empty());
    } else {
        lemma_auto_spec_u32_to_from_le_bytes();
        let m = cs[0];
        let rest = cs.drop_first();
        lemma_frames_first(cs);
        let data = chunk_data(m);
        let e_code = u32::encode(chunk_tag(m).code());
        let e_len = u32::encode(data.len() as u32);
        lemma_at_concat(s, pos, frame(m), frames(rest));
        lemma_at_concat(s, pos, e_code, e_len + data);
        lemma_at_concat(s, pos + 4, e_len, data);
        assert(u32_at(s, pos) == chunk_tag(m).code());
        assert(u32_at(s, pos + 4) == data.len());
        lemma_sections_of_frames(rest, s, pos + 8 + data.len());
        assert(expected_sections(cs) =~= seq![
            SectionModel { type_code: chunk_tag(m).code(), body: data },
        ] + expected_sections(rest));
    }
}

/// Reading back a file written from some chunks finds one section per chunk,
/// in order, each with its chunk's type code and data; and reading each
/// section as a chunk gives back that chunk and takes the whole section.
pub proof fn lemma_file_roundtrip(cs: Seq<ChunkModel>)
    requires
        forall|i: int| 0 <= i < cs.len() ==> chunk_wf(#[trigger] cs[i]),
        8 + frames(cs).len() <= u32::MAX,
    ensures
        parse_sections(file_bytes(cs)) == Ok::<Seq<SectionModel>, ReadError>(expected_sections(cs)),
        forall|i: int|
            0 <= i < cs.len() ==> decode_chunk(chunk_tag(#[trigger] cs[i]).code(), chunk_data(cs[i]))
                == Ok::<(ChunkModel, int), FailureAt>((cs[i], chunk_data(cs[i]).len() as int)),
{
    lemma_auto_spec_u32_to_from_le_bytes();
    let total = (8 + frames(cs).len()) as u32;
    let head = magic() + u32::encode(total);
    let file = file_bytes(cs);
    assert(file.subrange(0, file.len() as int) =~= file);
    assert(is_at(file, 0, (head + frames(cs)) + u32::encode(total)));
    lemma_at_concat(file, 0, head + frames(cs), u32::encode(total));
    lemma_at_concat(file, 0, head, frames(cs));
    lemma_at_concat(file, 0, magic(), u32::encode(total));
    lemma_sections_of_frames(cs, file, 8);
    assert forall|i: int| 0 <= i < cs.len() implies decode_chunk(
        chunk_tag(#[trigger] cs[i]).code(),
        chunk_data(cs[i]),
    ) == Ok::<(ChunkModel, int), FailureAt>((cs[i], chunk_data(cs[i]).len() as int)) by {
        lemma_chunk_roundtrip(cs[i]);
    }
}

/// A written file's size field, at offset four, counts every byte of the file
/// but the trailing copy of itself, and that trailing copy holds the same value.
pub proof fn lemma_file_total(cs: Seq<ChunkModel>)
    requires
        8 + frames(cs).len() <= u32::MAX,
    ensures
        u32_at(file_bytes(cs), 4) == file_bytes(cs).len() - 4,
        u32_at(file_bytes(cs), file_bytes(cs).len() - 4) == file_bytes(cs).len() - 4,
{
    lemma_auto_spec_u32_to_from_le_bytes();
    let total = (8 + frames(cs).len()) as u32;
    let file = file_bytes(cs);
    assert(file.subrange(4, 8) =~= u32::encode(total));
    assert(file.subrange(file.len() - 4, file.len() as int) =~= u32::encode(total));
}

/// A file that reads starts with the bytes `F`, `O`, `R`, `M`; its first
/// section's type code is the little-endian `u32` at offset 8, its length the
/// one at offset 12, and its body the bytes from offset 16 on, that many.
pub proof fn lemma_section_header(s: Seq<u8>)
    ensures
        parse_sections(s) is Ok ==> {
            &&& s.len() >= 8
            &&& s[0] == 0x46u8
            &&& s[1] == 0x4fu8
            &&& s[2] == 0x52u8
            &&& s[3] == 0x4du8
        },
        parse_sections(s) matches Ok(secs) ==> (secs.len() > 0 ==> {
            let length = spec_u32_from_le_bytes(s.subrange(12, 16));
            &&& s.len() >= 16 + length
            &&& secs[0].type_code == spec_u32_from_le_bytes(s.subrange(8, 12))
            &&& secs[0].body == s.subrange(16, 16 + length)
        }),
{
    if parse_sections(s) is Ok {
        assert(s.subrange(0, 4) == magic());
        assert(s[0] == s.subrange(0, 4)[0]);
        assert(s[1] == s.subrange(0, 4)[1]);
        assert(s[2] == s.subrange(0, 4)[2]);
        assert(s[3] == s.subrange(0, 4)[3]);
    }
}

/// A written file holding at least one chunk: the bytes `F`, `O`, `R`, `M`,
/// the total size, then the first chunk's type code at offset 8, its data's
/// length at offset 12, and its data from offset 16 on.
pub proof fn lemma_file_layout(cs: Seq<ChunkModel>)
    requires
        cs.len() > 0,
    ensures
        ({
            let file = file_bytes(cs);
            let data = chunk_data(cs[0]);
            &&& file.subrange(0, 4) == seq![0x46u8, 0x4fu8, 0x52u8, 0x4du8]
            &&& file.subrange(8, 12) == u32::encode(chunk_tag(cs[0]).code())
            &&& file.subrange(12, 16) == u32::encode(data.len() as u32)
            &&& file.subrange(16, 16 + data.len() as int) == data
        }),
{
    lemma_auto_spec_u32_to_from_le_bytes();
    let total = (8 + frames(cs).len()) as u32;
    let file = file_bytes(cs);
    let m = cs[0];
    let data = chunk_data(m);
    let e_code = u32::encode(chunk_tag(m).code());
    let e_len = u32::encode(data.len() as u32);
    lemma_frames_first(cs);
    assert(file.subrange(0, file.len() as int) =~= file);
    assert(is_at(file, 0, ((magic() + u32::encode(total)) + frames(cs)) + u32::encode(total)));
    lemma_at_concat(file, 0, (magic() + u32::encode(total)) + frames(cs), u32::encode(total));
    lemma_at_concat(file, 0, magic() + u32::encode(total), frames(cs));
    lemma_at_concat(file, 0, magic(), u32::encode(total));
    lemma_at_concat(file, 8, frame(m), frames(cs.drop_first()));
    lemma_at_concat(file, 8, e_code, e_len + data);
    lemma_at_concat(file, 12, e_len, data);
}

/// The sum of the lengths of the first `i` sections.
pub open spec fn lengths_before(secs: Seq<SectionModel>, i: int) -> int
    decreases i,
{
    if i <= 0 {
        0
    } else {
        lengths_before(secs, i - 1) + secs[i - 1].body.len()
    }
}

proof fn lemma_lengths_monotone(secs: Seq<SectionModel>, i: int, j: int)
    requires
        0 <= i <= j,
    ensures
        lengths_before(secs, i) <= lengths_before(secs, j),
    decreases j,
{
    if i < j {
        lemma_lengths_monotone(secs, i, j - 1);
    }
}

proof fn lemma_lengths_first(x: SectionModel, rest: Seq<SectionModel>, k: int)
    requires
        0 <= k <= rest.len(),
    ensures
        lengths_before(seq![x] + rest, k + 1) == x.body.len() + lengths_before(rest, k),
    decreases k,
{
    let whole = seq![x] + rest;
    assert(lengths_before(whole, k + 1) == lengths_before(whole, k) + whole[k].body.len());
    if k > 0 {
        lemma_lengths_first(x, rest, k - 1);
        assert(whole[k] == rest[k - 1]);
        assert(lengths_before(rest, k) == lengths_before(rest, k - 1) + rest[k - 1].body.len());
    } else {
        assert(whole[0] == x);
        assert(lengths_before(whole, 0) == 0);
        assert(lengths_before(rest, 0) == 0);
    }
}

/// The sections found from `pos` hold no more bytes than are left.
proof fn lemma_sections_fit(s: Seq<u8>, pos: int)
    requires
        0 <= pos,
    ensures
        sections_from(s, pos) matches Ok(secs) ==> pos + lengths_before(secs, secs.len() as int)
            <= s.len() || secs.len() == 0,
    decreases s.len() - pos,
{
    if !(pos < 0 || s.len() - pos < 8) {
        let length = u32_at(s, pos + 4);
        if length <= s.len() - (pos + 8) {
            lemma_sections_fit(s, pos + 8 + length);
            if let Ok(rest) = sections_from(s, pos + 8 + length) {
                let x = SectionModel {
                    type_code: u32_at(s, pos),
                    body: s.subrange(pos + 8, pos + 8 + length),
                };
                lemma_lengths_first(x, rest, rest.len() as int);
                assert((seq![x] + rest).len() == rest.len() + 1);
            }
        }
    }
}

/// What a report says of reading a section as a chunk.
pub open spec fn chunk_outcome(r: Result<(Chunk, usize), Failure>) -> Result<(ChunkModel, int), FailureAt> {
    match r {
        Ok((c, p)) => Ok((c.model(), p as int)),
        Err((e, p)) => Err((e, p as int)),
    }
}

/// One line of a listing of a file's sections.
pub struct SectionReport<'a> {
    /// Eight plus the lengths of the sections before this one; the headers of
    /// those sections are not counted.
    pub offset: usize,
    pub section: UnparsedSection<'a>,
    /// The section read as a chunk, with the number of bytes the chunk took;
    /// or why reading failed and how far into the section it got.
    pub chunk: Result<(Chunk, usize), Failure>,
}

/// Lists a file's sections: for each, its offset, the section, and what
/// reading it as a chunk gives.
pub fn section_reports<'a>(bytes: &'a [u8]) -> (r: Result<Vec<SectionReport<'a>>, ReadError>)
    ensures
        match r {
            Ok(v) => match parse_sections(bytes@) {
                Ok(secs) => {
                    &&& v@.len() == secs.len()
                    &&& forall|i: int|
                        #![trigger v@[i]]
                        0 <= i < v@.len() ==> {
                            &&& v@[i].section.model() == secs[i]
                            &&& v@[i].section.length == secs[i].body.len()
                            &&& v@[i].offset == 8 + lengths_before(secs, i)
                            &&& chunk_outcome(v@[i].chunk) == decode_chunk(
                                secs[i].type_code,
                                secs[i].body,
                            )
                        }
                    &&& v@.len() > 0 ==> v@[0].offset == 8
                    &&& forall|j: int|
                        1 <= j < v@.len() ==> (#[trigger] v@[j]).offset == v@[j - 1].offset
                            + v@[j - 1].section.length
                },
                Err(_) => false,
            },
            Err(e) => parse_sections(bytes@) == Err::<Seq<SectionModel>, ReadError>(e),
        },
{
    let sections = split_to_sections(bytes)?;
    let ghost secs = section_models(sections@);
    proof {
        lemma_sections_fit(bytes@, 8);
        lemma_lengths_monotone(secs, 0, secs.len() as int);
    }
    let total: usize = bytes.len();
    let mut out: Vec<SectionReport<'a>> = Vec::new();
    let mut offset: usize = 8;
    let n: usize = sections.len();
    let mut i: usize = 0;
    while i < n
        invariant
            i <= n,
            n == sections@.len(),
            secs == section_models(sections@),
            parse_sections(bytes@) == Ok::<Seq<SectionModel>, ReadError>(secs),
            8 + lengths_before(secs, secs.len() as int) <= bytes@.len() || secs.len() == 0,
            bytes@.len() == total,
            forall|k: int| 0 <= k < n ==> (#[trigger] sections@[k]).length == sections@[k].bytes@.len(),
            out@.len() == i,
            offset == 8 + lengths_before(secs, i as int),
            forall|k: int|
                #![trigger out@[k]]
                0 <= k < i ==> {
                    &&& out@[k].section.model() == secs[k]
                    &&& out@[k].section.length == secs[k].body.len()
                    &&& out@[k].offset == 8 + lengths_before(secs, k)
                    &&& chunk_outcome(out@[k].chunk) == decode_chunk(secs[k].type_code, secs[k].body)
                },
        decreases n - i,
    {
        let found = &sections[i];
        let section = UnparsedSection {
            type_code: found.type_code,
            length: found.length,
            bytes: found.bytes,
        };
        let chunk = section.try_into_chunk();
        let length: usize = section.length;
        proof {
            lemma_lengths_monotone(secs, i + 1, secs.len() as int);
            assert(secs[i as int] == sections@[i as int].model());
            assert(lengths_before(secs, i + 1) == lengths_before(secs, i as int) + secs[i as int].body.len());
        }
        let report = SectionReport { offset, section, chunk };
        out.push(report);
        offset = offset + length;
        i = i + 1;
    }
    assert forall|j: int| 1 <= j < out@.len() implies (#[trigger] out@[j]).offset == out@[j - 1].offset
        + out@[j - 1].section.length by {
        assert(lengths_before(secs, j) == lengths_before(secs, j - 1) + secs[j - 1].body.len());
    }
    Ok(out)
}

} // verus!
