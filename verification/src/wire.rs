//! The encoding of the items that chunks are made of: little-endian integers,
//! booleans, length-prefixed UTF-8 strings and count-prefixed lists.
use vstd::prelude::*;
use vstd::bytes::{
    lemma_auto_spec_u32_to_from_le_bytes, lemma_auto_spec_u64_to_from_le_bytes,
    spec_u32_from_le_bytes, spec_u32_to_le_bytes, spec_u64_from_le_bytes, spec_u64_to_le_bytes,
    u32_from_le_bytes, u32_to_le_bytes, u64_from_le_bytes, u64_to_le_bytes,
};
use vstd::utf8::{decode_utf8, encode_utf8, valid_utf8};
use vstd::string::StringSliceAdditionalSpecFns;
use crate::error::{Failure, FailureAt, ReadError};

verus! {

broadcast use vstd::utf8::encode_utf8_valid_utf8, vstd::utf8::encode_utf8_decode_utf8;

/// `bytes` stands in `s` starting at `pos`.
pub open spec fn is_at(s: Seq<u8>, pos: int, bytes: Seq<u8>) -> bool {
    &&& 0 <= pos
    &&& pos + bytes.len() <= s.len()
    &&& s.subrange(pos, pos + bytes.len()) == bytes
}

/// Where two byte strings stand one after the other, each stands in its place.
pub proof fn lemma_at_concat(s: Seq<u8>, pos: int, a: Seq<u8>, b: Seq<u8>)
    requires
        is_at(s, pos, a + b),
    ensures
        is_at(s, pos, a),
        is_at(s, pos + a.len(), b),
{
    let whole = s.subrange(pos, pos + a.len() + b.len());
    assert forall|i: int| 0 <= i < a.len() implies s.subrange(pos, pos + a.len())[i] == a[i] by {
        assert(whole[i] == (a + b)[i]);
    }
    assert(s.subrange(pos, pos + a.len()) =~= a);
    assert forall|i: int| 0 <= i < b.len() implies s.subrange(pos + a.len(), pos + a.len() + b.len())[i]
        == b[i] by {
        assert(whole[a.len() + i] == (a + b)[a.len() + i]);
    }
    assert(s.subrange(pos + a.len(), pos + a.len() + b.len()) =~= b);
}

/// An item of the format: a value with a byte encoding, a reader and a writer.
///
/// `decode(s, pos)` is what reading an item at offset `pos` of `s` gives: the
/// item's meaning and the offset just past it, or why it failed and the offset
/// reading had reached (see `Failure`).
pub trait Wire: Sized {
    /// What a value means, apart from how memory holds it.
    type Model;

    spec fn model(&self) -> Self::Model;

    /// The values that the encoding can hold: every length and count fits in a `u32`.
    spec fn writable(m: Self::Model) -> bool;

    /// The values that reading their encoding gives back: every length and
    /// count fits in a `u32`, and where one part of a value fixes the size of
    /// another (a skin's weights and its mesh's vertices), the two agree.
    spec fn wf(m: Self::Model) -> bool;

    spec fn encode(m: Self::Model) -> Seq<u8>;

    spec fn decode(s: Seq<u8>, pos: int) -> Result<(Self::Model, int), FailureAt>;

    /// A successful read stays inside the input, and what it gives can be written.
    proof fn lemma_decode_ok(s: Seq<u8>, pos: int)
        requires
            0 <= pos <= s.len(),
        ensures
            Self::decode(s, pos) matches Ok((m, p)) ==> {
                &&& pos <= p <= s.len()
                &&& Self::writable(m)
                &&& Self::wf(m)
            },
    ;

    /// A read that succeeds on some bytes gives the same on any longer input
    /// that starts with them.
    proof fn lemma_decode_extend(s: Seq<u8>, t: Seq<u8>, pos: int)
        requires
            0 <= pos <= s.len(),
            s.is_prefix_of(t),
        ensures
            Self::decode(s, pos) is Ok ==> Self::decode(t, pos) == Self::decode(s, pos),
    ;

    /// Reading where a value was written gives back that value.
    proof fn lemma_roundtrip(m: Self::Model, s: Seq<u8>, pos: int)
        requires
            Self::wf(m),
            is_at(s, pos, Self::encode(m)),
        ensures
            Self::decode(s, pos) == Ok::<(Self::Model, int), FailureAt>(
                (m, pos + Self::encode(m).len()),
            ),
    ;

    fn read(s: &[u8], pos: usize) -> (r: Result<(Self, usize), Failure>)
        requires
            pos <= s@.len(),
        ensures
            match r {
                Ok((v, p)) => Self::decode(s@, pos as int) == Ok::<(Self::Model, int), FailureAt>(
                    (v.model(), p as int),
                ),
                Err(e) => Self::decode(s@, pos as int) == Err::<(Self::Model, int), FailureAt>((e.0, e.1 as int)),
            },
    ;

    /// Whether the value can be written.
    fn fits(&self) -> (r: bool)
        ensures
            r == Self::writable(self.model()),
    ;

    fn write(&self, out: &mut Vec<u8>)
        requires
            Self::writable(self.model()),
        ensures
            final(out)@ == old(out)@ + Self::encode(self.model()),
    ;
}

/// Below the end of `s`, an input that starts with `s` holds the same bytes.
pub proof fn lemma_prefix_subrange(s: Seq<u8>, t: Seq<u8>, a: int, b: int)
    requires
        s.is_prefix_of(t),
        0 <= a <= b <= s.len(),
    ensures
        t.subrange(a, b) == s.subrange(a, b),
{
    assert forall|i: int| 0 <= i < b - a implies t.subrange(a, b)[i] == s.subrange(a, b)[i] by {
        assert(s[a + i] == t.subrange(0, s.len() as int)[a + i]);
    }
    assert(t.subrange(a, b) =~= s.subrange(a, b));
}

/// A strict prefix of a value's encoding never reads as a value of the type.
pub proof fn lemma_strict_prefix_fails<T: Wire>(m: T::Model, k: int)
    requires
        T::wf(m),
        0 <= k < T::encode(m).len(),
    ensures
        T::decode(T::encode(m).take(k), 0) is Err,
{
    let e = T::encode(m);
    let t = e.take(k);
    assert(e.subrange(0, e.len() as int) =~= e);
    T::lemma_roundtrip(m, e, 0);
    assert(t.is_prefix_of(e)) by {
        assert(t =~= e.subrange(0, t.len() as int));
    }
    T::lemma_decode_ok(t, 0);
    T::lemma_decode_extend(t, e, 0);
}

/// Joining byte strings does not depend on how they are grouped.
pub proof fn lemma_concat_assoc(a: Seq<u8>, b: Seq<u8>, c: Seq<u8>)
    ensures
        a + (b + c) == (a + b) + c,
{
    assert(a + (b + c) =~= (a + b) + c);
}

/// The meanings of a run of values.
pub open spec fn models<T: Wire>(v: Seq<T>) -> Seq<T::Model> {
    v.map_values(|x: T| x.model())
}

// ---------------------------------------------------------------- integers

impl Wire for u8 {
    type Model = u8;

    open spec fn model(&self) -> u8 {
        *self
    }

    open spec fn writable(m: u8) -> bool {
        true
    }

    open spec fn wf(m: u8) -> bool {
        true
    }

    open spec fn encode(m: u8) -> Seq<u8> {
        seq![m]
    }

    open spec fn decode(s: Seq<u8>, pos: int) -> Result<(u8, int), FailureAt> {
        if 0 <= pos && pos + 1 <= s.len() {
            Ok((s[pos], pos + 1))
        } else {
            Err((ReadError::UnexpectedEof, pos))
        }
    }

    proof fn lemma_decode_ok(s: Seq<u8>, pos: int) {
    }

    proof fn lemma_decode_extend(s: Seq<u8>, t: Seq<u8>, pos: int) {
        if 0 <= pos && pos + 1 <= s.len() {
            lemma_prefix_subrange(s, t, pos, pos + 1);
            assert(s[pos] == s.subrange(pos, pos + 1)[0]);
            assert(t[pos] == t.subrange(pos, pos + 1)[0]);
        }
    }

    proof fn lemma_roundtrip(m: u8, s: Seq<u8>, pos: int) {
        assert(s.subrange(pos, pos + 1)[0] == s[pos]);
    }

    fn read(s: &[u8], pos: usize) -> (r: Result<(u8, usize), Failure>) {
        if pos < s.len() {
            Ok((s[pos], pos + 1))
        } else {
            Err((ReadError::UnexpectedEof, pos))
        }
    }

    fn fits(&self) -> (r: bool) {
        true
    }

    fn write(&self, out: &mut Vec<u8>) {
        out.push(*self);
    }
}

impl Wire for u32 {
    type Model = u32;

    open spec fn model(&self) -> u32 {
        *self
    }

    open spec fn writable(m: u32) -> bool {
        true
    }

    open spec fn wf(m: u32) -> bool {
        true
    }

    open spec fn encode(m: u32) -> Seq<u8> {
        spec_u32_to_le_bytes(m)
    }

    open spec fn decode(s: Seq<u8>, pos: int) -> Result<(u32, int), FailureAt> {
        if 0 <= pos && pos + 4 <= s.len() {
            Ok((spec_u32_from_le_bytes(s.subrange(pos, pos + 4)), pos + 4))
        } else {
            Err((ReadError::UnexpectedEof, pos))
        }
    }

    proof fn lemma_decode_ok(s: Seq<u8>, pos: int) {
    }

    proof fn lemma_decode_extend(s: Seq<u8>, t: Seq<u8>, pos: int) {
        if pos + 4 <= s.len() {
            lemma_prefix_subrange(s, t, pos, pos + 4);
        }
    }

    proof fn lemma_roundtrip(m: u32, s: Seq<u8>, pos: int) {
        lemma_auto_spec_u32_to_from_le_bytes();
    }

    fn read(s: &[u8], pos: usize) -> (r: Result<(u32, usize), Failure>) {
        if s.len() - pos >= 4 {
            let bytes = vstd::slice::slice_subrange(s, pos, pos + 4);
            Ok((u32_from_le_bytes(bytes), pos + 4))
        } else {
            Err((ReadError::UnexpectedEof, pos))
        }
    }

    fn fits(&self) -> (r: bool) {
        true
    }

    fn write(&self, out: &mut Vec<u8>) {
        proof {
            lemma_auto_spec_u32_to_from_le_bytes();
        }
        let bytes = u32_to_le_bytes(*self);
        let ghost start = out@;
        out.push(bytes[0]);
        out.push(bytes[1]);
        out.push(bytes[2]);
        out.push(bytes[3]);
        assert(out@ =~= start + spec_u32_to_le_bytes(*self));
    }
}

/// Eight bytes, little-endian. A `f64` of the format is held as its bit pattern.
impl Wire for u64 {
    type Model = u64;

    open spec fn model(&self) -> u64 {
        *self
    }

    open spec fn writable(m: u64) -> bool {
        true
    }

    open spec fn wf(m: u64) -> bool {
        true
    }

    open spec fn encode(m: u64) -> Seq<u8> {
        spec_u64_to_le_bytes(m)
    }

    open spec fn decode(s: Seq<u8>, pos: int) -> Result<(u64, int), FailureAt> {
        if 0 <= pos && pos + 8 <= s.len() {
            Ok((spec_u64_from_le_bytes(s.subrange(pos, pos + 8)), pos + 8))
        } else {
            Err((ReadError::UnexpectedEof, pos))
        }
    }

    proof fn lemma_decode_ok(s: Seq<u8>, pos: int) {
    }

    proof fn lemma_decode_extend(s: Seq<u8>, t: Seq<u8>, pos: int) {
        if pos + 8 <= s.len() {
            lemma_prefix_subrange(s, t, pos, pos + 8);
        }
    }

    proof fn lemma_roundtrip(m: u64, s: Seq<u8>, pos: int) {
        lemma_auto_spec_u64_to_from_le_bytes();
    }

    fn read(s: &[u8], pos: usize) -> (r: Result<(u64, usize), Failure>) {
        if s.len() - pos >= 8 {
            let bytes = vstd::slice::slice_subrange(s, pos, pos + 8);
            Ok((u64_from_le_bytes(bytes), pos + 8))
        } else {
            Err((ReadError::UnexpectedEof, pos))
        }
    }

    fn fits(&self) -> (r: bool) {
        true
    }

    fn write(&self, out: &mut Vec<u8>) {
        proof {
            lemma_auto_spec_u64_to_from_le_bytes();
        }
        let bytes = u64_to_le_bytes(*self);
        let ghost start = out@;
        push_bytes(&bytes, out);
        assert(out@ =~= start + spec_u64_to_le_bytes(*self));
    }
}

/// Appends `bytes` to `out`.
pub fn push_bytes(bytes: &[u8], out: &mut Vec<u8>)
    ensures
        final(out)@ == old(out)@ + bytes@,
{
    let ghost start = out@;
    let mut i: usize = 0;
    while i < bytes.len()
        invariant
            i <= bytes@.len(),
            out@ == start + bytes@.subrange(0, i as int),
        decreases bytes@.len() - i,
    {
        out.push(bytes[i]);
        i = i + 1;
        assert(out@ =~= start + bytes@.subrange(0, i as int));
    }
    assert(bytes@.subrange(0, i as int) =~= bytes@);
}

/// One byte: zero is `false`, anything else `true`; `true` is written as one.
impl Wire for bool {
    type Model = bool;

    open spec fn model(&self) -> bool {
        *self
    }

    open spec fn writable(m: bool) -> bool {
        true
    }

    open spec fn wf(m: bool) -> bool {
        true
    }

    open spec fn encode(m: bool) -> Seq<u8> {
        seq![if m { 1u8 } else { 0u8 }]
    }

    open spec fn decode(s: Seq<u8>, pos: int) -> Result<(bool, int), FailureAt> {
        match u8::decode(s, pos) {
            Ok((b, p)) => Ok((b != 0, p)),
            Err(e) => Err(e),
        }
    }

    proof fn lemma_decode_ok(s: Seq<u8>, pos: int) {
    }

    proof fn lemma_decode_extend(s: Seq<u8>, t: Seq<u8>, pos: int) {
        u8::lemma_decode_extend(s, t, pos);
    }

    proof fn lemma_roundtrip(m: bool, s: Seq<u8>, pos: int) {
        assert(s.subrange(pos, pos + 1)[0] == s[pos]);
    }

    fn read(s: &[u8], pos: usize) -> (r: Result<(bool, usize), Failure>) {
        let (b, p): (u8, usize) = u8::read(s, pos)?;
        Ok((b != 0, p))
    }

    fn fits(&self) -> (r: bool) {
        true
    }

    fn write(&self, out: &mut Vec<u8>) {
        if *self {
            out.push(1u8);
        } else {
            out.push(0u8);
        }
    }
}

// ---------------------------------------------------------------- strings

/// Calls `std::str::from_utf8`: it succeeds exactly on valid UTF-8, and the
/// string it gives is the same bytes read as text.
#[verifier::external_body]
fn str_from_utf8(bytes: &[u8]) -> (r: Option<&str>)
    ensures
        r is Some <==> valid_utf8(bytes@),
        r matches Some(t) ==> t.spec_bytes() == bytes@,
{
    std::str::from_utf8(bytes).ok()
}

/// A `u32` byte count, then that many bytes of UTF-8.
impl Wire for String {
    type Model = Seq<char>;

    open spec fn model(&self) -> Seq<char> {
        self@
    }

    open spec fn writable(m: Seq<char>) -> bool {
        encode_utf8(m).len() <= u32::MAX
    }

    open spec fn wf(m: Seq<char>) -> bool {
        encode_utf8(m).len() <= u32::MAX
    }

    open spec fn encode(m: Seq<char>) -> Seq<u8> {
        u32::encode(encode_utf8(m).len() as u32) + encode_utf8(m)
    }

    open spec fn decode(s: Seq<u8>, pos: int) -> Result<(Seq<char>, int), FailureAt> {
        match u32::decode(s, pos) {
            Ok((n, p)) => if p + n <= s.len() {
                if valid_utf8(s.subrange(p, p + n)) {
                    Ok((decode_utf8(s.subrange(p, p + n)), p + n))
                } else {
                    Err((ReadError::BadUtf8, p + n))
                }
            } else {
                Err((ReadError::UnexpectedEof, p))
            },
            Err(e) => Err(e),
        }
    }

    proof fn lemma_decode_ok(s: Seq<u8>, pos: int) {
        if let Ok((n, p)) = u32::decode(s, pos) {
            let b = s.subrange(p, p + n);
            if p + n <= s.len() && valid_utf8(b) {
                vstd::utf8::decode_utf8_encode_utf8(b);
            }
        }
    }

    proof fn lemma_decode_extend(s: Seq<u8>, t: Seq<u8>, pos: int) {
        u32::lemma_decode_extend(s, t, pos);
        if let Ok((n, p)) = u32::decode(s, pos) {
            if p + n <= s.len() {
                lemma_prefix_subrange(s, t, p, p + n);
            }
        }
    }

    proof fn lemma_roundtrip(m: Seq<char>, s: Seq<u8>, pos: int) {
        let bytes = encode_utf8(m);
        lemma_at_concat(s, pos, u32::encode(bytes.len() as u32), bytes);
        u32::lemma_roundtrip(bytes.len() as u32, s, pos);
        lemma_auto_spec_u32_to_from_le_bytes();
    }

    fn read(s: &[u8], pos: usize) -> (r: Result<(String, usize), Failure>) {
        let (n, p): (u32, usize) = u32::read(s, pos)?;
        if n as usize <= s.len() - p {
            let end: usize = p + n as usize;
            let bytes = vstd::slice::slice_subrange(s, p, end);
            match str_from_utf8(bytes) {
                Some(t) => {
                    proof {
                        vstd::utf8::encode_utf8_decode_utf8(t@);
                    }
                    Ok((t.to_owned(), end))
                },
                None => Err((ReadError::BadUtf8, end)),
            }
        } else {
            Err((ReadError::UnexpectedEof, p))
        }
    }

    fn fits(&self) -> (r: bool) {
        let bytes = self.as_str().as_bytes();
        bytes.len() as u64 <= 0xffff_ffffu64
    }

    fn write(&self, out: &mut Vec<u8>) {
        let bytes = self.as_str().as_bytes();
        let ghost start = out@;
        let n: u32 = bytes.len() as u32;
        n.write(out);
        push_bytes(bytes, out);
        assert(out@ =~= start + String::encode(self@));
    }
}

// ---------------------------------------------------------------- lists

/// Reading `n` values one after the other from offset `pos`.
pub open spec fn decode_items<T: Wire>(s: Seq<u8>, pos: int, n: nat) -> Result<(Seq<T::Model>, int), FailureAt>
    decreases n,
{
    if n == 0 {
        Ok((Seq::empty(), pos))
    } else {
        match decode_items::<T>(s, pos, (n - 1) as nat) {
            Ok((items, p)) => match T::decode(s, p) {
                Ok((m, q)) => Ok((items.push(m), q)),
                Err(e) => Err(e),
            },
            Err(e) => Err(e),
        }
    }
}

/// The values' encodings one after the other.
pub open spec fn encode_items<T: Wire>(ms: Seq<T::Model>) -> Seq<u8>
    decreases ms.len(),
{
    if ms.len() == 0 {
        Seq::empty()
    } else {
        encode_items::<T>(ms.drop_last()) + T::encode(ms.last())
    }
}

pub open spec fn all_writable<T: Wire>(ms: Seq<T::Model>) -> bool {
    forall|i: int| 0 <= i < ms.len() ==> T::writable(#[trigger] ms[i])
}

pub open spec fn all_wf<T: Wire>(ms: Seq<T::Model>) -> bool {
    forall|i: int| 0 <= i < ms.len() ==> T::wf(#[trigger] ms[i])
}

pub proof fn lemma_decode_items_ok<T: Wire>(s: Seq<u8>, pos: int, n: nat)
    requires
        0 <= pos <= s.len(),
    ensures
        decode_items::<T>(s, pos, n) matches Ok((ms, p)) ==> {
            &&& pos <= p <= s.len()
            &&& ms.len() == n
            &&& all_writable::<T>(ms)
            &&& all_wf::<T>(ms)
        },
    decreases n,
{
    if n > 0 {
        lemma_decode_items_ok::<T>(s, pos, (n - 1) as nat);
        if let Ok((items, p)) = decode_items::<T>(s, pos, (n - 1) as nat) {
            T::lemma_decode_ok(s, p);
            if let Ok((m, q)) = T::decode(s, p) {
                assert forall|i: int| 0 <= i < items.push(m).len() implies T::writable(
                    #[trigger] items.push(m)[i],
                ) && T::wf(items.push(m)[i]) by {
                    if i < items.len() {
                        assert(items.push(m)[i] == items[i]);
                    }
                }
            }
        }
    }
}

pub proof fn lemma_decode_items_extend<T: Wire>(s: Seq<u8>, t: Seq<u8>, pos: int, n: nat)
    requires
        0 <= pos <= s.len(),
        s.is_prefix_of(t),
    ensures
        decode_items::<T>(s, pos, n) is Ok ==> decode_items::<T>(t, pos, n) == decode_items::<T>(
            s,
            pos,
            n,
        ),
    decreases n,
{
    if n > 0 {
        lemma_decode_items_extend::<T>(s, t, pos, (n - 1) as nat);
        lemma_decode_items_ok::<T>(s, pos, (n - 1) as nat);
        if let Ok((items, p)) = decode_items::<T>(s, pos, (n - 1) as nat) {
            T::lemma_decode_extend(s, t, p);
        }
    }
}

/// Once reading some values fails, reading more of them fails the same way.
pub proof fn lemma_decode_items_err<T: Wire>(s: Seq<u8>, pos: int, m: nat, n: nat)
    requires
        m <= n,
        decode_items::<T>(s, pos, m) is Err,
    ensures
        decode_items::<T>(s, pos, n) == decode_items::<T>(s, pos, m),
    decreases n - m,
{
    if m < n {
        lemma_decode_items_err::<T>(s, pos, m, (n - 1) as nat);
    }
}

pub proof fn lemma_items_roundtrip<T: Wire>(ms: Seq<T::Model>, s: Seq<u8>, pos: int)
    requires
        all_wf::<T>(ms),
        is_at(s, pos, encode_items::<T>(ms)),
    ensures
        decode_items::<T>(s, pos, ms.len()) == Ok::<(Seq<T::Model>, int), FailureAt>(
            (ms, pos + encode_items::<T>(ms).len()),
        ),
    decreases ms.len(),
{
    if ms.len() > 0 {
        let init = ms.drop_last();
        lemma_at_concat(s, pos, encode_items::<T>(init), T::encode(ms.last()));
        assert(all_wf::<T>(init)) by {
            assert forall|i: int| 0 <= i < init.len() implies T::wf(#[trigger] init[i]) by {
                assert(init[i] == ms[i]);
            }
        }
        assert(T::wf(ms[ms.len() - 1]));
        lemma_items_roundtrip::<T>(init, s, pos);
        T::lemma_roundtrip(ms.last(), s, pos + encode_items::<T>(init).len());
        assert(init.push(ms.last()) =~= ms);
    } else {
        assert(ms =~= Seq::<T::Model>::empty());
    }
}

/// Reads `n` values one after the other from offset `pos`.
pub fn read_items<T: Wire>(s: &[u8], pos: usize, n: usize) -> (r: Result<(Vec<T>, usize), Failure>)
    requires
        pos <= s@.len(),
    ensures
        match r {
            Ok((v, p)) => decode_items::<T>(s@, pos as int, n as nat) == Ok::<
                (Seq<T::Model>, int),
                FailureAt,
            >((models(v@), p as int)),
            Err(e) => decode_items::<T>(s@, pos as int, n as nat) == Err::<
                (Seq<T::Model>, int),
                FailureAt,
            >((e.0, e.1 as int)),
        },
{
    let mut items: Vec<T> = Vec::new();
    let mut p: usize = pos;
    let mut i: usize = 0;
    assert(models(items@) =~= Seq::<T::Model>::empty());
    while i < n
        invariant
            pos <= p <= s@.len(),
            i <= n,
            decode_items::<T>(s@, pos as int, i as nat) == Ok::<(Seq<T::Model>, int), FailureAt>(
                (models(items@), p as int),
            ),
        decreases n - i,
    {
        match T::read(s, p) {
            Ok((x, q)) => {
                proof {
                    T::lemma_decode_ok(s@, p as int);
                }
                let ghost before = items@;
                let ghost xm = x.model();
                items.push(x);
                assert(models(items@) =~= models(before).push(xm));
                p = q;
                i = i + 1;
            },
            Err(e) => {
                proof {
                    lemma_decode_items_err::<T>(s@, pos as int, (i + 1) as nat, n as nat);
                }
                return Err(e);
            },
        }
    }
    Ok((items, p))
}

/// Writes each value in turn.
pub fn write_items<T: Wire>(items: &[T], out: &mut Vec<u8>)
    requires
        all_writable::<T>(models(items@)),
    ensures
        final(out)@ == old(out)@ + encode_items::<T>(models(items@)),
{
    let ghost start = out@;
    let mut i: usize = 0;
    assert(models(items@.take(0)) =~= Seq::<T::Model>::empty());
    assert(out@ =~= start + encode_items::<T>(models(items@.take(0))));
    while i < items.len()
        invariant
            i <= items@.len(),
            all_writable::<T>(models(items@)),
            out@ == start + encode_items::<T>(models(items@.take(i as int))),
        decreases items@.len() - i,
    {
        assert(T::writable(models(items@)[i as int]));
        items[i].write(out);
        let ghost next = models(items@.take(i + 1));
        assert(next.drop_last() =~= models(items@.take(i as int)));
        assert(next.last() == items@[i as int].model());
        i = i + 1;
        assert(out@ =~= start + encode_items::<T>(models(items@.take(i as int))));
    }
    assert(items@.take(i as int) =~= items@);
}

/// A `u32` count, then that many values.
impl<T: Wire> Wire for Vec<T> {
    type Model = Seq<T::Model>;

    open spec fn model(&self) -> Seq<T::Model> {
        models(self@)
    }

    open spec fn writable(ms: Seq<T::Model>) -> bool {
        ms.len() <= u32::MAX && all_writable::<T>(ms)
    }

    open spec fn wf(ms: Seq<T::Model>) -> bool {
        ms.len() <= u32::MAX && all_wf::<T>(ms)
    }

    open spec fn encode(ms: Seq<T::Model>) -> Seq<u8> {
        u32::encode(ms.len() as u32) + encode_items::<T>(ms)
    }

    open spec fn decode(s: Seq<u8>, pos: int) -> Result<(Seq<T::Model>, int), FailureAt> {
        match u32::decode(s, pos) {
            Ok((n, p)) => decode_items::<T>(s, p, n as nat),
            Err(e) => Err(e),
        }
    }

    proof fn lemma_decode_ok(s: Seq<u8>, pos: int) {
        if let Ok((n, p)) = u32::decode(s, pos) {
            lemma_decode_items_ok::<T>(s, p, n as nat);
        }
    }

    proof fn lemma_decode_extend(s: Seq<u8>, t: Seq<u8>, pos: int) {
        u32::lemma_decode_extend(s, t, pos);
        if let Ok((n, p)) = u32::decode(s, pos) {
            lemma_decode_items_extend::<T>(s, t, p, n as nat);
        }
    }

    proof fn lemma_roundtrip(ms: Seq<T::Model>, s: Seq<u8>, pos: int) {
        lemma_at_concat(s, pos, u32::encode(ms.len() as u32), encode_items::<T>(ms));
        u32::lemma_roundtrip(ms.len() as u32, s, pos);
        lemma_auto_spec_u32_to_from_le_bytes();
        lemma_items_roundtrip::<T>(ms, s, pos + 4);
    }

    fn read(s: &[u8], pos: usize) -> (r: Result<(Vec<T>, usize), Failure>) {
        let (n, p): (u32, usize) = u32::read(s, pos)?;
        read_items::<T>(s, p, n as usize)
    }

    fn fits(&self) -> (r: bool) {
        if self.len() as u64 > 0xffff_ffffu64 {
            return false;
        }
        let mut i: usize = 0;
        while i < self.len()
            invariant
                i <= self@.len(),
                forall|j: int| 0 <= j < i ==> T::writable(#[trigger] models(self@)[j]),
            decreases self@.len() - i,
        {
            if !self[i].fits() {
                assert(!T::writable(models(self@)[i as int]));
                return false;
            }
            i = i + 1;
        }
        true
    }

    fn write(&self, out: &mut Vec<u8>) {
        let ghost start = out@;
        let n: u32 = self.len() as u32;
        n.write(out);
        write_items(self.as_slice(), out);
        assert(out@ =~= start + Self::encode(self.model()));
    }
}

// ---------------------------------------------------------------- sequences of fields

/// One value, then the other.
impl<A: Wire, B: Wire> Wire for (A, B) {
    type Model = (A::Model, B::Model);

    open spec fn model(&self) -> (A::Model, B::Model) {
        (self.0.model(), self.1.model())
    }

    open spec fn writable(m: (A::Model, B::Model)) -> bool {
        A::writable(m.0) && B::writable(m.1)
    }

    open spec fn wf(m: (A::Model, B::Model)) -> bool {
        A::wf(m.0) && B::wf(m.1)
    }

    open spec fn encode(m: (A::Model, B::Model)) -> Seq<u8> {
        A::encode(m.0) + B::encode(m.1)
    }

    open spec fn decode(s: Seq<u8>, pos: int) -> Result<((A::Model, B::Model), int), FailureAt> {
        match A::decode(s, pos) {
            Ok((a, p)) => match B::decode(s, p) {
                Ok((b, q)) => Ok(((a, b), q)),
                Err(e) => Err(e),
            },
            Err(e) => Err(e),
        }
    }

    proof fn lemma_decode_ok(s: Seq<u8>, pos: int) {
        A::lemma_decode_ok(s, pos);
        if let Ok((a, p)) = A::decode(s, pos) {
            B::lemma_decode_ok(s, p);
        }
    }

    proof fn lemma_decode_extend(s: Seq<u8>, t: Seq<u8>, pos: int) {
        A::lemma_decode_extend(s, t, pos);
        A::lemma_decode_ok(s, pos);
        if let Ok((a, p)) = A::decode(s, pos) {
            B::lemma_decode_extend(s, t, p);
        }
    }

    proof fn lemma_roundtrip(m: (A::Model, B::Model), s: Seq<u8>, pos: int) {
        lemma_at_concat(s, pos, A::encode(m.0), B::encode(m.1));
        A::lemma_roundtrip(m.0, s, pos);
        B::lemma_roundtrip(m.1, s, pos + A::encode(m.0).len());
    }

    fn read(s: &[u8], pos: usize) -> (r: Result<((A, B), usize), Failure>) {
        let (a, p): (A, usize) = A::read(s, pos)?;
        proof {
            A::lemma_decode_ok(s@, pos as int);
        }
        let (b, q): (B, usize) = B::read(s, p)?;
        Ok(((a, b), q))
    }

    fn fits(&self) -> (r: bool) {
        self.0.fits() && self.1.fits()
    }

    fn write(&self, out: &mut Vec<u8>) {
        let ghost start = out@;
        self.0.write(out);
        self.1.write(out);
        assert(out@ =~= start + Self::encode(self.model()));
    }
}

// ---------------------------------------------------------------- layouts

/// A run of values is written first value first: the first value's encoding,
/// then the rest.
pub proof fn lemma_encode_items_first<T: Wire>(ms: Seq<T::Model>)
    requires
        ms.len() > 0,
    ensures
        encode_items::<T>(ms) == T::encode(ms[0]) + encode_items::<T>(ms.drop_first()),
    decreases ms.len(),
{
    if ms.len() == 1 {
        assert(ms.drop_last() =~= Seq::<T::Model>::empty());
        assert(ms.drop_first() =~= Seq::<T::Model>::empty());
        assert(encode_items::<T>(ms) =~= T::encode(ms[0]) + encode_items::<T>(ms.drop_first()));
    } else {
        let init = ms.drop_last();
        lemma_encode_items_first::<T>(init);
        assert(init.drop_first() =~= ms.drop_first().drop_last());
        assert(ms.drop_first().last() == ms.last());
        assert(init[0] == ms[0]);
        assert(encode_items::<T>(ms) =~= T::encode(ms[0]) + encode_items::<T>(ms.drop_first()));
    }
}

/// A flag is one byte: 1 for true, 0 for false. A string is the `u32` number
/// of its UTF-8 bytes, then those bytes. A list is the `u32` number of its
/// values, then the values, first value first.
pub proof fn lemma_basic_layouts<T: Wire>(text: Seq<char>, ms: Seq<T::Model>)
    ensures
        bool::encode(true) == seq![1u8],
        bool::encode(false) == seq![0u8],
        String::encode(text) == u32::encode(encode_utf8(text).len() as u32) + encode_utf8(text),
        Vec::<T>::encode(ms) == u32::encode(ms.len() as u32) + encode_items::<T>(ms),
        ms.len() > 0 ==> Vec::<T>::encode(ms) == u32::encode(ms.len() as u32) + (T::encode(ms[0])
            + encode_items::<T>(ms.drop_first())),
{
    if ms.len() > 0 {
        lemma_encode_items_first::<T>(ms);
    }
}

/// A run of eight-byte values puts value `i` at offset `8 * i`.
pub proof fn lemma_u64_items_at(ms: Seq<u64>, i: int)
    requires
        0 <= i < ms.len(),
    ensures
        encode_items::<u64>(ms).len() == 8 * ms.len(),
        encode_items::<u64>(ms).subrange(8 * i, 8 * i + 8) == u64::encode(ms[i]),
    decreases ms.len(),
{
    lemma_auto_spec_u64_to_from_le_bytes();
    let init = ms.drop_last();
    if i < ms.len() - 1 {
        lemma_u64_items_at(init, i);
        let a = encode_items::<u64>(init);
        assert(encode_items::<u64>(ms).subrange(8 * i, 8 * i + 8) =~= a.subrange(8 * i, 8 * i + 8));
    } else {
        if init.len() > 0 {
            lemma_u64_items_at(init, 0);
        } else {
            assert(encode_items::<u64>(init) =~= Seq::<u8>::empty());
        }
        let a = encode_items::<u64>(init);
        assert(encode_items::<u64>(ms).subrange(8 * i, 8 * i + 8) =~= u64::encode(ms[i]));
    }
}

} // verus!
