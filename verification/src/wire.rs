//! The byte form of values on a socket.
//!
//! Integers are little-endian at their full width, a truth value is one byte, and
//! texts and byte strings carry their length before them. The single values are
//! written and read by the `bincode` crate; what a record or a choice of messages
//! looks like is laid out here, field after field.

use vstd::prelude::*;
use vstd::slice::*;
use vstd::string::*;
use vstd::utf8::*;

verus! {

// ---------------------------------------------------------------------------
// Little-endian numbers
// ---------------------------------------------------------------------------

/// How many numbers fit in `width` bytes.
pub open spec fn byte_range(width: nat) -> nat
    decreases width,
{
    if width == 0 {
        1
    } else {
        256 * byte_range((width - 1) as nat)
    }
}

/// A number in `width` bytes, lowest byte first.
pub open spec fn le_bytes(n: nat, width: nat) -> Seq<u8>
    decreases width,
{
    if width == 0 {
        Seq::empty()
    } else {
        seq![(n % 256) as u8] + le_bytes(n / 256, (width - 1) as nat)
    }
}

/// The number that stands in bytes, lowest byte first.
pub open spec fn le_value(s: Seq<u8>) -> nat
    decreases s.len(),
{
    if s.len() == 0 {
        0
    } else {
        s[0] as nat + 256 * le_value(s.drop_first())
    }
}

/// A number that fits is read back from its bytes.
pub proof fn lemma_le_read_back(n: nat, width: nat)
    requires
        n < byte_range(width),
    ensures
        le_bytes(n, width).len() == width,
        le_value(le_bytes(n, width)) == n,
    decreases width,
{
    if width > 0 {
        assert(n / 256 < byte_range((width - 1) as nat)) by (nonlinear_arith)
            requires
                n < 256 * byte_range((width - 1) as nat),
        ;
        lemma_le_read_back(n / 256, (width - 1) as nat);
        assert(le_bytes(n, width).drop_first() == le_bytes(n / 256, (width - 1) as nat));
    }
}

/// Bytes are written back from the number that stands in them.
pub proof fn lemma_le_write_back(s: Seq<u8>)
    ensures
        le_value(s) < byte_range(s.len()),
        le_bytes(le_value(s), s.len()) == s,
    decreases s.len(),
{
    if s.len() > 0 {
        let rest = s.drop_first();
        lemma_le_write_back(rest);
        let n = le_value(s);
        assert(n % 256 == s[0] as nat && n / 256 == le_value(rest)) by (nonlinear_arith)
            requires
                n == s[0] as nat + 256 * le_value(rest),
                s[0] as nat <= 255,
        ;
        assert(le_bytes(n, s.len()) == seq![s[0]] + rest);
        assert(s == seq![s[0]] + rest);
        assert(n < 256 * byte_range(rest.len())) by (nonlinear_arith)
            requires
                n == s[0] as nat + 256 * le_value(rest),
                s[0] as nat <= 255,
                le_value(rest) < byte_range(rest.len()),
        ;
    } else {
        assert(s == Seq::<u8>::empty());
    }
}

/// The ranges of the widths in use.
pub proof fn lemma_byte_ranges()
    ensures
        byte_range(2) == 0x1_0000,
        byte_range(4) == 0x1_0000_0000,
        byte_range(8) == 0x1_0000_0000_0000_0000,
{
    reveal_with_fuel(byte_range, 9);
}

// ---------------------------------------------------------------------------
// Single values
// ---------------------------------------------------------------------------

/// The byte form of a truth value.
pub open spec fn bool_bytes(b: bool) -> Seq<u8> {
    seq![
        if b {
            1u8
        } else {
            0u8
        },
    ]
}

/// The byte form of a byte string: its length in eight bytes, then its bytes.
pub open spec fn counted(data: Seq<u8>) -> Seq<u8> {
    le_bytes(data.len(), 8) + data
}

/// The bytes that a length in the first eight bytes announces.
pub open spec fn counted_body(b: Seq<u8>) -> Seq<u8> {
    b.subrange(8, 8 + le_value(b.take(8)) as int)
}

/// Whether bytes start with a length and at least as many bytes as it announces.
pub open spec fn starts_counted(b: Seq<u8>) -> bool {
    b.len() >= 8 && 8 + le_value(b.take(8)) <= b.len()
}

/// What the `bincode` crate reports when it cannot write or read a value.
#[verifier::external_type_specification]
#[verifier::external_body]
pub struct ExBincodeErrorKind(bincode::ErrorKind);

/// `bincode::serialize` of a `u16`: two bytes, lowest first. It does not fail.
#[verifier::external_body]
fn write_u16(v: u16) -> (r: Result<Vec<u8>, bincode::Error>)
    ensures
        r is Ok,
        r->Ok_0@ == le_bytes(v as nat, 2),
{
    bincode::serialize(&v)
}

/// `bincode::serialize` of a `u32`: four bytes, lowest first. It does not fail.
#[verifier::external_body]
fn write_u32(v: u32) -> (r: Result<Vec<u8>, bincode::Error>)
    ensures
        r is Ok,
        r->Ok_0@ == le_bytes(v as nat, 4),
{
    bincode::serialize(&v)
}

/// `bincode::serialize` of a `u64`: eight bytes, lowest first. It does not fail.
#[verifier::external_body]
fn write_u64(v: u64) -> (r: Result<Vec<u8>, bincode::Error>)
    ensures
        r is Ok,
        r->Ok_0@ == le_bytes(v as nat, 8),
{
    bincode::serialize(&v)
}

/// `bincode::serialize` of a `bool`: one byte, 1 or 0. It does not fail.
#[verifier::external_body]
fn write_bool(v: bool) -> (r: Result<Vec<u8>, bincode::Error>)
    ensures
        r is Ok,
        r->Ok_0@ == bool_bytes(v),
{
    bincode::serialize(&v)
}

/// `bincode::serialize` of a `str`: the number of its UTF-8 bytes in eight bytes,
/// then those bytes. It does not fail.
#[verifier::external_body]
fn write_str(v: &str) -> (r: Result<Vec<u8>, bincode::Error>)
    ensures
        r is Ok,
        r->Ok_0@ == counted(encode_utf8(v@)),
{
    bincode::serialize(v)
}

/// `bincode::serialize` of a byte slice: its length in eight bytes, then its bytes.
/// It does not fail.
#[verifier::external_body]
fn write_bytes(v: &[u8]) -> (r: Result<Vec<u8>, bincode::Error>)
    ensures
        r is Ok,
        r->Ok_0@ == counted(v@),
{
    bincode::serialize(v)
}

/// `bincode::deserialize` of a `u16`: from the first two bytes; what follows is not
/// looked at. It fails when there are fewer.
#[verifier::external_body]
fn read_u16(b: &[u8]) -> (r: Result<u16, bincode::Error>)
    ensures
        match r {
            Ok(v) => b@.len() >= 2 && v as nat == le_value(b@.take(2)),
            Err(_) => b@.len() < 2,
        },
{
    bincode::deserialize(b)
}

/// `bincode::deserialize` of a `u32`: from the first four bytes; what follows is not
/// looked at. It fails when there are fewer.
#[verifier::external_body]
fn read_u32(b: &[u8]) -> (r: Result<u32, bincode::Error>)
    ensures
        match r {
            Ok(v) => b@.len() >= 4 && v as nat == le_value(b@.take(4)),
            Err(_) => b@.len() < 4,
        },
{
    bincode::deserialize(b)
}

/// `bincode::deserialize` of a `u64`: from the first eight bytes; what follows is
/// not looked at. It fails when there are fewer.
#[verifier::external_body]
fn read_u64(b: &[u8]) -> (r: Result<u64, bincode::Error>)
    ensures
        match r {
            Ok(v) => b@.len() >= 8 && v as nat == le_value(b@.take(8)),
            Err(_) => b@.len() < 8,
        },
{
    bincode::deserialize(b)
}

/// `bincode::deserialize` of a `bool`: from the first byte, which is 1 or 0; what
/// follows is not looked at. It fails on no byte and on any other.
#[verifier::external_body]
fn read_bool(b: &[u8]) -> (r: Result<bool, bincode::Error>)
    ensures
        match r {
            Ok(v) => b@.len() >= 1 && b@.take(1) == bool_bytes(v),
            Err(_) => b@.len() < 1 || b@[0] > 1,
        },
{
    bincode::deserialize(b)
}

/// `bincode::deserialize` of a `String`: a length in eight bytes and that many bytes
/// of UTF-8; what follows is not looked at. It fails when bytes are missing or are
/// not UTF-8.
#[verifier::external_body]
fn read_string(b: &[u8]) -> (r: Result<String, bincode::Error>)
    ensures
        match r {
            Ok(v) => starts_counted(b@) && valid_utf8(counted_body(b@)) && v@ == decode_utf8(
                counted_body(b@),
            ),
            Err(_) => !(starts_counted(b@) && valid_utf8(counted_body(b@))),
        },
{
    bincode::deserialize(b)
}

/// `bincode::deserialize` of a `Vec<u8>`: a length in eight bytes and that many
/// bytes; what follows is not looked at. It fails when bytes are missing.
#[verifier::external_body]
fn read_vec(b: &[u8]) -> (r: Result<Vec<u8>, bincode::Error>)
    ensures
        match r {
            Ok(v) => starts_counted(b@) && v@ == counted_body(b@),
            Err(_) => !starts_counted(b@),
        },
{
    bincode::deserialize(b)
}

// ---------------------------------------------------------------------------
// Fields
// ---------------------------------------------------------------------------

/// Why bytes are not the form of a value.
#[derive(Debug, Clone, Copy, PartialEq, Eq, Structural)]
pub enum DecodeError {
    /// Something is cut off, or is not the form of any value.
    Malformed,
}

/// Whether `w` stands in `buf` from place `pos` on.
pub open spec fn at(buf: Seq<u8>, pos: int, w: Seq<u8>) -> bool {
    0 <= pos && pos + w.len() <= buf.len() && buf.subrange(pos, pos + w.len()) == w
}

/// One byte string after another.
pub proof fn lemma_at_concat(buf: Seq<u8>, pos: int, a: Seq<u8>, b: Seq<u8>)
    ensures
        at(buf, pos, a + b) <==> at(buf, pos, a) && at(buf, pos + a.len(), b),
{
    let w = a + b;
    if at(buf, pos, w) {
        assert(buf.subrange(pos, pos + a.len()) == w.take(a.len() as int));
        assert(w.take(a.len() as int) == a);
        assert(buf.subrange(pos + a.len(), pos + w.len()) == w.skip(a.len() as int));
        assert(w.skip(a.len() as int) == b);
    }
    if at(buf, pos, a) && at(buf, pos + a.len(), b) {
        assert(buf.subrange(pos, pos + w.len()) == buf.subrange(pos, pos + a.len()) + buf.subrange(
            pos + a.len(),
            pos + w.len(),
        ));
    }
}

/// A value with a byte form.
pub trait Wire: Sized {
    /// What the value is.
    type Model;

    /// What the value is.
    spec fn model(&self) -> Self::Model;

    /// Whether the machine can hold such a value.
    spec fn fits(m: Self::Model) -> bool;

    /// The byte form.
    spec fn wire(m: Self::Model) -> Seq<u8>;

    /// Bytes are the form of one value at most, whatever follows it.
    proof fn wire_unique(a: Self::Model, b: Self::Model, buf: Seq<u8>, pos: int)
        requires
            Self::fits(a),
            Self::fits(b),
            at(buf, pos, Self::wire(a)),
            at(buf, pos, Self::wire(b)),
        ensures
            a == b,
    ;

    /// Writes the value at the end of `out`.
    fn put(&self, out: &mut Vec<u8>)
        ensures
            Self::fits(self.model()),
            final(out)@ == old(out)@ + Self::wire(self.model()),
    ;

    /// Reads a value from place `pos` on; says where it ends.
    fn get(buf: &[u8], pos: usize) -> (r: Result<(Self, usize), DecodeError>)
        requires
            pos <= buf@.len(),
        ensures
            match r {
                Ok((v, end)) => {
                    &&& Self::fits(v.model())
                    &&& at(buf@, pos as int, Self::wire(v.model()))
                    &&& end == pos + Self::wire(v.model()).len()
                },
                Err(_) => forall|m: Self::Model| Self::fits(m) ==> !at(buf@, pos as int, #[trigger] Self::wire(m)),
            },
    ;
}

impl Wire for u16 {
    type Model = nat;

    open spec fn model(&self) -> nat {
        *self as nat
    }

    open spec fn fits(m: nat) -> bool {
        m < 0x1_0000
    }

    open spec fn wire(m: nat) -> Seq<u8> {
        le_bytes(m, 2)
    }

    proof fn wire_unique(a: nat, b: nat, buf: Seq<u8>, pos: int) {
        assert(<u16 as Wire>::fits(a) && <u16 as Wire>::fits(b));
        assert(<u16 as Wire>::wire(a) == le_bytes(a, 2));
        assert(<u16 as Wire>::wire(b) == le_bytes(b, 2));
        lemma_byte_ranges();
        lemma_le_read_back(a, 2);
        lemma_le_read_back(b, 2);
    }

    fn put(&self, out: &mut Vec<u8>) {
        if let Ok(mut b) = write_u16(*self) {
            out.append(&mut b);
        }
    }

    fn get(buf: &[u8], pos: usize) -> (r: Result<(Self, usize), DecodeError>) {
        let rest = slice_subrange(buf, pos, buf.len());
        proof {
            lemma_byte_ranges();
            assert forall|m: nat| m < 0x1_0000 && at(buf@, pos as int, #[trigger] Self::wire(m)) implies rest@.len() >= 2 by {
                lemma_le_read_back(m, 2);
            }
        }
        match read_u16(rest) {
            Ok(v) => {
                proof {
                    lemma_le_write_back(rest@.take(2));
                    assert(rest@.take(2) == buf@.subrange(pos as int, pos + 2));
                }
                Ok((v, pos + 2))
            },
            Err(_) => Err(DecodeError::Malformed),
        }
    }
}

impl Wire for u32 {
    type Model = nat;

    open spec fn model(&self) -> nat {
        *self as nat
    }

    open spec fn fits(m: nat) -> bool {
        m < 0x1_0000_0000
    }

    open spec fn wire(m: nat) -> Seq<u8> {
        le_bytes(m, 4)
    }

    proof fn wire_unique(a: nat, b: nat, buf: Seq<u8>, pos: int) {
        assert(<u32 as Wire>::fits(a) && <u32 as Wire>::fits(b));
        assert(<u32 as Wire>::wire(a) == le_bytes(a, 4));
        assert(<u32 as Wire>::wire(b) == le_bytes(b, 4));
        lemma_byte_ranges();
        lemma_le_read_back(a, 4);
        lemma_le_read_back(b, 4);
    }

    fn put(&self, out: &mut Vec<u8>) {
        if let Ok(mut b) = write_u32(*self) {
            out.append(&mut b);
        }
    }

    fn get(buf: &[u8], pos: usize) -> (r: Result<(Self, usize), DecodeError>) {
        let rest = slice_subrange(buf, pos, buf.len());
        proof {
            lemma_byte_ranges();
            assert forall|m: nat| m < 0x1_0000_0000 && at(buf@, pos as int, #[trigger] Self::wire(m)) implies rest@.len() >= 4 by {
                lemma_le_read_back(m, 4);
            }
        }
        match read_u32(rest) {
            Ok(v) => {
                proof {
                    lemma_le_write_back(rest@.take(4));
                    assert(rest@.take(4) == buf@.subrange(pos as int, pos + 4));
                }
                Ok((v, pos + 4))
            },
            Err(_) => Err(DecodeError::Malformed),
        }
    }
}

impl Wire for u64 {
    type Model = nat;

    open spec fn model(&self) -> nat {
        *self as nat
    }

    open spec fn fits(m: nat) -> bool {
        m < 0x1_0000_0000_0000_0000
    }

    open spec fn wire(m: nat) -> Seq<u8> {
        le_bytes(m, 8)
    }

    proof fn wire_unique(a: nat, b: nat, buf: Seq<u8>, pos: int) {
        assert(<u64 as Wire>::fits(a) && <u64 as Wire>::fits(b));
        assert(<u64 as Wire>::wire(a) == le_bytes(a, 8));
        assert(<u64 as Wire>::wire(b) == le_bytes(b, 8));
        lemma_byte_ranges();
        lemma_le_read_back(a, 8);
        lemma_le_read_back(b, 8);
    }

    fn put(&self, out: &mut Vec<u8>) {
        if let Ok(mut b) = write_u64(*self) {
            out.append(&mut b);
        }
    }

    fn get(buf: &[u8], pos: usize) -> (r: Result<(Self, usize), DecodeError>) {
        let rest = slice_subrange(buf, pos, buf.len());
        proof {
            lemma_byte_ranges();
            assert forall|m: nat| m < 0x1_0000_0000_0000_0000 && at(buf@, pos as int, #[trigger] Self::wire(m)) implies rest@.len()
                >= 8 by {
                lemma_le_read_back(m, 8);
            }
        }
        match read_u64(rest) {
            Ok(v) => {
                proof {
                    lemma_le_write_back(rest@.take(8));
                    assert(rest@.take(8) == buf@.subrange(pos as int, pos + 8));
                }
                Ok((v, pos + 8))
            },
            Err(_) => Err(DecodeError::Malformed),
        }
    }
}

/// A `usize` travels as a `u64`; a number that the machine cannot hold is refused.
impl Wire for usize {
    type Model = nat;

    open spec fn model(&self) -> nat {
        *self as nat
    }

    open spec fn fits(m: nat) -> bool {
        m <= usize::MAX
    }

    open spec fn wire(m: nat) -> Seq<u8> {
        le_bytes(m, 8)
    }

    proof fn wire_unique(a: nat, b: nat, buf: Seq<u8>, pos: int) {
        <u64 as Wire>::wire_unique(a, b, buf, pos);
    }

    fn put(&self, out: &mut Vec<u8>) {
        (*self as u64).put(out);
    }

    fn get(buf: &[u8], pos: usize) -> (r: Result<(Self, usize), DecodeError>) {
        match u64::get(buf, pos) {
            Ok((v, end)) => {
                if v <= usize::MAX as u64 {
                    Ok((v as usize, end))
                } else {
                    proof {
                        assert forall|m: nat| m <= usize::MAX implies !at(buf@, pos as int, #[trigger] <usize as Wire>::wire(m)) by {
                            if at(buf@, pos as int, <usize as Wire>::wire(m)) {
                                assert(<usize as Wire>::wire(m) == <u64 as Wire>::wire(m));
                                <u64 as Wire>::wire_unique(m, v as nat, buf@, pos as int);
                            }
                        }
                    }
                    Err(DecodeError::Malformed)
                }
            },
            Err(e) => {
                proof {
                    assert forall|m: nat| m <= usize::MAX implies !at(buf@, pos as int, #[trigger] <usize as Wire>::wire(m)) by {
                        assert(<usize as Wire>::wire(m) == <u64 as Wire>::wire(m));
                    }
                }
                Err(e)
            },
        }
    }
}

impl Wire for bool {
    type Model = bool;

    open spec fn model(&self) -> bool {
        *self
    }

    open spec fn fits(m: bool) -> bool {
        true
    }

    open spec fn wire(m: bool) -> Seq<u8> {
        bool_bytes(m)
    }

    proof fn wire_unique(a: bool, b: bool, buf: Seq<u8>, pos: int) {
        assert(bool_bytes(a)[0] == bool_bytes(b)[0]);
    }

    fn put(&self, out: &mut Vec<u8>) {
        if let Ok(mut b) = write_bool(*self) {
            out.append(&mut b);
        }
    }

    fn get(buf: &[u8], pos: usize) -> (r: Result<(Self, usize), DecodeError>) {
        let rest = slice_subrange(buf, pos, buf.len());
        proof {
            assert forall|m: bool| at(buf@, pos as int, #[trigger] Self::wire(m)) implies rest@.len() >= 1 && rest@[0] <= 1 by {
                assert(buf@.subrange(pos as int, pos + 1)[0] == buf@[pos as int]);
                assert(bool_bytes(m)[0] <= 1);
            }
        }
        match read_bool(rest) {
            Ok(v) => {
                assert(rest@.take(1) == buf@.subrange(pos as int, pos + 1));
                Ok((v, pos + 1))
            },
            Err(_) => Err(DecodeError::Malformed),
        }
    }
}

/// A counted byte string stands in a place just if a length and that many bytes do.
proof fn lemma_counted(buf: Seq<u8>, pos: int, data: Seq<u8>)
    requires
        0 <= pos <= buf.len(),
        data.len() < 0x1_0000_0000_0000_0000,
    ensures
        counted(data).len() == 8 + data.len(),
        at(buf, pos, counted(data)) <==> starts_counted(buf.skip(pos)) && counted_body(buf.skip(pos)) == data,
{
    lemma_byte_ranges();
    lemma_le_read_back(data.len(), 8);
    let rest = buf.skip(pos);
    lemma_at_concat(buf, pos, le_bytes(data.len(), 8), data);
    if at(buf, pos, counted(data)) {
        assert(rest.take(8) == buf.subrange(pos, pos + 8));
        assert(rest.subrange(8, 8 + data.len() as int) == buf.subrange(pos + 8, pos + 8 + data.len()));
    }
    if starts_counted(rest) && counted_body(rest) == data {
        lemma_le_write_back(rest.take(8));
        assert(rest.take(8) == buf.subrange(pos, pos + 8));
        assert(rest.subrange(8, 8 + data.len() as int) == buf.subrange(pos + 8, pos + 8 + data.len()));
    }
}

impl Wire for Vec<u8> {
    type Model = Seq<u8>;

    open spec fn model(&self) -> Seq<u8> {
        self@
    }

    open spec fn fits(m: Seq<u8>) -> bool {
        m.len() <= usize::MAX
    }

    open spec fn wire(m: Seq<u8>) -> Seq<u8> {
        counted(m)
    }

    proof fn wire_unique(a: Seq<u8>, b: Seq<u8>, buf: Seq<u8>, pos: int) {
        lemma_counted(buf, pos, a);
        lemma_counted(buf, pos, b);
    }

    fn put(&self, out: &mut Vec<u8>) {
        if let Ok(mut b) = write_bytes(self.as_slice()) {
            out.append(&mut b);
        }
        assert(self.len() <= usize::MAX);
    }

    fn get(buf: &[u8], pos: usize) -> (r: Result<(Self, usize), DecodeError>) {
        let rest = slice_subrange(buf, pos, buf.len());
        assert(rest@ == buf@.skip(pos as int));
        proof {
            assert forall|m: Seq<u8>| #[trigger] Self::fits(m) && at(buf@, pos as int, Self::wire(m)) implies starts_counted(rest@) by {
                lemma_counted(buf@, pos as int, m);
            }
        }
        match read_vec(rest) {
            Ok(v) => {
                let n = v.len();
                proof {
                    lemma_counted(buf@, pos as int, v@);
                }
                Ok((v, pos + 8 + n))
            },
            Err(_) => Err(DecodeError::Malformed),
        }
    }
}

impl Wire for String {
    type Model = Seq<char>;

    open spec fn model(&self) -> Seq<char> {
        self@
    }

    open spec fn fits(m: Seq<char>) -> bool {
        encode_utf8(m).len() <= usize::MAX
    }

    open spec fn wire(m: Seq<char>) -> Seq<u8> {
        counted(encode_utf8(m))
    }

    proof fn wire_unique(a: Seq<char>, b: Seq<char>, buf: Seq<u8>, pos: int) {
        lemma_counted(buf, pos, encode_utf8(a));
        lemma_counted(buf, pos, encode_utf8(b));
        encode_utf8_decode_utf8(a);
        encode_utf8_decode_utf8(b);
    }

    fn put(&self, out: &mut Vec<u8>) {
        let n = self.as_str().as_bytes().len();
        if let Ok(mut b) = write_str(self.as_str()) {
            out.append(&mut b);
        }
    }

    fn get(buf: &[u8], pos: usize) -> (r: Result<(Self, usize), DecodeError>) {
        let rest = slice_subrange(buf, pos, buf.len());
        assert(rest@ == buf@.skip(pos as int));
        proof {
            assert forall|m: Seq<char>| #[trigger] Self::fits(m) && at(buf@, pos as int, Self::wire(m)) implies starts_counted(rest@)
                && valid_utf8(counted_body(rest@)) by {
                lemma_counted(buf@, pos as int, encode_utf8(m));
                encode_utf8_valid_utf8(m);
            }
        }
        match read_string(rest) {
            Ok(v) => {
                proof {
                    decode_utf8_encode_utf8(counted_body(rest@));
                    lemma_counted(buf@, pos as int, encode_utf8(v@));
                }
                let n = v.as_str().as_bytes().len();
                Ok((v, pos + 8 + n))
            },
            Err(_) => Err(DecodeError::Malformed),
        }
    }
}

/// An optional value: a truth value that says whether it is there, then the value.
impl<T: Wire> Wire for Option<T> {
    type Model = Option<T::Model>;

    open spec fn model(&self) -> Option<T::Model> {
        match self {
            Some(v) => Some(v.model()),
            None => None,
        }
    }

    open spec fn fits(m: Option<T::Model>) -> bool {
        match m {
            Some(v) => T::fits(v),
            None => true,
        }
    }

    open spec fn wire(m: Option<T::Model>) -> Seq<u8> {
        match m {
            Some(v) => bool_bytes(true) + T::wire(v),
            None => bool_bytes(false),
        }
    }

    proof fn wire_unique(a: Option<T::Model>, b: Option<T::Model>, buf: Seq<u8>, pos: int) {
        lemma_option_tag::<T>(a, buf, pos);
        lemma_option_tag::<T>(b, buf, pos);
        <bool as Wire>::wire_unique(a is Some, b is Some, buf, pos);
        if a is Some {
            T::wire_unique(a->0, b->0, buf, pos + 1);
        }
    }

    fn put(&self, out: &mut Vec<u8>) {
        match self {
            Some(v) => {
                true.put(out);
                v.put(out);
                assert(out@ == old(out)@ + (bool_bytes(true) + T::wire(v.model())));
            },
            None => {
                false.put(out);
            },
        }
    }

    fn get(buf: &[u8], pos: usize) -> (r: Result<(Self, usize), DecodeError>) {
        proof {
            assert forall|m: Option<T::Model>| #[trigger] Self::fits(m) && at(buf@, pos as int, Self::wire(m)) implies at(
                buf@,
                pos as int,
                <bool as Wire>::wire(m is Some),
            ) && (m matches Some(v) ==> at(buf@, pos + 1, T::wire(v))) by {
                lemma_option_tag::<T>(m, buf@, pos as int);
            }
        }
        match bool::get(buf, pos) {
            Ok((some, next)) => {
                proof {
                    assert forall|m: Option<T::Model>| #[trigger] Self::fits(m) && at(buf@, pos as int, Self::wire(m)) implies (m is Some)
                        == some by {
                        <bool as Wire>::wire_unique(m is Some, some, buf@, pos as int);
                    }
                }
                if some {
                    match T::get(buf, next) {
                        Ok((v, end)) => {
                            proof {
                                lemma_at_concat(buf@, pos as int, bool_bytes(true), T::wire(v.model()));
                            }
                            Ok((Some(v), end))
                        },
                        Err(e) => Err(e),
                    }
                } else {
                    Ok((None, next))
                }
            },
            Err(e) => Err(e),
        }
    }
}

proof fn lemma_option_tag<T: Wire>(m: Option<T::Model>, buf: Seq<u8>, pos: int)
    requires
        at(buf, pos, Option::<T>::wire(m)),
    ensures
        at(buf, pos, <bool as Wire>::wire(m is Some)),
        m matches Some(v) ==> at(buf, pos + 1, T::wire(v)),
{
    if m is Some {
        lemma_at_concat(buf, pos, bool_bytes(true), T::wire(m->0));
    }
}

/// Two values, one after the other.
impl<A: Wire, B: Wire> Wire for (A, B) {
    type Model = (A::Model, B::Model);

    open spec fn model(&self) -> (A::Model, B::Model) {
        (self.0.model(), self.1.model())
    }

    open spec fn fits(m: (A::Model, B::Model)) -> bool {
        A::fits(m.0) && B::fits(m.1)
    }

    open spec fn wire(m: (A::Model, B::Model)) -> Seq<u8> {
        A::wire(m.0) + B::wire(m.1)
    }

    proof fn wire_unique(a: (A::Model, B::Model), b: (A::Model, B::Model), buf: Seq<u8>, pos: int) {
        lemma_at_concat(buf, pos, A::wire(a.0), B::wire(a.1));
        lemma_at_concat(buf, pos, A::wire(b.0), B::wire(b.1));
        A::wire_unique(a.0, b.0, buf, pos);
        B::wire_unique(a.1, b.1, buf, pos + A::wire(a.0).len());
    }

    fn put(&self, out: &mut Vec<u8>) {
        self.0.put(out);
        self.1.put(out);
        assert(out@ == old(out)@ + (A::wire(self.0.model()) + B::wire(self.1.model())));
    }

    fn get(buf: &[u8], pos: usize) -> (r: Result<(Self, usize), DecodeError>) {
        proof {
            assert forall|m: (A::Model, B::Model)| #[trigger] Self::fits(m) && at(buf@, pos as int, Self::wire(m)) implies at(
                buf@,
                pos as int,
                A::wire(m.0),
            ) && at(buf@, pos + A::wire(m.0).len(), B::wire(m.1)) by {
                lemma_at_concat(buf@, pos as int, A::wire(m.0), B::wire(m.1));
            }
        }
        match A::get(buf, pos) {
            Ok((a, next)) => {
                proof {
                    assert forall|m: (A::Model, B::Model)| #[trigger] Self::fits(m) && at(buf@, pos as int, Self::wire(m)) implies m.0
                        == a.model() by {
                        A::wire_unique(m.0, a.model(), buf@, pos as int);
                    }
                }
                match B::get(buf, next) {
                    Ok((b, end)) => {
                        proof {
                            lemma_at_concat(buf@, pos as int, A::wire(a.model()), B::wire(b.model()));
                        }
                        Ok(((a, b), end))
                    },
                    Err(e) => Err(e),
                }
            },
            Err(e) => Err(e),
        }
    }
}

/// A signed number as the unsigned number of the same bits.
pub open spec fn unsigned_of(m: int) -> nat {
    if m < 0 {
        (m + 0x1_0000_0000) as nat
    } else {
        m as nat
    }
}

impl Wire for i32 {
    type Model = int;

    open spec fn model(&self) -> int {
        *self as int
    }

    open spec fn fits(m: int) -> bool {
        i32::MIN <= m <= i32::MAX
    }

    open spec fn wire(m: int) -> Seq<u8> {
        le_bytes(unsigned_of(m), 4)
    }

    proof fn wire_unique(a: int, b: int, buf: Seq<u8>, pos: int) {
        <u32 as Wire>::wire_unique(unsigned_of(a), unsigned_of(b), buf, pos);
    }

    fn put(&self, out: &mut Vec<u8>) {
        let n: u32 = if *self < 0 {
            ((*self as i64) + 0x1_0000_0000) as u32
        } else {
            *self as u32
        };
        n.put(out);
    }

    fn get(buf: &[u8], pos: usize) -> (r: Result<(Self, usize), DecodeError>) {
        match u32::get(buf, pos) {
            Ok((n, end)) => {
                let v: i32 = if n <= 0x7fff_ffff {
                    n as i32
                } else {
                    ((n as i64) - 0x1_0000_0000) as i32
                };
                Ok((v, end))
            },
            Err(e) => {
                proof {
                    assert forall|m: int| i32::MIN <= m <= i32::MAX implies !at(buf@, pos as int, #[trigger] <i32 as Wire>::wire(m)) by {
                        assert(<i32 as Wire>::wire(m) == <u32 as Wire>::wire(unsigned_of(m)));
                    }
                }
                Err(e)
            },
        }
    }
}

/// The byte form of values in a row.
pub open spec fn row_bytes<T: Wire>(row: Seq<T::Model>) -> Seq<u8>
    decreases row.len(),
{
    if row.len() == 0 {
        Seq::empty()
    } else {
        T::wire(row[0]) + row_bytes::<T>(row.drop_first())
    }
}

/// Whether every value of a row fits.
pub open spec fn row_fits<T: Wire>(row: Seq<T::Model>) -> bool {
    forall|i: int| 0 <= i < row.len() ==> T::fits(#[trigger] row[i])
}

/// What the values of a row are.
pub open spec fn row_models<T: Wire>(row: Seq<T>) -> Seq<T::Model> {
    Seq::new(row.len(), |i: int| row[i].model())
}

/// A row that gets one value more gets its bytes at the end.
pub proof fn lemma_row_push<T: Wire>(row: Seq<T::Model>, last: T::Model)
    ensures
        row_bytes::<T>(row.push(last)) == row_bytes::<T>(row) + T::wire(last),
    decreases row.len(),
{
    let longer = row.push(last);
    if row.len() == 0 {
        assert(longer.drop_first() == Seq::<T::Model>::empty());
        reveal_with_fuel(row_bytes, 2);
        assert(T::wire(last) + Seq::<u8>::empty() == Seq::<u8>::empty() + T::wire(last));
    } else {
        assert(longer.drop_first() == row.drop_first().push(last));
        lemma_row_push::<T>(row.drop_first(), last);
        assert(T::wire(row[0]) + (row_bytes::<T>(row.drop_first()) + T::wire(last)) == T::wire(row[0])
            + row_bytes::<T>(row.drop_first()) + T::wire(last));
    }
}

/// Two rows of one length in one place are the same.
pub proof fn lemma_row_unique<T: Wire>(a: Seq<T::Model>, b: Seq<T::Model>, buf: Seq<u8>, pos: int)
    requires
        a.len() == b.len(),
        row_fits::<T>(a),
        row_fits::<T>(b),
        at(buf, pos, row_bytes::<T>(a)),
        at(buf, pos, row_bytes::<T>(b)),
    ensures
        a == b,
    decreases a.len(),
{
    if a.len() > 0 {
        lemma_at_concat(buf, pos, T::wire(a[0]), row_bytes::<T>(a.drop_first()));
        lemma_at_concat(buf, pos, T::wire(b[0]), row_bytes::<T>(b.drop_first()));
        T::wire_unique(a[0], b[0], buf, pos);
        lemma_row_unique::<T>(a.drop_first(), b.drop_first(), buf, pos + T::wire(a[0]).len());
        assert(a == seq![a[0]] + a.drop_first());
        assert(b == seq![b[0]] + b.drop_first());
    }
}

/// Writes values in a row.
pub fn put_row<T: Wire>(row: &Vec<T>, out: &mut Vec<u8>)
    ensures
        row_fits::<T>(row_models(row@)),
        final(out)@ == old(out)@ + row_bytes::<T>(row_models(row@)),
{
    let ghost before = out@;
    let mut i: usize = 0;
    assert(row_models(row@.take(0)) == Seq::<T::Model>::empty());
    while i < row.len()
        invariant
            i <= row@.len(),
            forall|k: int| 0 <= k < i ==> T::fits(#[trigger] row@[k].model()),
            out@ == before + row_bytes::<T>(row_models(row@.take(i as int))),
        decreases row@.len() - i,
    {
        row[i].put(out);
        proof {
            let done = row_models(row@.take(i as int));
            lemma_row_push::<T>(done, row@[i as int].model());
            assert(row_models(row@.take(i + 1)) == done.push(row@[i as int].model()));
            assert(out@ == before + (row_bytes::<T>(done) + T::wire(row@[i as int].model())));
        }
        i = i + 1;
    }
    assert(row@.take(row@.len() as int) == row@);
    assert forall|k: int| 0 <= k < row_models(row@).len() implies T::fits(#[trigger] row_models(row@)[k]) by {
        assert(T::fits(row@[k].model()));
    }
}

/// Reads `count` values in a row.
pub fn get_row<T: Wire>(buf: &[u8], pos: usize, count: u64) -> (r: Result<(Vec<T>, usize), DecodeError>)
    requires
        pos <= buf@.len(),
    ensures
        match r {
            Ok((row, end)) => {
                &&& row@.len() == count
                &&& row_fits::<T>(row_models(row@))
                &&& at(buf@, pos as int, row_bytes::<T>(row_models(row@)))
                &&& end == pos + row_bytes::<T>(row_models(row@)).len()
            },
            Err(_) => forall|m: Seq<T::Model>|
                m.len() == count && row_fits::<T>(m) ==> !at(buf@, pos as int, #[trigger] row_bytes::<T>(m)),
        },
{
    let mut row: Vec<T> = Vec::new();
    let mut cur: usize = pos;
    let mut i: u64 = 0;
    assert(row_models(row@) == Seq::<T::Model>::empty());
    assert(buf@.subrange(pos as int, pos as int) == Seq::<u8>::empty());
    while i < count
        invariant
            i <= count,
            pos <= cur <= buf@.len(),
            row@.len() == i,
            row_fits::<T>(row_models(row@)),
            at(buf@, pos as int, row_bytes::<T>(row_models(row@))),
            cur == pos + row_bytes::<T>(row_models(row@)).len(),
        decreases count - i,
    {
        let ghost done = row_models(row@);
        match T::get(buf, cur) {
            Ok((v, end)) => {
                proof {
                    lemma_row_push::<T>(done, v.model());
                    lemma_at_concat(buf@, pos as int, row_bytes::<T>(done), T::wire(v.model()));
                }
                row.push(v);
                assert(row_models(row@) == done.push(v.model()));
                cur = end;
                i = i + 1;
            },
            Err(e) => {
                proof {
                    assert forall|m: Seq<T::Model>| m.len() == count && row_fits::<T>(m) implies !at(
                        buf@,
                        pos as int,
                        #[trigger] row_bytes::<T>(m),
                    ) by {
                        if at(buf@, pos as int, row_bytes::<T>(m)) {
                            lemma_row_part::<T>(m, i as int, buf@, pos as int);
                            lemma_row_unique::<T>(m.take(i as int), done, buf@, pos as int);
                            assert(T::fits(m[i as int]));
                        }
                    }
                }
                return Err(e);
            },
        }
    }
    Ok((row, cur))
}

/// In a row the first `n` values stand first, and the next one right after them.
proof fn lemma_row_part<T: Wire>(m: Seq<T::Model>, n: int, buf: Seq<u8>, pos: int)
    requires
        0 <= n < m.len(),
        row_fits::<T>(m),
        at(buf, pos, row_bytes::<T>(m)),
    ensures
        row_fits::<T>(m.take(n)),
        at(buf, pos, row_bytes::<T>(m.take(n))),
        at(buf, pos + row_bytes::<T>(m.take(n)).len(), T::wire(m[n])),
    decreases n,
{
    assert forall|i: int| 0 <= i < m.take(n).len() implies T::fits(#[trigger] m.take(n)[i]) by {
        assert(T::fits(m[i]));
    }
    lemma_at_concat(buf, pos, T::wire(m[0]), row_bytes::<T>(m.drop_first()));
    if n == 0 {
        assert(m.take(0) == Seq::<T::Model>::empty());
        assert(buf.subrange(pos, pos) == Seq::<u8>::empty());
    } else {
        let rest = m.drop_first();
        lemma_row_part::<T>(rest, n - 1, buf, pos + T::wire(m[0]).len());
        assert(m.take(n).drop_first() == rest.take(n - 1));
        lemma_at_concat(buf, pos, T::wire(m[0]), row_bytes::<T>(rest.take(n - 1)));
        assert(rest[n - 1] == m[n]);
    }
}

/// A choice stands in a place as its number and then what it carries.
pub proof fn lemma_choice(number: nat, body: Seq<u8>, buf: Seq<u8>, pos: int)
    requires
        number < 0x1_0000_0000,
    ensures
        le_bytes(number, 4).len() == 4,
        at(buf, pos, le_bytes(number, 4) + body) <==> at(buf, pos, <u32 as Wire>::wire(number)) && at(
            buf,
            pos + 4,
            body,
        ),
{
    lemma_byte_ranges();
    lemma_le_read_back(number, 4);
    lemma_at_concat(buf, pos, le_bytes(number, 4), body);
}

} // verus!
