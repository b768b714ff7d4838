//! TCP request frame encoding and decoding.
//!
//! A request frame holds three fields, in the order that the effective
//! protocol spec derives: the frame version (one byte), the target (a
//! big-endian `u16` length and that many UTF-8 bytes of `host:port`) and the
//! padding (one length byte and that many padding bytes).

use vstd::prelude::*;
use vstd::string::{StringExecFns, StringSliceAdditionalSpecFns};
use vstd::utf8::*;

use super::util::{
    TargetError, append_decimal, check_target_len, decimal, spec_validate_target,
    target_error_text, target_len_ok, validate_target,
};

verus! {

broadcast use {encode_utf8_valid_utf8, decode_utf8_encode_utf8};

/// The version byte of the TCP request frame.
pub const PROXY_FRAME_VERSION: u8 = 1;

/// A field of the TCP request frame.
#[derive(Debug, Clone, Copy, PartialEq, Eq, Structural)]
pub enum TcpFrameElement {
    /// The frame version byte.
    Version,
    /// The length-prefixed target address.
    Target,
    /// The length-prefixed padding.
    Padding,
}

/// The field orders that the effective protocol spec derives.
#[derive(Debug, Clone, Copy)]
pub struct FrameLayout {
    /// The order of the fields of a TCP request frame.
    pub tcp: [TcpFrameElement; 3],
}

impl FrameLayout {
    /// A derived layout orders the three fields, each once.
    pub open spec fn wf(&self) -> bool {
        &&& self.tcp@.contains(TcpFrameElement::Version)
        &&& self.tcp@.contains(TcpFrameElement::Target)
        &&& self.tcp@.contains(TcpFrameElement::Padding)
    }
}

/// The parts of the effective protocol spec that shape a TCP request frame.
#[derive(Debug, Clone, Copy)]
pub struct EffectiveProtocolSpec {
    /// The derived field orders.
    pub frame_layout: FrameLayout,
    /// The derived number of padding bytes in a TCP request frame.
    pub tcp_padding_len: u8,
}

/// Why a TCP request frame was refused.
#[derive(Debug)]
pub enum RequestError {
    /// The target length is 0 or above the frame limit.
    InvalidTargetLength(usize),
    /// The target is not of the form `host:port`.
    InvalidTarget(TargetError),
    /// The target bytes are not valid UTF-8.
    TargetNotUtf8,
    /// The version byte is not [`PROXY_FRAME_VERSION`].
    UnsupportedVersion(u8),
    /// The padding length byte differs from the spec's padding length.
    InvalidPaddingLength { expected: u8, got: u8 },
    /// The padding bytes differ from the bytes the spec derives.
    InvalidPadding,
    /// The layout holds no target field.
    MissingTarget,
    /// The layout holds no padding field.
    MissingPadding,
    /// The input ends inside `part`; `needed` more bytes complete it.
    Truncated { part: FramePart, needed: usize },
}

/// A part of a request frame, in the order it is read within its field.
#[derive(Debug, Clone, Copy, PartialEq, Eq, Structural)]
pub enum FramePart {
    /// The version byte.
    Version,
    /// The two bytes of the target length.
    TargetLength,
    /// The target bytes.
    Target,
    /// The padding length byte.
    PaddingLength,
    /// The padding bytes.
    Padding,
}

/// The text of a frame refusal, as the frame reader and writer word it after
/// their own name.
pub open spec fn request_error_text(e: RequestError) -> Seq<char> {
    match e {
        RequestError::InvalidTargetLength(n) => "invalid target length: "@ + decimal(n as nat),
        RequestError::InvalidTarget(t) => target_error_text(t),
        RequestError::TargetNotUtf8 => "target address is not valid UTF-8"@,
        RequestError::UnsupportedVersion(v) => "unsupported frame version: "@ + decimal(v as nat),
        RequestError::InvalidPaddingLength { expected, got } => "invalid padding length: expected "@
            + decimal(expected as nat) + ", got "@ + decimal(got as nat),
        RequestError::InvalidPadding => "invalid padding"@,
        RequestError::MissingTarget => "missing target"@,
        RequestError::MissingPadding => "missing padding"@,
        RequestError::Truncated { part, needed: _ } => match part {
            FramePart::Version => "failed to read version"@,
            FramePart::TargetLength => "failed to read target length"@,
            FramePart::Target => "failed to read target"@,
            FramePart::PaddingLength => "failed to read padding length"@,
            FramePart::Padding => "failed to read padding"@,
        },
    }
}

impl RequestError {
    /// The error's text after `context`, the name of the function that
    /// refused the frame: `<context>: <text>`.
    pub fn message(&self, context: &str) -> (m: String)
        ensures
            m@ == context@ + ": "@ + request_error_text(*self),
    {
        let mut m = context.to_owned();
        m.append(": ");
        match self {
            RequestError::InvalidTargetLength(n) => {
                m.append("invalid target length: ");
                append_decimal(&mut m, *n);
            },
            RequestError::InvalidTarget(t) => {
                let text = t.message();
                m.append(text.as_str());
            },
            RequestError::TargetNotUtf8 => {
                m.append("target address is not valid UTF-8");
            },
            RequestError::UnsupportedVersion(v) => {
                m.append("unsupported frame version: ");
                append_decimal(&mut m, *v as usize);
            },
            RequestError::InvalidPaddingLength { expected, got } => {
                m.append("invalid padding length: expected ");
                append_decimal(&mut m, *expected as usize);
                m.append(", got ");
                append_decimal(&mut m, *got as usize);
            },
            RequestError::InvalidPadding => {
                m.append("invalid padding");
            },
            RequestError::MissingTarget => {
                m.append("missing target");
            },
            RequestError::MissingPadding => {
                m.append("missing padding");
            },
            RequestError::Truncated { part, needed: _ } => {
                let text = match part {
                    FramePart::Version => "failed to read version",
                    FramePart::TargetLength => "failed to read target length",
                    FramePart::Target => "failed to read target",
                    FramePart::PaddingLength => "failed to read padding length",
                    FramePart::Padding => "failed to read padding",
                };
                m.append(text);
            },
        }
        m
    }
}

/// The big-endian encoding of a target length.
pub open spec fn u16_be(n: nat) -> Seq<u8> {
    seq![(n / 256) as u8, (n % 256) as u8]
}

/// The bytes of one field, for the given target and padding.
pub open spec fn field_bytes(
    e: TcpFrameElement,
    target: Seq<u8>,
    padding_len: u8,
    padding: Seq<u8>,
) -> Seq<u8> {
    match e {
        TcpFrameElement::Version => seq![PROXY_FRAME_VERSION],
        TcpFrameElement::Target => u16_be(target.len()) + target,
        TcpFrameElement::Padding => seq![padding_len] + padding,
    }
}

/// The bytes of the first `k` fields of `layout`.
pub open spec fn frame_prefix(
    layout: Seq<TcpFrameElement>,
    k: int,
    target: Seq<u8>,
    padding_len: u8,
    padding: Seq<u8>,
) -> Seq<u8>
    decreases k,
{
    if k <= 0 {
        Seq::empty()
    } else {
        frame_prefix(layout, k - 1, target, padding_len, padding) + field_bytes(
            layout[k - 1],
            target,
            padding_len,
            padding,
        )
    }
}

/// The bytes of a whole frame laid out by `layout`.
pub open spec fn frame_bytes(
    layout: Seq<TcpFrameElement>,
    target: Seq<u8>,
    padding_len: u8,
    padding: Seq<u8>,
) -> Seq<u8> {
    frame_prefix(layout, layout.len() as int, target, padding_len, padding)
}

/// What [`write_request_frame`] gives for a target of bytes `target`.
pub open spec fn spec_write_request_frame(
    layout: Seq<TcpFrameElement>,
    target: Seq<u8>,
    padding_len: u8,
    padding: Seq<u8>,
) -> Result<Seq<u8>, RequestError> {
    if !target_len_ok(target.len() as int) {
        Err(RequestError::InvalidTargetLength(target.len() as usize))
    } else {
        match spec_validate_target(target) {
            Err(e) => Err(RequestError::InvalidTarget(e)),
            Ok(()) => Ok(frame_bytes(layout, target, padding_len, padding)),
        }
    }
}

/// Appends `src` to `dst`.
fn append_bytes(dst: &mut Vec<u8>, src: &[u8])
    ensures
        final(dst)@ == old(dst)@ + src@,
{
    let mut i: usize = 0;
    while i < src.len()
        invariant
            i <= src@.len(),
            dst@ == old(dst)@ + src@.take(i as int),
        decreases src@.len() - i,
    {
        dst.push(src[i]);
        i = i + 1;
        assert(src@.take(i as int) =~= src@.take(i - 1) + seq![src@[i - 1]]);
    }
    assert(src@.take(src@.len() as int) =~= src@);
}

/// Encodes a TCP request frame in the effective spec's field order.
///
/// `padding` is the padding that the effective spec derives for this
/// target, which is as long as the spec's padding length; it is written after
/// that length byte.
pub fn write_request_frame(
    target_addr: &str,
    protocol_spec: &EffectiveProtocolSpec,
    padding: &[u8],
) -> (res: Result<Vec<u8>, RequestError>)
    requires
        padding@.len() == protocol_spec.tcp_padding_len,
    ensures
        match spec_write_request_frame(
            protocol_spec.frame_layout.tcp@,
            target_addr.spec_bytes(),
            protocol_spec.tcp_padding_len,
            padding@,
        ) {
            Ok(frame) => res matches Ok(v) && v@ == frame,
            Err(e) => res matches Err(r) && r == e,
        },
{
    let target = target_addr.as_bytes();
    if check_target_len("protocol::request::write_request_frame", target_addr).is_err() {
        return Err(RequestError::InvalidTargetLength(target.len()));
    }
    match validate_target(target_addr) {
        Err(e) => {
            return Err(RequestError::InvalidTarget(e));
        },
        Ok(()) => {},
    }
    let n = target.len();
    let layout = protocol_spec.frame_layout.tcp;
    let ghost glayout = layout@;
    let mut buf: Vec<u8> = Vec::new();
    let mut i: usize = 0;
    while i < 3
        invariant
            i <= 3,
            glayout == layout@,
            glayout.len() == 3,
            layout@ == protocol_spec.frame_layout.tcp@,
            target@ == target_addr.spec_bytes(),
            n == target@.len(),
            1 <= n <= 512,
            buf@ == frame_prefix(glayout, i as int, target@, protocol_spec.tcp_padding_len, padding@),
        decreases 3 - i,
    {
        let ghost before = buf@;
        match layout[i] {
            TcpFrameElement::Version => {
                buf.push(PROXY_FRAME_VERSION);
            },
            TcpFrameElement::Target => {
                let high = (n / 256) as u8;
                let low = (n % 256) as u8;
                buf.push(high);
                buf.push(low);
                append_bytes(&mut buf, target);
            },
            TcpFrameElement::Padding => {
                buf.push(protocol_spec.tcp_padding_len);
                append_bytes(&mut buf, padding);
            },
        }
        assert(buf@ =~= before + field_bytes(
            glayout[i as int],
            target@,
            protocol_spec.tcp_padding_len,
            padding@,
        ));
        i = i + 1;
    }
    Ok(buf)
}


/// The number that two big-endian bytes encode.
pub open spec fn be_u16(hi: u8, lo: u8) -> int {
    hi as int * 256 + lo as int
}

/// How many bytes field `e` takes at the start of `rest`, or why it cannot be
/// read there. Each field is checked as soon as its bytes are available.
pub open spec fn spec_field_len(e: TcpFrameElement, rest: Seq<u8>, padding_len: u8) -> Result<
    int,
    RequestError,
> {
    match e {
        TcpFrameElement::Version => if rest.len() < 1 {
            Err(RequestError::Truncated { part: FramePart::Version, needed: 1 })
        } else if rest[0] != PROXY_FRAME_VERSION {
            Err(RequestError::UnsupportedVersion(rest[0]))
        } else {
            Ok(1)
        },
        TcpFrameElement::Target => if rest.len() < 2 {
            Err(
                RequestError::Truncated {
                    part: FramePart::TargetLength,
                    needed: (2 - rest.len()) as usize,
                },
            )
        } else {
            let n = be_u16(rest[0], rest[1]);
            if !target_len_ok(n) {
                Err(RequestError::InvalidTargetLength(n as usize))
            } else if rest.len() < 2 + n {
                Err(
                    RequestError::Truncated {
                        part: FramePart::Target,
                        needed: (2 + n - rest.len()) as usize,
                    },
                )
            } else {
                let t = rest.subrange(2, 2 + n);
                if !valid_utf8(t) {
                    Err(RequestError::TargetNotUtf8)
                } else {
                    match spec_validate_target(t) {
                        Err(err) => Err(RequestError::InvalidTarget(err)),
                        Ok(()) => Ok(2 + n),
                    }
                }
            }
        },
        TcpFrameElement::Padding => if rest.len() < 1 {
            Err(RequestError::Truncated { part: FramePart::PaddingLength, needed: 1 })
        } else if rest[0] != padding_len {
            Err(RequestError::InvalidPaddingLength { expected: padding_len, got: rest[0] })
        } else if rest.len() < 1 + padding_len {
            Err(
                RequestError::Truncated {
                    part: FramePart::Padding,
                    needed: (1 + padding_len - rest.len()) as usize,
                },
            )
        } else {
            Ok(1 + padding_len)
        },
    }
}

/// The content of field `e` at the start of `rest`: the target bytes, the
/// padding bytes, or nothing for the version.
pub open spec fn spec_field_content(e: TcpFrameElement, rest: Seq<u8>, padding_len: u8) -> Seq<
    u8,
> {
    match e {
        TcpFrameElement::Version => Seq::empty(),
        TcpFrameElement::Target => rest.subrange(2, 2 + be_u16(rest[0], rest[1])),
        TcpFrameElement::Padding => rest.subrange(1, 1 + padding_len),
    }
}

/// The offset after the first `k` fields of `layout` in `bytes`, or the first
/// error met while reading them.
pub open spec fn spec_decode_prefix(
    layout: Seq<TcpFrameElement>,
    k: int,
    bytes: Seq<u8>,
    padding_len: u8,
) -> Result<int, RequestError>
    decreases k,
{
    if k <= 0 {
        Ok(0)
    } else {
        match spec_decode_prefix(layout, k - 1, bytes, padding_len) {
            Err(e) => Err(e),
            Ok(pos) => match spec_field_len(layout[k - 1], bytes.skip(pos), padding_len) {
                Err(e) => Err(e),
                Ok(n) => Ok(pos + n),
            },
        }
    }
}

/// The content of the last field of kind `want` among the first `k` fields.
pub open spec fn spec_last_field(
    layout: Seq<TcpFrameElement>,
    k: int,
    bytes: Seq<u8>,
    padding_len: u8,
    want: TcpFrameElement,
) -> Option<Seq<u8>>
    decreases k,
{
    if k <= 0 {
        None
    } else if layout[k - 1] == want {
        match spec_decode_prefix(layout, k - 1, bytes, padding_len) {
            Ok(pos) => Some(spec_field_content(want, bytes.skip(pos), padding_len)),
            Err(_) => None,
        }
    } else {
        spec_last_field(layout, k - 1, bytes, padding_len, want)
    }
}

/// What decoding a request frame at the start of `bytes` gives: the target
/// bytes, the padding bytes and the frame's length.
pub open spec fn spec_decode_request(
    layout: Seq<TcpFrameElement>,
    bytes: Seq<u8>,
    padding_len: u8,
) -> Result<(Seq<u8>, Seq<u8>, int), RequestError> {
    match spec_decode_prefix(layout, layout.len() as int, bytes, padding_len) {
        Err(e) => Err(e),
        Ok(end) => match spec_last_field(
            layout,
            layout.len() as int,
            bytes,
            padding_len,
            TcpFrameElement::Target,
        ) {
            None => Err(RequestError::MissingTarget),
            Some(t) => match spec_last_field(
                layout,
                layout.len() as int,
                bytes,
                padding_len,
                TcpFrameElement::Padding,
            ) {
                None => Err(RequestError::MissingPadding),
                Some(p) => Ok((t, p, end)),
            },
        },
    }
}

/// Reading one more field extends the decoded prefix by that field.
proof fn lemma_decode_step(
    layout: Seq<TcpFrameElement>,
    i: int,
    bytes: Seq<u8>,
    padding_len: u8,
    pos: int,
    n: int,
)
    requires
        0 <= i < layout.len(),
        spec_decode_prefix(layout, i, bytes, padding_len) == Ok::<int, RequestError>(pos),
        spec_field_len(layout[i], bytes.skip(pos), padding_len) == Ok::<int, RequestError>(n),
    ensures
        spec_decode_prefix(layout, i + 1, bytes, padding_len) == Ok::<int, RequestError>(pos + n),
        spec_last_field(layout, i + 1, bytes, padding_len, TcpFrameElement::Target) == if layout[i]
            == TcpFrameElement::Target {
            Some(spec_field_content(TcpFrameElement::Target, bytes.skip(pos), padding_len))
        } else {
            spec_last_field(layout, i, bytes, padding_len, TcpFrameElement::Target)
        },
        spec_last_field(layout, i + 1, bytes, padding_len, TcpFrameElement::Padding) == if layout[i]
            == TcpFrameElement::Padding {
            Some(spec_field_content(TcpFrameElement::Padding, bytes.skip(pos), padding_len))
        } else {
            spec_last_field(layout, i, bytes, padding_len, TcpFrameElement::Padding)
        },
{
}

/// Once a field fails, decoding the rest of the layout fails the same way.
pub(crate) proof fn lemma_decode_error(
    layout: Seq<TcpFrameElement>,
    i: int,
    k: int,
    bytes: Seq<u8>,
    padding_len: u8,
    e: RequestError,
)
    requires
        0 <= i < k,
        spec_decode_prefix(layout, i, bytes, padding_len) is Ok,
        spec_field_len(
            layout[i],
            bytes.skip(spec_decode_prefix(layout, i, bytes, padding_len)->Ok_0),
            padding_len,
        ) == Err::<int, RequestError>(e),
    ensures
        spec_decode_prefix(layout, k, bytes, padding_len) == Err::<int, RequestError>(e),
    decreases k - i,
{
    if k > i + 1 {
        lemma_decode_error(layout, i, k - 1, bytes, padding_len, e);
    }
}

/// An error in the first `k` fields is the error of the first `m >= k` fields.
pub(crate) proof fn lemma_decode_error_extends(
    layout: Seq<TcpFrameElement>,
    k: int,
    m: int,
    bytes: Seq<u8>,
    padding_len: u8,
)
    requires
        0 <= k <= m,
        spec_decode_prefix(layout, k, bytes, padding_len) is Err,
    ensures
        spec_decode_prefix(layout, m, bytes, padding_len) == spec_decode_prefix(
            layout,
            k,
            bytes,
            padding_len,
        ),
    decreases m - k,
{
    if m > k {
        lemma_decode_error_extends(layout, k, m - 1, bytes, padding_len);
    }
}

/// A decoded TCP request frame.
#[derive(Debug)]
pub struct DecodedRequest {
    /// The target address.
    pub target: String,
    /// The padding bytes, still to be compared with the derived padding.
    pub padding: Vec<u8>,
    /// The number of bytes the frame took.
    pub frame_len: usize,
}

/// Builds a `String` from bytes with `String::from_utf8`.
#[verifier::external_body]
pub(crate) fn string_from_utf8(bytes: Vec<u8>) -> (res: Option<String>)
    ensures
        res is Some <==> valid_utf8(bytes@),
        res matches Some(s) ==> s@ == decode_utf8(bytes@),
{
    String::from_utf8(bytes).ok()
}

/// Copies `frame[start..end]`.
pub(crate) fn copy_range(frame: &[u8], start: usize, end: usize) -> (res: Vec<u8>)
    requires
        start <= end <= frame@.len(),
    ensures
        res@ == frame@.subrange(start as int, end as int),
{
    let mut out: Vec<u8> = Vec::new();
    let mut i = start;
    while i < end
        invariant
            start <= i <= end,
            end <= frame@.len(),
            out@ == frame@.subrange(start as int, i as int),
        decreases end - i,
    {
        out.push(frame[i]);
        i = i + 1;
        assert(out@ =~= frame@.subrange(start as int, i as int));
    }
    out
}

/// Reads and checks the version byte at `frame[pos]`.
fn decode_version(frame: &[u8], pos: usize, padding_len: u8) -> (res: Result<usize, RequestError>)
    requires
        pos <= frame@.len(),
    ensures
        match spec_field_len(TcpFrameElement::Version, frame@.skip(pos as int), padding_len) {
            Ok(n) => res matches Ok(m) && m == n,
            Err(e) => res matches Err(r) && r == e,
        },
        res matches Ok(m) ==> pos + m <= frame@.len(),
{
    if pos == frame.len() {
        return Err(RequestError::Truncated { part: FramePart::Version, needed: 1 });
    }
    let version = frame[pos];
    if version != PROXY_FRAME_VERSION {
        return Err(RequestError::UnsupportedVersion(version));
    }
    Ok(1)
}

/// Reads and checks the length-prefixed target at `frame[pos..]`.
fn decode_target(frame: &[u8], pos: usize, padding_len: u8) -> (res: Result<(usize, String), RequestError>)
    requires
        pos <= frame@.len(),
    ensures
        match spec_field_len(TcpFrameElement::Target, frame@.skip(pos as int), padding_len) {
            Ok(n) => res matches Ok((m, s)) && m == n && s@ == decode_utf8(
                spec_field_content(TcpFrameElement::Target, frame@.skip(pos as int), padding_len),
            ),
            Err(e) => res matches Err(r) && r == e,
        },
        res matches Ok((m, _)) ==> pos + m <= frame@.len(),
{
    let ghost rest = frame@.skip(pos as int);
    let avail = frame.len() - pos;
    if avail < 2 {
        return Err(RequestError::Truncated { part: FramePart::TargetLength, needed: 2 - avail });
    }
    let hi = frame[pos];
    let lo = frame[pos + 1];
    assert(rest[0] == hi && rest[1] == lo);
    let target_len = hi as usize * 256 + lo as usize;
    if target_len == 0 || target_len > super::util::TARGET_LEN_MAX {
        return Err(RequestError::InvalidTargetLength(target_len));
    }
    if avail - 2 < target_len {
        return Err(
            RequestError::Truncated { part: FramePart::Target, needed: 2 + target_len - avail },
        );
    }
    let bytes = copy_range(frame, pos + 2, pos + 2 + target_len);
    assert(bytes@ =~= rest.subrange(2, 2 + target_len as int));
    let ghost tb = bytes@;
    match string_from_utf8(bytes) {
        None => Err(RequestError::TargetNotUtf8),
        Some(addr) => {
            let a = addr.as_str();
            assert(a.spec_bytes() == tb);
            match validate_target(a) {
                Err(e) => Err(RequestError::InvalidTarget(e)),
                Ok(()) => Ok((2 + target_len, addr)),
            }
        },
    }
}

/// Reads and checks the length-prefixed padding at `frame[pos..]`.
fn decode_padding(frame: &[u8], pos: usize, padding_len: u8) -> (res: Result<
    (usize, Vec<u8>),
    RequestError,
>)
    requires
        pos <= frame@.len(),
    ensures
        match spec_field_len(TcpFrameElement::Padding, frame@.skip(pos as int), padding_len) {
            Ok(n) => res matches Ok((m, p)) && m == n && p@ == spec_field_content(
                TcpFrameElement::Padding,
                frame@.skip(pos as int),
                padding_len,
            ),
            Err(e) => res matches Err(r) && r == e,
        },
        res matches Ok((m, _)) ==> pos + m <= frame@.len(),
{
    let ghost rest = frame@.skip(pos as int);
    let avail = frame.len() - pos;
    if avail < 1 {
        return Err(RequestError::Truncated { part: FramePart::PaddingLength, needed: 1 });
    }
    let got = frame[pos];
    if got != padding_len {
        return Err(RequestError::InvalidPaddingLength { expected: padding_len, got });
    }
    let len = padding_len as usize;
    if avail - 1 < len {
        return Err(
            RequestError::Truncated { part: FramePart::Padding, needed: 1 + len - avail },
        );
    }
    let bytes = copy_range(frame, pos + 1, pos + 1 + len);
    assert(bytes@ =~= rest.subrange(1, 1 + len as int));
    Ok((1 + len, bytes))
}

/// The fields of a request frame decoded so far.
#[derive(Debug)]
pub struct RequestHead {
    /// The target, if a target field has been decoded.
    pub target: Option<String>,
    /// The padding, if a padding field has been decoded.
    pub padding: Option<Vec<u8>>,
    /// How many fields of the layout have been decoded.
    pub fields: usize,
    /// The number of bytes those fields took.
    pub pos: usize,
}

/// Whether `h` is the result of decoding its first `h.fields` fields of
/// `bytes`.
pub open spec fn head_matches(
    h: RequestHead,
    layout: Seq<TcpFrameElement>,
    bytes: Seq<u8>,
    padding_len: u8,
) -> bool {
    &&& h.fields <= layout.len()
    &&& h.pos <= bytes.len()
    &&& spec_decode_prefix(layout, h.fields as int, bytes, padding_len) == Ok::<int, RequestError>(
        h.pos as int,
    )
    &&& match spec_last_field(layout, h.fields as int, bytes, padding_len, TcpFrameElement::Target) {
        None => h.target is None,
        Some(t) => h.target matches Some(s) && s@ == decode_utf8(t),
    }
    &&& match spec_last_field(layout, h.fields as int, bytes, padding_len, TcpFrameElement::Padding) {
        None => h.padding is None,
        Some(p) => h.padding matches Some(v) && v@ == p,
    }
}

/// The number of fields from `k` on that are read before both the target and
/// the padding are known: the first count at or after `k` whose fields hold
/// both, or the whole layout.
pub open spec fn head_len_from(layout: Seq<TcpFrameElement>, k: int) -> int
    decreases layout.len() - k,
{
    if k >= layout.len() {
        layout.len() as int
    } else if layout.take(k).contains(TcpFrameElement::Target) && layout.take(k).contains(
        TcpFrameElement::Padding,
    ) {
        k
    } else {
        head_len_from(layout, k + 1)
    }
}

/// The number of leading fields that hold both the target and the padding,
/// or the whole layout when it lacks one of them.
pub open spec fn head_len(layout: Seq<TcpFrameElement>) -> int {
    head_len_from(layout, 0)
}

/// The first `k` elements hold `want` iff the first `k - 1` do or the `k`-th is it.
pub(crate) proof fn lemma_take_contains(layout: Seq<TcpFrameElement>, k: int, want: TcpFrameElement)
    requires
        0 < k <= layout.len(),
    ensures
        layout.take(k).contains(want) <==> (layout.take(k - 1).contains(want) || layout[k - 1]
            == want),
{
    let a = layout.take(k);
    let b = layout.take(k - 1);
    if a.contains(want) {
        let j = choose|j: int| 0 <= j < a.len() && #[trigger] a[j] == want;
        if j < k - 1 {
            assert(b[j] == want);
        }
    }
    if b.contains(want) {
        let j = choose|j: int| 0 <= j < b.len() && #[trigger] b[j] == want;
        assert(a[j] == want);
    }
    if layout[k - 1] == want {
        assert(a[k - 1] == want);
    }
}

/// Decodes fields `head.fields .. to` after those `head` holds.
fn decode_fields(
    frame: &[u8],
    protocol_spec: &EffectiveProtocolSpec,
    head: RequestHead,
    to: usize,
) -> (res: Result<RequestHead, RequestError>)
    requires
        head_matches(
            head,
            protocol_spec.frame_layout.tcp@,
            frame@,
            protocol_spec.tcp_padding_len,
        ),
        head.fields <= to <= 3,
    ensures
        match spec_decode_prefix(
            protocol_spec.frame_layout.tcp@,
            to as int,
            frame@,
            protocol_spec.tcp_padding_len,
        ) {
            Ok(_) => res matches Ok(h) && h.fields == to && head_matches(
                h,
                protocol_spec.frame_layout.tcp@,
                frame@,
                protocol_spec.tcp_padding_len,
            ),
            Err(e) => res matches Err(r) && r == e,
        },
{
    let layout = protocol_spec.frame_layout.tcp;
    let pl = protocol_spec.tcp_padding_len;
    let ghost glayout = layout@;
    let ghost bytes = frame@;
    let flen = frame.len();
    let RequestHead { target, padding, fields, pos } = head;
    let mut pos: usize = pos;
    let mut target: Option<String> = target;
    let mut padding: Option<Vec<u8>> = padding;
    let mut i: usize = fields;
    while i < to
        invariant
            i <= to <= 3,
            glayout == layout@,
            glayout.len() == 3,
            layout@ == protocol_spec.frame_layout.tcp@,
            pl == protocol_spec.tcp_padding_len,
            bytes == frame@,
            flen == frame@.len(),
            pos <= frame@.len(),
            spec_decode_prefix(glayout, i as int, bytes, pl) == Ok::<int, RequestError>(pos as int),
            match spec_last_field(glayout, i as int, bytes, pl, TcpFrameElement::Target) {
                None => target is None,
                Some(t) => target matches Some(s) && s@ == decode_utf8(t),
            },
            match spec_last_field(glayout, i as int, bytes, pl, TcpFrameElement::Padding) {
                None => padding is None,
                Some(p) => padding matches Some(v) && v@ == p,
            },
        decreases to - i,
    {
        let ghost rest = bytes.skip(pos as int);
        let ghost old_pos = pos as int;
        let e = layout[i];
        match e {
            TcpFrameElement::Version => {
                match decode_version(frame, pos, pl) {
                    Err(err) => {
                        proof {
                            lemma_decode_error(glayout, i as int, to as int, bytes, pl, err);
                        }
                        return Err(err);
                    },
                    Ok(n) => {
                        pos = pos + n;
                    },
                }
            },
            TcpFrameElement::Target => {
                match decode_target(frame, pos, pl) {
                    Err(err) => {
                        proof {
                            lemma_decode_error(glayout, i as int, to as int, bytes, pl, err);
                        }
                        return Err(err);
                    },
                    Ok((n, s)) => {
                        pos = pos + n;
                        target = Some(s);
                    },
                }
            },
            TcpFrameElement::Padding => {
                match decode_padding(frame, pos, pl) {
                    Err(err) => {
                        proof {
                            lemma_decode_error(glayout, i as int, to as int, bytes, pl, err);
                        }
                        return Err(err);
                    },
                    Ok((n, v)) => {
                        pos = pos + n;
                        padding = Some(v);
                    },
                }
            },
        }
        proof {
            assert(spec_field_len(glayout[i as int], rest, pl) == Ok::<int, RequestError>(
                pos - old_pos,
            ));
            lemma_decode_step(glayout, i as int, bytes, pl, old_pos, pos - old_pos);
        }
        i = i + 1;
    }
    Ok(RequestHead { target, padding, fields: to, pos })
}

/// Decodes the leading fields of the request frame at the start of `frame`,
/// in the effective spec's order, up to the point where both the target and
/// the padding are known (or the whole frame, if the layout lacks one). The
/// caller checks the padding against the padding derived for the target
/// before it reads the remaining fields with [`decode_request_tail`].
///
/// Where `frame` ends inside a field, the error says how many more bytes
/// complete that part of it, so a reader can fetch exactly those and try
/// again.
pub fn decode_request_head(frame: &[u8], protocol_spec: &EffectiveProtocolSpec) -> (res: Result<
    RequestHead,
    RequestError,
>)
    ensures
        0 <= head_len(protocol_spec.frame_layout.tcp@) <= 3,
        match spec_decode_prefix(
            protocol_spec.frame_layout.tcp@,
            head_len(protocol_spec.frame_layout.tcp@),
            frame@,
            protocol_spec.tcp_padding_len,
        ) {
            Ok(_) => res matches Ok(h) && h.fields == head_len(protocol_spec.frame_layout.tcp@)
                && head_matches(
                h,
                protocol_spec.frame_layout.tcp@,
                frame@,
                protocol_spec.tcp_padding_len,
            ),
            Err(e) => res matches Err(r) && r == e,
        },
{
    let layout = protocol_spec.frame_layout.tcp;
    let ghost glayout = layout@;
    let mut k: usize = 0;
    let mut seen_target = false;
    let mut seen_padding = false;
    while k < 3 && !(seen_target && seen_padding)
        invariant
            k <= 3,
            glayout == layout@,
            glayout.len() == 3,
            seen_target == glayout.take(k as int).contains(TcpFrameElement::Target),
            seen_padding == glayout.take(k as int).contains(TcpFrameElement::Padding),
            head_len(glayout) == head_len_from(glayout, k as int),
        decreases 3 - k,
    {
        proof {
            lemma_take_contains(glayout, k + 1, TcpFrameElement::Target);
            lemma_take_contains(glayout, k + 1, TcpFrameElement::Padding);
        }
        if layout[k] == TcpFrameElement::Target {
            seen_target = true;
        }
        if layout[k] == TcpFrameElement::Padding {
            seen_padding = true;
        }
        k = k + 1;
    }
    assert(head_len_from(glayout, k as int) == k);
    let start = RequestHead { target: None, padding: None, fields: 0, pos: 0 };
    decode_fields(frame, protocol_spec, start, k)
}

/// Decodes the remaining fields of the request frame after `head`, and
/// gives the whole frame's target, padding and length.
pub fn decode_request_tail(
    frame: &[u8],
    protocol_spec: &EffectiveProtocolSpec,
    head: RequestHead,
) -> (res: Result<DecodedRequest, RequestError>)
    requires
        head_matches(
            head,
            protocol_spec.frame_layout.tcp@,
            frame@,
            protocol_spec.tcp_padding_len,
        ),
    ensures
        match spec_decode_request(
            protocol_spec.frame_layout.tcp@,
            frame@,
            protocol_spec.tcp_padding_len,
        ) {
            Ok((t, p, end)) => res matches Ok(d) && d.target@ == decode_utf8(t) && d.padding@
                == p && d.frame_len == end,
            Err(e) => res matches Err(r) && r == e,
        },
{
    let whole = decode_fields(frame, protocol_spec, head, 3)?;
    let RequestHead { target, padding, fields: _, pos } = whole;
    match target {
        None => Err(RequestError::MissingTarget),
        Some(t) => match padding {
            None => Err(RequestError::MissingPadding),
            Some(p) => Ok(DecodedRequest { target: t, padding: p, frame_len: pos }),
        },
    }
}

/// Decodes the request frame at the start of `frame`, field by field in the
/// effective spec's order; the padding is returned to be checked against
/// the derived padding.
pub fn decode_request_frame(frame: &[u8], protocol_spec: &EffectiveProtocolSpec) -> (res: Result<
    DecodedRequest,
    RequestError,
>)
    ensures
        match spec_decode_request(
            protocol_spec.frame_layout.tcp@,
            frame@,
            protocol_spec.tcp_padding_len,
        ) {
            Ok((t, p, end)) => res matches Ok(d) && d.target@ == decode_utf8(t) && d.padding@
                == p && d.frame_len == end,
            Err(e) => res matches Err(r) && r == e,
        },
{
    let head = decode_request_head(frame, protocol_spec);
    match head {
        Err(e) => {
            proof {
                let layout = protocol_spec.frame_layout.tcp@;
                let pl = protocol_spec.tcp_padding_len;
                lemma_decode_error_extends(layout, head_len(layout), 3, frame@, pl);
            }
            Err(e)
        },
        Ok(h) => decode_request_tail(frame, protocol_spec, h),
    }
}

/// Checks received padding against the padding the effective spec derives
/// for the received target.
pub fn validate_padding(expected: &[u8], padding: &[u8]) -> (res: Result<(), RequestError>)
    ensures
        res is Ok <==> padding@ == expected@,
        res matches Err(e) ==> e is InvalidPadding,
{
    if padding.len() != expected.len() {
        return Err(RequestError::InvalidPadding);
    }
    let mut i: usize = 0;
    while i < padding.len()
        invariant
            i <= padding@.len(),
            padding@.len() == expected@.len(),
            forall|k: int| 0 <= k < i ==> padding@[k] == expected@[k],
        decreases padding@.len() - i,
    {
        if padding[i] != expected[i] {
            return Err(RequestError::InvalidPadding);
        }
        i = i + 1;
    }
    assert(padding@ =~= expected@);
    Ok(())
}

} // verus!
