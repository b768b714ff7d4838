//! Laws of the TCP request frame: decoding gives back what was written, and
//! what the decoder accepts is exactly a frame that the writer produces.

use vstd::prelude::*;
use vstd::utf8::*;

use super::request::{
    RequestError, TcpFrameElement, be_u16, field_bytes, frame_bytes, frame_prefix,
    spec_decode_prefix, spec_decode_request, spec_field_content, spec_field_len, spec_last_field,
    spec_write_request_frame, u16_be, EffectiveProtocolSpec, PROXY_FRAME_VERSION,
    lemma_decode_error, lemma_take_contains,
};
use super::util::{spec_validate_target, target_len_ok};

verus! {

/// The length of a target fits the two-byte header.
proof fn lemma_u16_be_roundtrip(n: nat)
    requires
        n <= 512,
    ensures
        be_u16(u16_be(n)[0], u16_be(n)[1]) == n,
{
}

/// Two header bytes encode back to themselves.
proof fn lemma_be_u16_roundtrip(hi: u8, lo: u8)
    ensures
        u16_be(be_u16(hi, lo) as nat) == seq![hi, lo],
{
    let n = be_u16(hi, lo);
    assert(n / 256 == hi as int);
    assert(n % 256 == lo as int);
    assert(u16_be(n as nat) =~= seq![hi, lo]);
}

/// The first `k` fields of a frame are a prefix of its first `m` fields.
proof fn lemma_frame_prefix_grows(
    layout: Seq<TcpFrameElement>,
    k: int,
    m: int,
    target: Seq<u8>,
    padding_len: u8,
    padding: Seq<u8>,
)
    requires
        0 <= k <= m,
    ensures
        frame_prefix(layout, k, target, padding_len, padding).len() <= frame_prefix(
            layout,
            m,
            target,
            padding_len,
            padding,
        ).len(),
        frame_prefix(layout, m, target, padding_len, padding).take(
            frame_prefix(layout, k, target, padding_len, padding).len() as int,
        ) == frame_prefix(layout, k, target, padding_len, padding),
    decreases m - k,
{
    let pk = frame_prefix(layout, k, target, padding_len, padding);
    let pm = frame_prefix(layout, m, target, padding_len, padding);
    if k == m {
        assert(pm.take(pk.len() as int) =~= pk);
    } else {
        lemma_frame_prefix_grows(layout, k, m - 1, target, padding_len, padding);
        let pm1 = frame_prefix(layout, m - 1, target, padding_len, padding);
        assert(pm == pm1 + field_bytes(layout[m - 1], target, padding_len, padding));
        assert(pm.take(pk.len() as int) =~= pm1.take(pk.len() as int));
    }
}

/// A well-formed field at the start of `r` is read back whole.
proof fn lemma_field_reads_back(
    e: TcpFrameElement,
    r: Seq<u8>,
    target: Seq<u8>,
    padding_len: u8,
    padding: Seq<u8>,
)
    requires
        target_len_ok(target.len() as int),
        valid_utf8(target),
        spec_validate_target(target) is Ok,
        padding.len() == padding_len,
        r.len() >= field_bytes(e, target, padding_len, padding).len(),
        r.take(field_bytes(e, target, padding_len, padding).len() as int) == field_bytes(
            e,
            target,
            padding_len,
            padding,
        ),
    ensures
        spec_field_len(e, r, padding_len) == Ok::<int, RequestError>(
            field_bytes(e, target, padding_len, padding).len() as int,
        ),
        e == TcpFrameElement::Target ==> spec_field_content(e, r, padding_len) == target,
        e == TcpFrameElement::Padding ==> spec_field_content(e, r, padding_len) == padding,
{
    let f = field_bytes(e, target, padding_len, padding);
    assert(forall|i: int| 0 <= i < f.len() ==> r[i] == #[trigger] f[i]) by {
        assert forall|i: int| 0 <= i < f.len() implies r[i] == #[trigger] f[i] by {
            assert(r.take(f.len() as int)[i] == r[i]);
        }
    }
    match e {
        TcpFrameElement::Version => {
            assert(f[0] == PROXY_FRAME_VERSION);
            assert(r[0] == PROXY_FRAME_VERSION);
        },
        TcpFrameElement::Target => {
            let n = target.len();
            lemma_u16_be_roundtrip(n);
            assert(f[0] == u16_be(n)[0]);
            assert(f[1] == u16_be(n)[1]);
            assert(r[0] == u16_be(n)[0]);
            assert(r[1] == u16_be(n)[1]);
            assert(be_u16(r[0], r[1]) == n);
            assert(r.subrange(2, 2 + n as int) =~= target) by {
                assert forall|i: int| 0 <= i < n implies r.subrange(2, 2 + n as int)[i]
                    == target[i] by {
                    assert(f[2 + i] == target[i]);
                }
            }
        },
        TcpFrameElement::Padding => {
            assert(f[0] == padding_len);
            assert(r[0] == padding_len);
            assert(r.subrange(1, 1 + padding_len as int) =~= padding) by {
                assert forall|i: int| 0 <= i < padding_len implies r.subrange(
                    1,
                    1 + padding_len as int,
                )[i] == padding[i] by {
                    assert(f[1 + i] == padding[i]);
                }
            }
        },
    }
}

/// Decoding the first `k` fields of a written frame reads each field back.
proof fn lemma_decode_written_prefix(
    layout: Seq<TcpFrameElement>,
    k: int,
    target: Seq<u8>,
    padding_len: u8,
    padding: Seq<u8>,
    rest: Seq<u8>,
)
    requires
        0 <= k <= layout.len(),
        target_len_ok(target.len() as int),
        valid_utf8(target),
        spec_validate_target(target) is Ok,
        padding.len() == padding_len,
    ensures
        ({
            let bytes = frame_bytes(layout, target, padding_len, padding) + rest;
            &&& spec_decode_prefix(layout, k, bytes, padding_len) == Ok::<int, RequestError>(
                frame_prefix(layout, k, target, padding_len, padding).len() as int,
            )
            &&& spec_last_field(layout, k, bytes, padding_len, TcpFrameElement::Target) == if layout.take(
                k,
            ).contains(TcpFrameElement::Target) {
                Some(target)
            } else {
                None
            }
            &&& spec_last_field(layout, k, bytes, padding_len, TcpFrameElement::Padding) == if layout.take(
                k,
            ).contains(TcpFrameElement::Padding) {
                Some(padding)
            } else {
                None
            }
        }),
    decreases k,
{
    let bytes = frame_bytes(layout, target, padding_len, padding) + rest;
    if k == 0 {
        assert(!layout.take(0).contains(TcpFrameElement::Target));
        assert(!layout.take(0).contains(TcpFrameElement::Padding));
    } else {
        lemma_decode_written_prefix(layout, k - 1, target, padding_len, padding, rest);
        let pk1 = frame_prefix(layout, k - 1, target, padding_len, padding);
        let pk = frame_prefix(layout, k, target, padding_len, padding);
        let f = field_bytes(layout[k - 1], target, padding_len, padding);
        let whole = frame_bytes(layout, target, padding_len, padding);
        lemma_frame_prefix_grows(layout, k, layout.len() as int, target, padding_len, padding);
        assert(pk == pk1 + f);
        let r = bytes.skip(pk1.len() as int);
        assert(r.take(f.len() as int) =~= f) by {
            assert forall|i: int| 0 <= i < f.len() implies r.take(f.len() as int)[i] == f[i] by {
                assert(r[i] == bytes[pk1.len() + i]);
                assert(bytes[pk1.len() + i] == whole[pk1.len() + i]);
                assert(whole[pk1.len() + i] == whole.take(pk.len() as int)[pk1.len() + i]);
                assert(pk[pk1.len() + i] == f[i]);
            }
        }
        lemma_field_reads_back(layout[k - 1], r, target, padding_len, padding);
        assert(layout.take(k) =~= layout.take(k - 1).push(layout[k - 1]));
        lemma_take_contains(layout, k, TcpFrameElement::Target);
        lemma_take_contains(layout, k, TcpFrameElement::Padding);
    }
}

/// Reading a frame back gives what was written: for a target that the writer
/// accepts and padding of the spec's length, decoding the written frame,
/// whatever follows it, yields that target, that padding and the frame's
/// length, provided the layout holds a target and a padding field.
pub proof fn law_decode_inverts_write(
    layout: Seq<TcpFrameElement>,
    target: Seq<u8>,
    padding_len: u8,
    padding: Seq<u8>,
    rest: Seq<u8>,
)
    requires
        valid_utf8(target),
        padding.len() == padding_len,
        layout.contains(TcpFrameElement::Target),
        layout.contains(TcpFrameElement::Padding),
        spec_write_request_frame(layout, target, padding_len, padding) is Ok,
    ensures
        ({
            let frame = spec_write_request_frame(layout, target, padding_len, padding)->Ok_0;
            spec_decode_request(layout, frame + rest, padding_len) == Ok::<
                (Seq<u8>, Seq<u8>, int),
                RequestError,
            >((target, padding, frame.len() as int))
        }),
{
    lemma_decode_written_prefix(layout, layout.len() as int, target, padding_len, padding, rest);
    assert(layout.take(layout.len() as int) =~= layout);
}


/// `want` occurs at most once in `layout`.
pub open spec fn at_most_once(layout: Seq<TcpFrameElement>, want: TcpFrameElement) -> bool {
    forall|i: int, j: int|
        0 <= i < layout.len() && 0 <= j < layout.len() && #[trigger] layout[i] == want
            && #[trigger] layout[j] == want ==> i == j
}

/// A layout decodes up to `m` fields only if it decodes up to each `k <= m`.
proof fn lemma_prefix_ok_down(
    layout: Seq<TcpFrameElement>,
    k: int,
    m: int,
    bytes: Seq<u8>,
    padding_len: u8,
)
    requires
        0 <= k <= m,
        spec_decode_prefix(layout, m, bytes, padding_len) is Ok,
    ensures
        spec_decode_prefix(layout, k, bytes, padding_len) is Ok,
    decreases m - k,
{
    if k < m {
        lemma_prefix_ok_down(layout, k, m - 1, bytes, padding_len);
    }
}

/// The last field of kind `want` is the one at `j` when none follows it.
proof fn lemma_last_field_at(
    layout: Seq<TcpFrameElement>,
    j: int,
    m: int,
    bytes: Seq<u8>,
    padding_len: u8,
    want: TcpFrameElement,
)
    requires
        0 <= j < m <= layout.len(),
        layout[j] == want,
        forall|i: int| j < i < m ==> layout[i] != want,
        spec_decode_prefix(layout, j, bytes, padding_len) is Ok,
    ensures
        spec_last_field(layout, m, bytes, padding_len, want) == Some(
            spec_field_content(
                want,
                bytes.skip(spec_decode_prefix(layout, j, bytes, padding_len)->Ok_0),
                padding_len,
            ),
        ),
    decreases m - j,
{
    if m > j + 1 {
        lemma_last_field_at(layout, j, m - 1, bytes, padding_len, want);
    }
}

/// A field that reads without error is the encoding of its own content.
proof fn lemma_field_is_encoding(
    e: TcpFrameElement,
    r: Seq<u8>,
    padding_len: u8,
    n: int,
    target: Seq<u8>,
    padding: Seq<u8>,
)
    requires
        spec_field_len(e, r, padding_len) == Ok::<int, RequestError>(n),
        e == TcpFrameElement::Target ==> target == spec_field_content(e, r, padding_len),
        e == TcpFrameElement::Padding ==> padding == spec_field_content(e, r, padding_len),
    ensures
        0 <= n <= r.len(),
        r.take(n) == field_bytes(e, target, padding_len, padding),
        e == TcpFrameElement::Target ==> {
            &&& target_len_ok(target.len() as int)
            &&& valid_utf8(target)
            &&& spec_validate_target(target) is Ok
        },
        e == TcpFrameElement::Padding ==> padding.len() == padding_len,
{
    match e {
        TcpFrameElement::Version => {
            assert(r.take(n) =~= seq![PROXY_FRAME_VERSION]);
        },
        TcpFrameElement::Target => {
            lemma_be_u16_roundtrip(r[0], r[1]);
            assert(r.take(n) =~= seq![r[0], r[1]] + target);
        },
        TcpFrameElement::Padding => {
            assert(r.take(n) =~= seq![padding_len] + padding);
        },
    }
}

/// The bytes that the first `k` fields took are those fields' encoding, with
/// the target and padding that the whole frame decodes to.
proof fn lemma_decoded_prefix_is_written(
    layout: Seq<TcpFrameElement>,
    k: int,
    bytes: Seq<u8>,
    padding_len: u8,
    target: Seq<u8>,
    padding: Seq<u8>,
)
    requires
        0 <= k <= layout.len(),
        at_most_once(layout, TcpFrameElement::Target),
        at_most_once(layout, TcpFrameElement::Padding),
        spec_decode_prefix(layout, layout.len() as int, bytes, padding_len) is Ok,
        spec_last_field(layout, layout.len() as int, bytes, padding_len, TcpFrameElement::Target)
            == Some(target),
        spec_last_field(layout, layout.len() as int, bytes, padding_len, TcpFrameElement::Padding)
            == Some(padding),
    ensures
        spec_decode_prefix(layout, k, bytes, padding_len) is Ok,
        ({
            let pos = spec_decode_prefix(layout, k, bytes, padding_len)->Ok_0;
            &&& 0 <= pos <= bytes.len()
            &&& bytes.take(pos) == frame_prefix(layout, k, target, padding_len, padding)
        }),
    decreases k,
{
    let n = layout.len() as int;
    lemma_prefix_ok_down(layout, k, n, bytes, padding_len);
    if k == 0 {
        assert(bytes.take(0) =~= Seq::<u8>::empty());
    } else {
        lemma_decoded_prefix_is_written(layout, k - 1, bytes, padding_len, target, padding);
        let p0 = spec_decode_prefix(layout, k - 1, bytes, padding_len)->Ok_0;
        let r = bytes.skip(p0);
        let e = layout[k - 1];
        let len = spec_field_len(e, r, padding_len)->Ok_0;
        if e == TcpFrameElement::Target || e == TcpFrameElement::Padding {
            assert forall|i: int| k - 1 < i < n implies layout[i] != e by {
                if layout[i] == e {
                    assert(layout[k - 1] == e);
                }
            }
            lemma_last_field_at(layout, k - 1, n, bytes, padding_len, e);
        }
        lemma_field_is_encoding(e, r, padding_len, len, target, padding);
        assert(bytes.take(p0 + len) =~= bytes.take(p0) + r.take(len));
    }
}

/// What the decoder accepts is exactly a frame that the writer produces:
/// when decoding succeeds, the bytes it took are the frame that
/// [`write_request_frame`](super::request::write_request_frame) writes for the
/// decoded target and padding. The target and the padding may each appear at
/// most once in the layout, as in every derived layout.
pub proof fn law_decoded_frame_is_written(
    layout: Seq<TcpFrameElement>,
    bytes: Seq<u8>,
    padding_len: u8,
)
    requires
        at_most_once(layout, TcpFrameElement::Target),
        at_most_once(layout, TcpFrameElement::Padding),
        spec_decode_request(layout, bytes, padding_len) is Ok,
    ensures
        ({
            let (target, padding, end) = spec_decode_request(layout, bytes, padding_len)->Ok_0;
            &&& valid_utf8(target)
            &&& padding.len() == padding_len
            &&& 0 <= end <= bytes.len()
            &&& spec_write_request_frame(layout, target, padding_len, padding) == Ok::<
                Seq<u8>,
                RequestError,
            >(bytes.take(end))
        }),
{
    let n = layout.len() as int;
    let (target, padding, end) = spec_decode_request(layout, bytes, padding_len)->Ok_0;
    lemma_decoded_prefix_is_written(layout, n, bytes, padding_len, target, padding);
    // Find the target and padding fields to learn their validity.
    let want_t = TcpFrameElement::Target;
    let want_p = TcpFrameElement::Padding;
    lemma_last_field_some_has_field(layout, n, bytes, padding_len, want_t);
    lemma_last_field_some_has_field(layout, n, bytes, padding_len, want_p);
}

/// A `Some` from the last-field search comes from a field that decoded
/// without error, whose content has that field's validity.
proof fn lemma_last_field_some_has_field(
    layout: Seq<TcpFrameElement>,
    m: int,
    bytes: Seq<u8>,
    padding_len: u8,
    want: TcpFrameElement,
)
    requires
        0 <= m <= layout.len(),
        spec_decode_prefix(layout, m, bytes, padding_len) is Ok,
        spec_last_field(layout, m, bytes, padding_len, want) is Some,
    ensures
        ({
            let c = spec_last_field(layout, m, bytes, padding_len, want)->Some_0;
            &&& want == TcpFrameElement::Target ==> {
                &&& target_len_ok(c.len() as int)
                &&& valid_utf8(c)
                &&& spec_validate_target(c) is Ok
            }
            &&& want == TcpFrameElement::Padding ==> c.len() == padding_len
        }),
    decreases m,
{
    if m > 0 {
        lemma_prefix_ok_down(layout, m - 1, m, bytes, padding_len);
        if layout[m - 1] == want {
            let p0 = spec_decode_prefix(layout, m - 1, bytes, padding_len)->Ok_0;
            let r = bytes.skip(p0);
            let len = spec_field_len(want, r, padding_len)->Ok_0;
            let c = spec_field_content(want, r, padding_len);
            lemma_field_is_encoding(want, r, padding_len, len, c, c);
        } else {
            lemma_last_field_some_has_field(layout, m - 1, bytes, padding_len, want);
        }
    }
}


/// For a spec whose layout orders the three fields, reading back what the
/// writer wrote for a target, with the spec's padding, gives that target and
/// padding and takes exactly the written bytes, whatever follows them.
pub proof fn law_read_inverts_write_for_spec(
    protocol_spec: EffectiveProtocolSpec,
    target: Seq<u8>,
    padding: Seq<u8>,
    rest: Seq<u8>,
)
    requires
        protocol_spec.frame_layout.wf(),
        valid_utf8(target),
        padding.len() == protocol_spec.tcp_padding_len,
        spec_write_request_frame(
            protocol_spec.frame_layout.tcp@,
            target,
            protocol_spec.tcp_padding_len,
            padding,
        ) is Ok,
    ensures
        ({
            let layout = protocol_spec.frame_layout.tcp@;
            let pl = protocol_spec.tcp_padding_len;
            let frame = spec_write_request_frame(layout, target, pl, padding)->Ok_0;
            spec_decode_request(layout, frame + rest, pl) == Ok::<
                (Seq<u8>, Seq<u8>, int),
                RequestError,
            >((target, padding, frame.len() as int))
        }),
{
    law_decode_inverts_write(
        protocol_spec.frame_layout.tcp@,
        target,
        protocol_spec.tcp_padding_len,
        padding,
        rest,
    );
}

/// The frame that the writer produces depends only on the target, the field
/// order, the padding length and the padding: two peers that agree on these
/// write the same bytes, every time.
pub proof fn law_write_is_deterministic(
    spec1: EffectiveProtocolSpec,
    spec2: EffectiveProtocolSpec,
    target: Seq<u8>,
    padding: Seq<u8>,
)
    requires
        spec1.frame_layout.tcp@ == spec2.frame_layout.tcp@,
        spec1.tcp_padding_len == spec2.tcp_padding_len,
    ensures
        spec_write_request_frame(spec1.frame_layout.tcp@, target, spec1.tcp_padding_len, padding)
            == spec_write_request_frame(
            spec2.frame_layout.tcp@,
            target,
            spec2.tcp_padding_len,
            padding,
        ),
{
}

/// Bytes that begin with the encoding of the first `j` fields decode those
/// fields, whatever comes after them.
proof fn lemma_decode_matching_prefix(
    layout: Seq<TcpFrameElement>,
    j: int,
    target: Seq<u8>,
    padding_len: u8,
    padding: Seq<u8>,
    bytes: Seq<u8>,
)
    requires
        0 <= j <= layout.len(),
        target_len_ok(target.len() as int),
        valid_utf8(target),
        spec_validate_target(target) is Ok,
        padding.len() == padding_len,
        bytes.len() >= frame_prefix(layout, j, target, padding_len, padding).len(),
        bytes.take(frame_prefix(layout, j, target, padding_len, padding).len() as int)
            == frame_prefix(layout, j, target, padding_len, padding),
    ensures
        spec_decode_prefix(layout, j, bytes, padding_len) == Ok::<int, RequestError>(
            frame_prefix(layout, j, target, padding_len, padding).len() as int,
        ),
    decreases j,
{
    if j > 0 {
        let p0 = frame_prefix(layout, j - 1, target, padding_len, padding);
        let pj = frame_prefix(layout, j, target, padding_len, padding);
        let f = field_bytes(layout[j - 1], target, padding_len, padding);
        assert(pj == p0 + f);
        assert(bytes.take(p0.len() as int) =~= p0) by {
            assert forall|i: int| 0 <= i < p0.len() implies bytes.take(p0.len() as int)[i]
                == p0[i] by {
                assert(bytes.take(pj.len() as int)[i] == pj[i]);
            }
        }
        lemma_decode_matching_prefix(layout, j - 1, target, padding_len, padding, bytes);
        let r = bytes.skip(p0.len() as int);
        assert(r.take(f.len() as int) =~= f) by {
            assert forall|i: int| 0 <= i < f.len() implies r.take(f.len() as int)[i] == f[i] by {
                assert(bytes.take(pj.len() as int)[p0.len() + i] == pj[p0.len() + i]);
            }
        }
        lemma_field_reads_back(layout[j - 1], r, target, padding_len, padding);
    }
}

/// A strict prefix of a well-formed field is reported as truncated.
proof fn lemma_field_prefix_truncated(
    e: TcpFrameElement,
    r: Seq<u8>,
    target: Seq<u8>,
    padding_len: u8,
    padding: Seq<u8>,
)
    requires
        target_len_ok(target.len() as int),
        padding.len() == padding_len,
        r.len() < field_bytes(e, target, padding_len, padding).len(),
        r == field_bytes(e, target, padding_len, padding).take(r.len() as int),
    ensures
        spec_field_len(e, r, padding_len) matches Err(RequestError::Truncated { .. }),
{
    let f = field_bytes(e, target, padding_len, padding);
    match e {
        TcpFrameElement::Version => {},
        TcpFrameElement::Target => {
            if r.len() >= 2 {
                let n = target.len();
                lemma_u16_be_roundtrip(n);
                assert(r[0] == f[0] && f[0] == u16_be(n)[0]);
                assert(r[1] == f[1] && f[1] == u16_be(n)[1]);
            }
        },
        TcpFrameElement::Padding => {
            if r.len() >= 1 {
                assert(r[0] == f[0]);
            }
        },
    }
}

/// Decoding a truncated written frame from field `j` on fails as truncated.
proof fn lemma_truncated_from(
    layout: Seq<TcpFrameElement>,
    j: int,
    target: Seq<u8>,
    padding_len: u8,
    padding: Seq<u8>,
    k: int,
)
    requires
        0 <= j < layout.len(),
        target_len_ok(target.len() as int),
        valid_utf8(target),
        spec_validate_target(target) is Ok,
        padding.len() == padding_len,
        frame_prefix(layout, j, target, padding_len, padding).len() <= k,
        0 <= k < frame_bytes(layout, target, padding_len, padding).len(),
    ensures
        spec_decode_prefix(
            layout,
            layout.len() as int,
            frame_bytes(layout, target, padding_len, padding).take(k),
            padding_len,
        ) matches Err(RequestError::Truncated { .. }),
    decreases layout.len() - j,
{
    let n = layout.len() as int;
    let whole = frame_bytes(layout, target, padding_len, padding);
    let bytes = whole.take(k);
    let p0 = frame_prefix(layout, j, target, padding_len, padding);
    let p1 = frame_prefix(layout, j + 1, target, padding_len, padding);
    let f = field_bytes(layout[j], target, padding_len, padding);
    lemma_frame_prefix_grows(layout, j, n, target, padding_len, padding);
    lemma_frame_prefix_grows(layout, j + 1, n, target, padding_len, padding);
    assert(p1 == p0 + f);
    if p1.len() > k {
        assert(bytes.take(p0.len() as int) =~= p0) by {
            assert forall|i: int| 0 <= i < p0.len() implies bytes.take(p0.len() as int)[i]
                == p0[i] by {
                assert(whole.take(p1.len() as int)[i] == p1[i]);
            }
        }
        lemma_decode_matching_prefix(layout, j, target, padding_len, padding, bytes);
        let r = bytes.skip(p0.len() as int);
        assert(r =~= f.take(r.len() as int)) by {
            assert forall|i: int| 0 <= i < r.len() implies r[i] == f[i] by {
                assert(whole.take(p1.len() as int)[p0.len() + i] == p1[p0.len() + i]);
            }
        }
        lemma_field_prefix_truncated(layout[j], r, target, padding_len, padding);
        let e = spec_field_len(layout[j], r, padding_len)->Err_0;
        lemma_decode_error(layout, j, n, bytes, padding_len, e);
    } else {
        if j + 1 == n {
            assert(p1 == whole);
        }
        lemma_truncated_from(layout, j + 1, target, padding_len, padding, k);
    }
}

/// A truncated frame is never accepted: decoding any strict prefix of a
/// frame that the writer produced fails, saying the input is truncated.
pub proof fn law_truncated_frame_is_refused(
    layout: Seq<TcpFrameElement>,
    target: Seq<u8>,
    padding_len: u8,
    padding: Seq<u8>,
    k: int,
)
    requires
        valid_utf8(target),
        padding.len() == padding_len,
        spec_write_request_frame(layout, target, padding_len, padding) is Ok,
        0 <= k < spec_write_request_frame(layout, target, padding_len, padding)->Ok_0.len(),
    ensures
        spec_decode_request(
            layout,
            spec_write_request_frame(layout, target, padding_len, padding)->Ok_0.take(k),
            padding_len,
        ) matches Err(RequestError::Truncated { .. }),
{
    if layout.len() == 0 {
        assert(frame_bytes(layout, target, padding_len, padding).len() == 0);
    }
    lemma_truncated_from(layout, 0, target, padding_len, padding, k);
}

} // verus!
