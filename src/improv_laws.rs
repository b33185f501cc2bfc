//! Laws of the frame codec: decoding inverts encoding, a cut-off frame is
//! only ever `Incomplete`, and a changed byte under the checksum is caught.

use vstd::prelude::*;
use vstd::utf8::*;

use crate::improv_wifi::{
    byte_sum, checksum_of, command_data, command_id, decode_frame, encode_frame, frame_body,
    frame_fits, frame_layout, frame_magic, len_byte, lemma_byte_sum_append, parse_payload,
    parse_string, parse_strings, payload_bytes, string_field, string_fits, strings_field, type_id,
    CommandModel, FramePayload, ParseError, TERMINATOR,
};

verus! {

broadcast use {encode_utf8_valid_utf8, encode_utf8_decode_utf8};

// Reading back what was written ====================================

proof fn lemma_len_byte_small(n: int)
    requires
        0 <= n <= 255,
    ensures
        len_byte(n) == n,
{
}

proof fn lemma_parse_string_field(b: Seq<u8>, pos: int, s: Seq<char>)
    requires
        0 <= pos,
        string_fits(s),
        pos + string_field(s).len() <= b.len(),
        b.subrange(pos, pos + string_field(s).len()) == string_field(s),
    ensures
        parse_string(b, pos) == Ok::<(Seq<char>, int), ParseError>(
            (s, pos + string_field(s).len()),
        ),
{
    let n = encode_utf8(s).len() as int;
    let field = string_field(s);
    lemma_len_byte_small(n);
    assert(b[pos] == field[0]);
    assert(b.subrange(pos + 1, pos + 1 + n) =~= field.subrange(1, 1 + n));
    assert(field.subrange(1, 1 + n) =~= encode_utf8(s));
}

proof fn lemma_parse_strings_field(b: Seq<u8>, start: int, pos: int, ss: Seq<Seq<char>>)
    requires
        0 <= start <= pos,
        forall|i: int| 0 <= i < ss.len() ==> string_fits(#[trigger] ss[i]),
        pos + strings_field(ss).len() <= b.len(),
        b.subrange(pos, pos + strings_field(ss).len()) == strings_field(ss),
    ensures
        parse_strings(b, start, pos, pos - start + strings_field(ss).len()) == Ok::<
            (Seq<Seq<char>>, int),
            ParseError,
        >((ss, pos + strings_field(ss).len())),
    decreases ss.len(),
{
    let limit = pos - start + strings_field(ss).len();
    if ss.len() == 0 {
        assert(ss =~= Seq::<Seq<char>>::empty());
    } else {
        let f0 = string_field(ss[0]);
        let rest = ss.drop_first();
        let all = strings_field(ss);
        assert(all == f0 + strings_field(rest));
        assert(string_fits(ss[0]));
        assert(b.subrange(pos, pos + f0.len()) =~= all.subrange(0, f0.len() as int));
        assert(all.subrange(0, f0.len() as int) =~= f0);
        lemma_parse_string_field(b, pos, ss[0]);
        let p = pos + f0.len();
        assert forall|i: int| 0 <= i < rest.len() implies string_fits(#[trigger] rest[i]) by {
            assert(rest[i] == ss[i + 1]);
        }
        assert(b.subrange(p, p + strings_field(rest).len()) =~= all.subrange(
            f0.len() as int,
            all.len() as int,
        ));
        assert(all.subrange(f0.len() as int, all.len() as int) =~= strings_field(rest));
        lemma_parse_strings_field(b, start, p, rest);
        assert(p - start + strings_field(rest).len() == limit);
        assert(seq![ss[0]] + rest =~= ss);
    }
}

proof fn lemma_parse_payload_encoded(b: Seq<u8>, pos: int, f: FramePayload)
    requires
        0 <= pos,
        frame_fits(f),
        pos + payload_bytes(f).len() <= b.len(),
        b.subrange(pos, pos + payload_bytes(f).len()) == payload_bytes(f),
    ensures
        parse_payload(b, pos, type_id(f)) == Ok::<(FramePayload, int), ParseError>(
            (f, pos + payload_bytes(f).len()),
        ),
{
    let pb = payload_bytes(f);
    assert(b[pos] == pb[0]);
    match f {
        FramePayload::CurrentState(s) => {},
        FramePayload::ErrorState(e) => {},
        FramePayload::Command(c) => {
            assert(b[pos] == command_id(c));
            match c {
                CommandModel::SendWifiSettings(ssid, password) => {
                    let f1 = string_field(ssid);
                    let f2 = string_field(password);
                    let n1 = f1.len() as int;
                    assert(pb =~= seq![command_id(c), len_byte(command_data(c).len() as int)] + f1
                        + f2);
                    assert(b.subrange(pos + 2, pos + 2 + n1) =~= pb.subrange(
                        2,
                        2 + n1,
                    ));
                    assert(pb.subrange(2, 2 + n1) =~= f1);
                    lemma_parse_string_field(b, pos + 2, ssid);
                    let p = pos + 2 + n1;
                    assert(b.subrange(p, p + f2.len()) =~= pb.subrange(
                        2 + n1,
                        pb.len() as int,
                    ));
                    assert(pb.subrange(2 + n1, pb.len() as int) =~= f2);
                    lemma_parse_string_field(b, p, password);
                },
                _ => {},
            }
        },
        FramePayload::Result(command, strings) => {
            let sf = strings_field(strings);
            lemma_len_byte_small(sf.len() as int);
            assert(b[pos + 1] == pb[1]);
            assert(b.subrange(pos + 2, pos + 2 + sf.len()) =~= pb.subrange(2, pb.len() as int));
            assert(pb.subrange(2, pb.len() as int) =~= sf);
            lemma_parse_strings_field(b, pos + 2, pos + 2, strings);
        },
    }
}

/// Decoding an encoded frame gives the frame back, and consumes exactly
/// its bytes.
pub proof fn lemma_decode_encode(f: FramePayload)
    requires
        frame_fits(f),
    ensures
        decode_frame(encode_frame(f)) == Ok::<(FramePayload, int), ParseError>(
            (f, encode_frame(f).len() as int),
        ),
{
    let e = encode_frame(f);
    let body = frame_body(f);
    let pb = payload_bytes(f);
    let q = body.len() as int;
    assert(e.take(7) =~= frame_magic());
    assert(e[7] == type_id(f));
    assert(e.subrange(9, 9 + pb.len() as int) =~= pb);
    lemma_parse_payload_encoded(e, 9, f);
    assert(q == 9 + pb.len());
    assert(e[q] == checksum_of(body));
    assert(e[q + 1] == TERMINATOR);
    assert(e.take(q) =~= body);
    assert(frame_layout(e) == Ok::<(FramePayload, int), ParseError>((f, q + 2)));
}

/// Credentials of up to 255 bytes each come back from a `SendWifiSettings`
/// frame exactly as they were sent.
pub proof fn lemma_wifi_settings_round_trip(ssid: Seq<char>, password: Seq<char>)
    requires
        string_fits(ssid),
        string_fits(password),
    ensures
        ({
            let f = FramePayload::Command(CommandModel::SendWifiSettings(ssid, password));
            decode_frame(encode_frame(f)) == Ok::<(FramePayload, int), ParseError>(
                (f, encode_frame(f).len() as int),
            )
        }),
{
    lemma_decode_encode(FramePayload::Command(CommandModel::SendWifiSettings(ssid, password)));
}

// Cut-off frames ==========================================================

/// What a read at a position gives on a prefix `b.take(k)` that reaches that
/// position, compared with the read on all of `b`: the same result when the
/// prefix holds everything that was read, `Incomplete` otherwise.
pub open spec fn stable_under_prefix<T>(
    full: Result<(T, int), ParseError>,
    part: Result<(T, int), ParseError>,
    pos: int,
    k: int,
) -> bool {
    full matches Ok((v, p)) ==> {
        &&& p >= pos
        &&& k >= p ==> part == full
        &&& k < p ==> part == Err::<(T, int), ParseError>(ParseError::Incomplete)
    }
}

proof fn lemma_parse_string_prefix(b: Seq<u8>, pos: int, k: int)
    requires
        0 <= pos <= k <= b.len(),
    ensures
        stable_under_prefix(parse_string(b, pos), parse_string(b.take(k), pos), pos, k),
{
    let t = b.take(k);
    if pos < k {
        assert(t[pos] == b[pos]);
        let p = pos + 1 + b[pos];
        if p <= k {
            assert(t.subrange(pos + 1, p) =~= b.subrange(pos + 1, p));
        }
    }
}

proof fn lemma_parse_strings_prefix(b: Seq<u8>, start: int, pos: int, limit: int, k: int)
    requires
        0 <= pos <= k <= b.len(),
    ensures
        stable_under_prefix(
            parse_strings(b, start, pos, limit),
            parse_strings(b.take(k), start, pos, limit),
            pos,
            k,
        ),
    decreases b.len() - pos,
{
    let t = b.take(k);
    if pos - start >= limit {
    } else {
        lemma_parse_string_prefix(b, pos, k);
        match parse_string(b, pos) {
            Err(e) => {},
            Ok((s, p)) => {
                if p <= k {
                    lemma_parse_strings_prefix(b, start, p, limit, k);
                } else {
                    lemma_parse_strings_prefix(b, start, p, limit, b.len() as int);
                }
            },
        }
    }
}

proof fn lemma_parse_payload_prefix(b: Seq<u8>, pos: int, t: u8, k: int)
    requires
        0 <= pos <= k <= b.len(),
    ensures
        stable_under_prefix(parse_payload(b, pos, t), parse_payload(b.take(k), pos, t), pos, k),
{
    let c = b.take(k);
    if pos < k {
        assert(c[pos] == b[pos]);
    }
    if pos + 1 < k {
        assert(c[pos + 1] == b[pos + 1]);
    }
    if pos + 2 <= b.len() {
        let kk = if pos + 2 <= k {
            k
        } else {
            b.len() as int
        };
        if t == 0x03 && b[pos] == 0x01 {
            lemma_parse_string_prefix(b, pos + 2, kk);
            match parse_string(b, pos + 2) {
                Err(e) => {},
                Ok((ssid, p)) => {
                    if p <= kk {
                        lemma_parse_string_prefix(b, p, kk);
                    } else {
                        lemma_parse_string_prefix(b, p, b.len() as int);
                    }
                },
            }
        }
        if t == 0x04 {
            lemma_parse_strings_prefix(b, pos + 2, pos + 2, b[pos + 1] as int, kk);
        }
    }
}

/// A frame that is cut off anywhere before its last byte decodes as
/// `Incomplete`, never as another error or a frame.
pub proof fn lemma_prefix_incomplete(f: FramePayload, k: int)
    requires
        frame_fits(f),
        0 <= k < encode_frame(f).len(),
    ensures
        decode_frame(encode_frame(f).take(k)) == Err::<(FramePayload, int), ParseError>(
            ParseError::Incomplete,
        ),
{
    let e = encode_frame(f);
    let c = e.take(k);
    lemma_decode_encode(f);
    if k >= 7 {
        assert(c.take(7) =~= e.take(7));
    }
    if k >= 9 {
        assert(c[7] == e[7]);
        lemma_parse_payload_prefix(e, 9, e[7], k);
    }
}

// Corrupted frames ========================================================

proof fn lemma_byte_sum_update(s: Seq<u8>, i: int, v: u8)
    requires
        0 <= i < s.len(),
    ensures
        byte_sum(s.update(i, v)) + s[i] == byte_sum(s) + v,
{
    let u = s.update(i, v);
    assert(s =~= s.take(i) + seq![s[i]] + s.skip(i + 1));
    assert(u =~= s.take(i) + seq![v] + s.skip(i + 1));
    lemma_byte_sum_append(s.take(i) + seq![s[i]], s.skip(i + 1));
    lemma_byte_sum_append(s.take(i), seq![s[i]]);
    lemma_byte_sum_append(s.take(i) + seq![v], s.skip(i + 1));
    lemma_byte_sum_append(s.take(i), seq![v]);
    assert(seq![s[i]].drop_last() =~= Seq::<u8>::empty());
    assert(seq![v].drop_last() =~= Seq::<u8>::empty());
}

/// Changing one byte under the checksum of an encoded frame, where the
/// changed buffer still has the shape of a frame of the same length, makes
/// it decode as `InvalidChecksum`: one changed byte always changes the sum
/// modulo 256.
pub proof fn lemma_single_byte_change_detected(f: FramePayload, i: int, v: u8)
    requires
        frame_fits(f),
        0 <= i < frame_body(f).len(),
        v != encode_frame(f)[i],
        frame_layout(encode_frame(f).update(i, v)) matches Ok((_, n)) && n == encode_frame(
            f,
        ).len(),
    ensures
        decode_frame(encode_frame(f).update(i, v)) == Err::<(FramePayload, int), ParseError>(
            ParseError::InvalidChecksum,
        ),
{
    let e = encode_frame(f);
    let body = frame_body(f);
    let m = e.update(i, v);
    let q = body.len() as int;
    assert(m[q] == e[q]);
    assert(e[q] == checksum_of(body));
    assert(m.take(q) =~= body.update(i, v));
    assert(body[i] == e[i]);
    lemma_byte_sum_update(body, i, v);
    let a = byte_sum(body) as int;
    let x = body[i] as int;
    let y = v as int;
    assert(byte_sum(body.update(i, v)) == a - x + y);
    assert((a - x + y) % 256 != a % 256) by (nonlinear_arith)
        requires
            0 <= x < 256,
            0 <= y < 256,
            x != y,
            a - x + y >= 0,
            a >= 0,
    ;
}

/// A decoded frame takes at least its eleven fixed bytes, and no more than
/// the buffer holds.
pub proof fn lemma_decoded_length(b: Seq<u8>)
    ensures
        decode_frame(b) matches Ok((_, n)) ==> 11 <= n <= b.len(),
{
    if b.len() >= 9 {
        lemma_parse_payload_prefix(b, 9, b[7], b.len() as int);
    }
}

// Bytes that decoding does not read ======================================

proof fn lemma_parse_string_ignores_earlier(b: Seq<u8>, pos: int, j: int, v: u8)
    requires
        0 <= j < pos,
        j < b.len(),
    ensures
        parse_string(b.update(j, v), pos) == parse_string(b, pos),
{
    let u = b.update(j, v);
    if pos < b.len() {
        assert(u[pos] == b[pos]);
        let p = pos + 1 + b[pos];
        if p <= b.len() {
            assert(u.subrange(pos + 1, p) =~= b.subrange(pos + 1, p));
        }
    }
}

proof fn lemma_parse_strings_ignores_earlier(
    b: Seq<u8>,
    start: int,
    pos: int,
    limit: int,
    j: int,
    v: u8,
)
    requires
        0 <= j < pos,
        j < b.len(),
    ensures
        parse_strings(b.update(j, v), start, pos, limit) == parse_strings(b, start, pos, limit),
    decreases b.len() - pos,
{
    lemma_parse_string_ignores_earlier(b, pos, j, v);
    if pos - start < limit {
        match parse_string(b, pos) {
            Err(e) => {},
            Ok((s, p)) => {
                lemma_parse_string_prefix(b, pos, b.len() as int);
                lemma_parse_strings_ignores_earlier(b, start, p, limit, j, v);
            },
        }
    }
}

proof fn lemma_parse_payload_ignores_earlier(b: Seq<u8>, pos: int, t: u8, j: int, v: u8)
    requires
        0 <= j < pos,
        j < b.len(),
    ensures
        parse_payload(b.update(j, v), pos, t) == parse_payload(b, pos, t),
{
    let u = b.update(j, v);
    if pos < b.len() {
        assert(u[pos] == b[pos]);
    }
    if pos + 1 < b.len() {
        assert(u[pos + 1] == b[pos + 1]);
    }
    lemma_parse_string_ignores_earlier(b, pos + 2, j, v);
    match parse_string(b, pos + 2) {
        Err(e) => {},
        Ok((ssid, p)) => {
            if pos + 2 <= b.len() {
                lemma_parse_string_prefix(b, pos + 2, b.len() as int);
                lemma_parse_string_ignores_earlier(b, p, j, v);
            }
        },
    }
    if pos + 2 <= b.len() {
        lemma_parse_strings_ignores_earlier(b, pos + 2, pos + 2, b[pos + 1] as int, j, v);
    }
}

/// The payload length byte of a frame is not relied on by decoding: any
/// other value there is caught as `InvalidChecksum`.
pub proof fn lemma_changed_length_byte_detected(f: FramePayload, v: u8)
    requires
        frame_fits(f),
        v != encode_frame(f)[8],
    ensures
        decode_frame(encode_frame(f).update(8, v)) == Err::<(FramePayload, int), ParseError>(
            ParseError::InvalidChecksum,
        ),
{
    let e = encode_frame(f);
    let m = e.update(8, v);
    lemma_decode_encode(f);
    assert(m.take(7) =~= e.take(7));
    assert(m[7] == e[7]);
    lemma_parse_payload_ignores_earlier(e, 9, e[7], 8, v);
    lemma_parse_payload_prefix(e, 9, e[7], e.len() as int);
    match parse_payload(e, 9, e[7]) {
        Err(_) => {},
        Ok((p, q)) => {
            assert(m[q + 1] == e[q + 1]);
        },
    }
    assert(frame_layout(m) == frame_layout(e));
    lemma_single_byte_change_detected(f, 8, v);
}

} // verus!
