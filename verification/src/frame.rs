//! Length-prefixed framing of wire messages.
//!
//! A frame is `Content-Length: <n>\r\n`, any further header lines, a blank
//! line, then exactly `n` bytes holding one JSON document. `encode_frame`
//! emits the canonical form (no extra headers); `decode_frame` reads one
//! frame from a buffer, reporting whether the buffer is still too short,
//! is corrupt, or holds a message. Decoding is proved to return exactly
//! what the specification decoder `spec_decode` denotes, and decoding an
//! encoded frame returns the original document (`lemma_frame_round_trip`).

use vstd::prelude::*;
use crate::json::{
    adv, ascii_bytes, ascii_chars, dec_digits, dec_val, is_digit_byte, is_digit_char,
    lemma_dec_digits_wf, lemma_parse_ser, ser, spec_parse, wf_model, jmodel, JsonModel, JsonValue,
};

verus! {

/// The sixteen bytes of `Content-Length: `.
pub open spec fn cl_prefix() -> Seq<u8> {
    seq![
        'C' as u8, 'o' as u8, 'n' as u8, 't' as u8, 'e' as u8, 'n' as u8, 't' as u8, '-' as u8,
        'L' as u8, 'e' as u8, 'n' as u8, 'g' as u8, 't' as u8, 'h' as u8, ':' as u8, ' ' as u8,
    ]
}

/// Canonical header announcing a body of `n` bytes.
pub open spec fn header_bytes(n: nat) -> Seq<u8> {
    cl_prefix() + ascii_bytes(dec_digits(n)) + seq![13u8, 10u8, 13u8, 10u8]
}

/// Canonical frame around a body.
pub open spec fn frame_bytes(body: Seq<u8>) -> Seq<u8> {
    header_bytes(body.len()) + body
}

/// What reading one frame from a buffer yields.
pub enum SpecFrame {
    /// The buffer ends before the frame does.
    More,
    /// The bytes cannot open a frame.
    Bad,
    /// A whole message and the position just past its frame.
    Msg(JsonModel, int),
}

/// First position at or after `pos` that does not hold a digit byte.
pub open spec fn digits_end(s: Seq<u8>, pos: int) -> int
    decreases s.len() - pos,
{
    if 0 <= pos < s.len() && is_digit_byte(s[pos]) {
        digits_end(s, pos + 1)
    } else {
        pos
    }
}

/// First position at or after `pos` holding a carriage return.
pub open spec fn line_end(s: Seq<u8>, pos: int) -> int
    decreases s.len() - pos,
{
    if 0 <= pos < s.len() && s[pos] != 13 {
        line_end(s, pos + 1)
    } else {
        pos
    }
}

/// Progress of the scan past the header lines.
pub enum HdrScan {
    More,
    Bad,
    At(int),
}

/// Consumes header lines from `pos` until the blank line, yielding the body
/// start. `adv` only restates that `line_end` cannot move backwards.
pub open spec fn skip_headers(s: Seq<u8>, pos: int) -> HdrScan
    decreases s.len() - pos,
{
    if !(0 <= pos <= s.len()) {
        HdrScan::Bad
    } else {
        let e = adv(pos - 1, line_end(s, pos));
        if e + 1 >= s.len() {
            HdrScan::More
        } else if s[e + 1] != 10 {
            HdrScan::Bad
        } else if e == pos {
            HdrScan::At(e + 2)
        } else {
            skip_headers(s, e + 2)
        }
    }
}

/// One frame read from `s` at `start`: the message it holds, a report that
/// the buffer is too short, or a report that it is corrupt.
pub open spec fn spec_decode(s: Seq<u8>, start: int) -> SpecFrame {
    if !(0 <= start <= s.len()) {
        SpecFrame::Bad
    } else if start + 16 > s.len() {
        if s.subrange(start, s.len() as int) == cl_prefix().take(s.len() - start) {
            SpecFrame::More
        } else {
            SpecFrame::Bad
        }
    } else if s.subrange(start, start + 16) != cl_prefix() {
        SpecFrame::Bad
    } else {
        let dstart = start + 16;
        let de = digits_end(s, dstart);
        if de == dstart {
            if dstart >= s.len() {
                SpecFrame::More
            } else {
                SpecFrame::Bad
            }
        } else if de + 1 >= s.len() {
            SpecFrame::More
        } else if s[de] != 13 || s[de + 1] != 10 {
            SpecFrame::Bad
        } else {
            let len_val = dec_val(ascii_chars(s.subrange(dstart, de)));
            if len_val > u64::MAX {
                SpecFrame::Bad
            } else {
                match skip_headers(s, de + 2) {
                    HdrScan::More => SpecFrame::More,
                    HdrScan::Bad => SpecFrame::Bad,
                    HdrScan::At(bstart) => {
                        if bstart + len_val > s.len() {
                            SpecFrame::More
                        } else {
                            match spec_parse(s.subrange(bstart, bstart + len_val)) {
                                Some(m) => SpecFrame::Msg(m, bstart + len_val),
                                None => SpecFrame::Bad,
                            }
                        }
                    },
                }
            }
        }
    }
}


// ---------------------------------------------------------------------------
// Supporting lemmas
// ---------------------------------------------------------------------------

pub proof fn lemma_digits_end_exact(s: Seq<u8>, pos: int, e: int)
    requires
        0 <= pos <= e <= s.len(),
        forall|j: int| pos <= j < e ==> is_digit_byte(#[trigger] s[j]),
        e < s.len() ==> !is_digit_byte(s[e]),
    ensures
        digits_end(s, pos) == e,
    decreases e - pos,
{
    if pos < e {
        lemma_digits_end_exact(s, pos + 1, e);
    }
}

pub proof fn lemma_line_end_bounds(s: Seq<u8>, pos: int)
    requires
        0 <= pos <= s.len(),
    ensures
        pos <= line_end(s, pos) <= s.len(),
        adv(pos - 1, line_end(s, pos)) == line_end(s, pos),
    decreases s.len() - pos,
{
    if pos < s.len() && s[pos] != 13 {
        lemma_line_end_bounds(s, pos + 1);
    }
}

/// Reading a canonical frame: where the buffer holds `frame_bytes(body)` at
/// `start` and the body is one whole document, the decoder yields exactly
/// that document and stops right after the frame.
#[verifier::rlimit(100)]
pub proof fn lemma_decode_frame_bytes(s: Seq<u8>, start: int, body: Seq<u8>, m: JsonModel)
    requires
        0 <= start,
        body.len() <= u64::MAX,
        start + frame_bytes(body).len() <= s.len(),
        s.subrange(start, start + frame_bytes(body).len()) == frame_bytes(body),
        spec_parse(body) == Some(m),
    ensures
        spec_decode(s, start) == SpecFrame::Msg(m, start + frame_bytes(body).len()),
{
    let w = frame_bytes(body);
    let wlen = w.len() as int;
    let ds = dec_digits(body.len());
    let dlen = ds.len() as int;
    lemma_dec_digits_wf(body.len());
    assert(forall|i: int| 0 <= i < wlen ==> s[start + i] == #[trigger] w[i]) by {
        assert(forall|i: int| 0 <= i < wlen ==> s.subrange(start, start + wlen)[i] == #[trigger] w[i]);
    }
    assert(forall|i: int| 0 <= i < 16 ==> #[trigger] w[i] == cl_prefix()[i]);
    assert forall|i: int| 0 <= i < 16 implies #[trigger] s.subrange(start, start + 16)[i]
        == cl_prefix()[i] by {
        assert(w[i] == cl_prefix()[i]);
        assert(s[start + i] == w[i]);
    }
    assert(s.subrange(start, start + 16) =~= cl_prefix());
    let dstart = start + 16;
    assert(forall|i: int| 0 <= i < dlen ==> #[trigger] w[16 + i] == ds[i] as u8);
    assert(forall|j: int| dstart <= j < dstart + dlen ==> is_digit_byte(#[trigger] s[j])) by {
        assert(forall|j: int| dstart <= j < dstart + dlen ==> s[j] == w[j - start]
            && w[j - start] == ds[j - dstart] as u8 && is_digit_char(ds[j - dstart])
            && is_digit_byte(#[trigger] s[j]));
    }
    assert(w[16 + dlen] == 13 && w[16 + dlen + 1] == 10 && w[16 + dlen + 2] == 13 && w[16 + dlen
        + 3] == 10);
    let de = dstart + dlen;
    assert(s[de] == w[16 + dlen]);
    assert(!is_digit_byte(13u8));
    lemma_digits_end_exact(s, dstart, de);
    assert(de > dstart);
    assert(s[de + 1] == w[16 + dlen + 1]);
    // the announced length reads back as the body length
    assert forall|i: int| 0 <= i < dlen implies #[trigger] ascii_chars(s.subrange(dstart, de))[i]
        == ds[i] by {
        assert(w[16 + i] == ds[i] as u8);
        assert(s[dstart + i] == w[16 + i]);
        assert(s.subrange(dstart, de)[i] == s[dstart + i]);
        assert(is_digit_char(ds[i]));
        assert((ds[i] as u8) as char == ds[i]);
        assert(ascii_chars(s.subrange(dstart, de))[i] == (s.subrange(dstart, de)[i]) as char);
    }
    assert(ascii_chars(s.subrange(dstart, de)) =~= ds);
    assert(dec_val(ascii_chars(s.subrange(dstart, de))) == body.len());
    // the blank line follows at once
    assert(s[de + 2] == w[16 + dlen + 2] && s[de + 3] == w[16 + dlen + 3]);
    assert(line_end(s, de + 2) == de + 2);
    lemma_line_end_bounds(s, de + 2);
    assert(skip_headers(s, de + 2) == HdrScan::At(de + 4));
    let bstart = de + 4;
    assert(bstart == start + 16 + dlen + 4);
    assert(wlen == 16 + dlen + 4 + body.len());
    assert(s.subrange(bstart, bstart + body.len() as int) =~= body) by {
        assert(forall|i: int| 0 <= i < body.len() ==> #[trigger] s.subrange(
            bstart,
            bstart + body.len() as int,
        )[i] == s[bstart + i] && s[bstart + i] == w[16 + dlen + 4 + i] && w[16 + dlen + 4 + i]
            == body[i]);
    }
    assert(spec_decode(s, start) =~~= SpecFrame::Msg(m, start + wlen));
}

/// The framer's round trip: a document's canonical frame decodes back to
/// exactly that document.
pub proof fn lemma_frame_round_trip(m: JsonModel)
    requires
        wf_model(m),
        ser(m).len() <= u64::MAX,
    ensures
        spec_decode(frame_bytes(ser(m)), 0) == SpecFrame::Msg(m, frame_bytes(ser(m)).len() as int),
{
    lemma_parse_ser(m);
    let s = frame_bytes(ser(m));
    assert(s.subrange(0, s.len() as int) =~= s);
    lemma_decode_frame_bytes(s, 0, ser(m), m);
}

// ---------------------------------------------------------------------------
// Executable framer
// ---------------------------------------------------------------------------

fn cl_byte(j: usize) -> (b: u8)
    requires
        j < 16,
    ensures
        b == cl_prefix()[j as int],
{
    if j == 0 {
        'C' as u8
    } else if j == 1 {
        'o' as u8
    } else if j == 2 {
        'n' as u8
    } else if j == 3 {
        't' as u8
    } else if j == 4 {
        'e' as u8
    } else if j == 5 {
        'n' as u8
    } else if j == 6 {
        't' as u8
    } else if j == 7 {
        '-' as u8
    } else if j == 8 {
        'L' as u8
    } else if j == 9 {
        'e' as u8
    } else if j == 10 {
        'n' as u8
    } else if j == 11 {
        'g' as u8
    } else if j == 12 {
        't' as u8
    } else if j == 13 {
        'h' as u8
    } else if j == 14 {
        ':' as u8
    } else {
        ' ' as u8
    }
}

/// Wraps one document in its canonical frame.
#[verifier::loop_isolation(false)]
pub fn encode_frame(msg: &JsonValue) -> (out: Vec<u8>)
    requires
        wf_model(jmodel(*msg)),
    ensures
        out@ == frame_bytes(ser(jmodel(*msg))),
{
    let body = crate::json::encode(msg);
    let mut out: Vec<u8> = Vec::new();
    let mut j: usize = 0;
    while j < 16
        invariant
            j <= 16,
            out@ == cl_prefix().take(j as int),
        decreases 16 - j,
    {
        out.push(cl_byte(j));
        proof {
            assert(out@ =~= cl_prefix().take(j + 1));
        }
        j = j + 1;
    }
    proof {
        assert(out@ =~= cl_prefix());
    }
    crate::json::push_u64_digits(body.len() as u64, &mut out);
    out.push(13);
    out.push(10);
    out.push(13);
    out.push(10);
    let mut b = body;
    out.append(&mut b);
    proof {
        assert(out@ =~= frame_bytes(ser(jmodel(*msg))));
    }
    out
}

/// What one attempt to read a frame from a buffer yields.
pub enum FrameRead {
    /// The buffer ends before the frame does; read more bytes and retry.
    NeedMore,
    /// The bytes cannot be a frame; the stream is corrupt.
    Corrupt,
    /// One message, and the buffer position just past its frame.
    Msg(JsonValue, usize),
}

/// Reads one frame from `buf` starting at `start`, returning exactly what
/// the specification decoder denotes there.
#[verifier::loop_isolation(false)]
#[verifier::rlimit(60)]
pub fn decode_frame(buf: &Vec<u8>, start: usize) -> (r: FrameRead)
    requires
        start <= buf@.len(),
    ensures
        (r is NeedMore) == (spec_decode(buf@, start as int) is More),
        (r is Corrupt) == (spec_decode(buf@, start as int) is Bad),
        r matches FrameRead::Msg(v, next) ==> spec_decode(buf@, start as int) == SpecFrame::Msg(
            jmodel(v),
            next as int,
        ) && start < next <= buf@.len(),
{
    let n = buf.len();
    // the fixed prefix
    let mut j: usize = 0;
    while j < 16 && start + j < n
        invariant
            j <= 16,
            start + j <= n,
            forall|i: int| 0 <= i < j ==> buf@[start + i] == #[trigger] cl_prefix()[i],
        decreases 16 - j,
    {
        if buf[start + j] != cl_byte(j) {
            proof {
                if start + 16 > n {
                    assert(buf@.subrange(start as int, n as int) != cl_prefix().take(
                        n - start,
                    )) by {
                        assert(buf@.subrange(start as int, n as int)[j as int] == buf@[start + j]);
                        assert(cl_prefix().take(n - start)[j as int] == cl_prefix()[j as int]);
                    }
                } else {
                    assert(buf@.subrange(start as int, start + 16) != cl_prefix()) by {
                        assert(buf@.subrange(start as int, start + 16)[j as int] == buf@[start
                            + j]);
                    }
                }
            }
            return FrameRead::Corrupt;
        }
        j = j + 1;
    }
    if j < 16 {
        proof {
            assert(start + 16 > n);
            assert(buf@.subrange(start as int, n as int) =~= cl_prefix().take(n - start));
        }
        return FrameRead::NeedMore;
    }
    proof {
        assert(start + 16 <= n);
        assert(buf@.subrange(start as int, start + 16) =~= cl_prefix());
    }
    // the decimal length
    let dstart = start + 16;
    let mut de: usize = dstart;
    while de < n && 0x30 <= buf[de] && buf[de] <= 0x39
        invariant
            dstart <= de <= n,
            digits_end(buf@, dstart as int) == digits_end(buf@, de as int),
            forall|k: int| dstart <= k < de ==> is_digit_byte(#[trigger] buf@[k]),
        decreases n - de,
    {
        de = de + 1;
    }
    proof {
        assert(digits_end(buf@, de as int) == de);
    }
    if de == dstart {
        if dstart >= n {
            return FrameRead::NeedMore;
        } else {
            return FrameRead::Corrupt;
        }
    }
    if n - de < 2 {
        return FrameRead::NeedMore;
    }
    if !(buf[de] == 13 && buf[de + 1] == 10) {
        return FrameRead::Corrupt;
    }
    // its value
    let ghost dcs = ascii_chars(buf@.subrange(dstart as int, de as int));
    proof {
        assert(forall|k: int| 0 <= k < de - dstart ==> #[trigger] dcs[k] == buf@[dstart + k] as char);
        assert(forall|k: int| 0 <= k < de - dstart ==> is_digit_char(#[trigger] dcs[k]));
    }
    let mut len_val: u64 = 0;
    let mut k: usize = dstart;
    while k < de
        invariant
            dstart <= k <= de,
            len_val as nat == dec_val(dcs.take(k - dstart)),
        decreases de - k,
    {
        let d = buf[k] - 0x30;
        proof {
            crate::json::lemma_dec_val_take_step(dcs, k - dstart);
            assert(dcs[k - dstart] == buf@[k as int] as char);
        }
        let mul = len_val.checked_mul(10);
        match mul {
            Some(m10) => {
                let add = m10.checked_add(d as u64);
                match add {
                    Some(next) => {
                        len_val = next;
                    },
                    None => {
                        proof {
                            crate::json::lemma_dec_val_take_grows(dcs, k - dstart + 1);
                            assert(dcs.take(dcs.len() as int) =~= dcs);
                        }
                        return FrameRead::Corrupt;
                    },
                }
            },
            None => {
                proof {
                    crate::json::lemma_dec_val_take_grows(dcs, k - dstart + 1);
                    assert(dcs.take(dcs.len() as int) =~= dcs);
                }
                return FrameRead::Corrupt;
            },
        }
        k = k + 1;
    }
    proof {
        assert(dcs.take(de - dstart) =~= dcs);
        assert(len_val as nat == dec_val(dcs));
    }
    // any further header lines, then the blank line
    let mut pos: usize = de + 2;
    proof {
        assert(skip_headers(buf@, de + 2 as int) == skip_headers(buf@, pos as int));
    }
    let bstart: usize;
    loop
        invariant
            de + 2 <= pos <= n,
            n == buf@.len(),
            skip_headers(buf@, de + 2 as int) == skip_headers(buf@, pos as int),
        decreases n - pos,
    {
        // find the carriage return ending this line
        let mut e: usize = pos;
        while e < n && buf[e] != 13
            invariant
                pos <= e <= n,
                line_end(buf@, pos as int) == line_end(buf@, e as int),
            decreases n - e,
        {
            e = e + 1;
        }
        proof {
            assert(line_end(buf@, e as int) == e);
            lemma_line_end_bounds(buf@, pos as int);
        }
        if n - e < 2 {
            return FrameRead::NeedMore;
        }
        if buf[e + 1] != 10 {
            return FrameRead::Corrupt;
        }
        if e == pos {
            bstart = e + 2;
            break;
        }
        pos = e + 2;
    }
    proof {
        assert(skip_headers(buf@, de + 2 as int) == HdrScan::At(bstart as int));
    }
    // the body
    let avail: u64 = (n - bstart) as u64;
    if avail < len_val {
        return FrameRead::NeedMore;
    }
    let blen = len_val as usize;
    let mut body: Vec<u8> = Vec::new();
    let mut t: usize = bstart;
    while t < bstart + blen
        invariant
            bstart <= t <= bstart + blen <= n,
            body@ == buf@.subrange(bstart as int, t as int),
        decreases bstart + blen - t,
    {
        body.push(buf[t]);
        proof {
            assert(body@ =~= buf@.subrange(bstart as int, t + 1));
        }
        t = t + 1;
    }
    match crate::json::parse(&body) {
        Some(v) => FrameRead::Msg(v, bstart + blen),
        None => FrameRead::Corrupt,
    }
}

} // verus!
