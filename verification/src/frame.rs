//! The length-prefixed framing protocol that delimits each payload inside one
//! continuous byte stream: `<decimal length><':'><payload bytes><','>`.
//!
//! `frame_at` is the mathematical reading of one frame at a position of a byte
//! sequence; `next_frame` is the executable reader and is proved to agree with
//! it exactly, including the distinction between a clean end of the stream and
//! a truncated or malformed frame.

use vstd::prelude::*;

verus! {

/// The byte that ends the decimal length prefix (`:`).
pub const LENGTH_DELIMITER: u8 = 58;

/// The byte that must immediately follow the payload (`,`).
pub const FRAME_TERMINATOR: u8 = 44;

/// What reading one frame at a given position of the input yields.
pub enum FrameStep {
    /// The position is exactly the end of the input: no frame has begun.
    Clean,
    /// A complete frame: its payload bytes and the position just past it.
    Found { payload: Seq<u8>, next: int },
    /// The input ends in the middle of the length prefix, the payload or
    /// before the terminator.
    Truncated,
    /// A non-digit inside the length prefix, an empty length prefix, or a
    /// wrong terminator byte.
    Malformed,
}

/// How the executable reader reports anything other than a complete frame.
#[derive(Clone, Copy, Debug, PartialEq, Eq, Structural)]
pub enum FrameError {
    /// The stream ended cleanly before a new frame began; not a failure.
    CleanEnd,
    /// The stream ended in the middle of a frame.
    Truncated,
    /// The frame violates the wire format.
    Malformed,
}

pub open spec fn is_digit(b: u8) -> bool {
    48 <= b && b <= 57
}

pub open spec fn digit_val(b: u8) -> nat {
    (b - 48) as nat
}

/// The number that a sequence of ASCII digits denotes in decimal.
pub open spec fn decimal_value(d: Seq<u8>) -> nat
    decreases d.len(),
{
    if d.len() == 0 {
        0
    } else {
        decimal_value(d.drop_last()) * 10 + digit_val(d.last())
    }
}

/// The first position at or after `i` that does not hold an ASCII digit
/// (or the end of the input).
pub open spec fn digits_end(s: Seq<u8>, i: int) -> int
    decreases s.len() - i when 0 <= i <= s.len()
{
    if i == s.len() {
        i
    } else if is_digit(s[i]) {
        digits_end(s, i + 1)
    } else {
        i
    }
}

/// The outcome of reading one frame of `s` starting at `pos`.
pub open spec fn frame_at(s: Seq<u8>, pos: int) -> FrameStep {
    let e = digits_end(s, pos);
    if pos == s.len() {
        FrameStep::Clean
    } else if e == pos {
        FrameStep::Malformed
    } else if e == s.len() {
        FrameStep::Truncated
    } else if s[e] != LENGTH_DELIMITER {
        FrameStep::Malformed
    } else {
        let len = decimal_value(s.subrange(pos, e)) as int;
        let body = e + 1;
        if s.len() < body + len + 1 {
            FrameStep::Truncated
        } else if s[body + len] != FRAME_TERMINATOR {
            FrameStep::Malformed
        } else {
            FrameStep::Found { payload: s.subrange(body, body + len), next: body + len + 1 }
        }
    }
}

/// The canonical decimal digits of `n`: no leading zero except a single `0`.
pub open spec fn dec_digits(n: nat) -> Seq<u8>
    decreases n,
{
    if n < 10 {
        seq![(48 + n) as u8]
    } else {
        dec_digits(n / 10).push((48 + n % 10) as u8)
    }
}

/// The encoding of a payload as one frame.
pub open spec fn frame_encoding(p: Seq<u8>) -> Seq<u8> {
    dec_digits(p.len()) + seq![LENGTH_DELIMITER] + p + seq![FRAME_TERMINATOR]
}

pub proof fn lemma_digits_end_bounds(s: Seq<u8>, i: int)
    requires
        0 <= i <= s.len(),
    ensures
        i <= digits_end(s, i) <= s.len(),
        forall|j: int| i <= j < digits_end(s, i) ==> is_digit(s[j]),
        digits_end(s, i) < s.len() ==> !is_digit(s[digits_end(s, i)]),
    decreases s.len() - i,
{
    if i < s.len() && is_digit(s[i]) {
        lemma_digits_end_bounds(s, i + 1);
    }
}

pub proof fn lemma_digits_end_determined(s: Seq<u8>, i: int, k: int)
    requires
        0 <= i <= k <= s.len(),
        forall|j: int| i <= j < k ==> is_digit(s[j]),
        k < s.len() ==> !is_digit(s[k]),
    ensures
        digits_end(s, i) == k,
    decreases k - i,
{
    if i < k {
        lemma_digits_end_determined(s, i + 1, k);
    }
}

pub proof fn lemma_decimal_value_push(d: Seq<u8>, x: u8)
    ensures
        decimal_value(d.push(x)) == decimal_value(d) * 10 + digit_val(x),
{
    assert(d.push(x).drop_last() =~= d);
}

pub proof fn lemma_dec_digits_wf(n: nat)
    ensures
        dec_digits(n).len() >= 1,
        forall|i: int| 0 <= i < dec_digits(n).len() ==> is_digit(dec_digits(n)[i]),
    decreases n,
{
    if n >= 10 {
        lemma_dec_digits_wf(n / 10);
    }
}

/// The canonical digits of `n` denote `n`: decimal writing loses nothing.
pub proof fn lemma_decimal_value_dec_digits(n: nat)
    ensures
        decimal_value(dec_digits(n)) == n,
    decreases n,
{
    if n >= 10 {
        lemma_decimal_value_dec_digits(n / 10);
        lemma_decimal_value_push(dec_digits(n / 10), (48 + n % 10) as u8);
        assert(dec_digits(n) == dec_digits(n / 10).push((48 + n % 10) as u8));
        assert(digit_val((48 + n % 10) as u8) == n % 10);
        assert(decimal_value(dec_digits(n)) == (n / 10) * 10 + n % 10);
        vstd::arithmetic::div_mod::lemma_fundamental_div_mod(n as int, 10);
        assert((n / 10) * 10 + n % 10 == n);
    } else {
        let d = seq![(48 + n) as u8];
        assert(dec_digits(n) == d);
        assert(d.drop_last() =~= Seq::<u8>::empty());
        assert(decimal_value(Seq::<u8>::empty()) == 0);
        assert(decimal_value(d) == 0 * 10 + digit_val(d.last()));
        assert(digit_val((48 + n) as u8) == n);
    }
}

/// Framing round-trip: a frame encoded from any payload, placed at the head of
/// a stream with anything at all after it, reads back as exactly that payload,
/// consuming exactly the encoding.
pub proof fn lemma_frame_round_trip(p: Seq<u8>, rest: Seq<u8>)
    ensures
        frame_at(frame_encoding(p) + rest, 0) == (FrameStep::Found {
            payload: p,
            next: frame_encoding(p).len() as int,
        }),
{
    let d = dec_digits(p.len());
    let s = frame_encoding(p) + rest;
    let k = d.len() as int;
    lemma_dec_digits_wf(p.len());
    lemma_decimal_value_dec_digits(p.len());
    assert(forall|j: int| 0 <= j < k ==> s[j] == d[j]);
    assert(s[k] == LENGTH_DELIMITER);
    lemma_digits_end_determined(s, 0, k);
    assert(s.subrange(0, k) =~= d);
    let body = k + 1;
    let len = p.len() as int;
    assert(s.len() >= body + len + 1);
    assert(s[body + len] == FRAME_TERMINATOR);
    assert(s.subrange(body, body + len) =~= p);
    assert(frame_encoding(p).len() == body + len + 1);
}

/// Clean-end distinction: at the exact end of the input no frame has begun,
/// and the reading is the clean end of the stream, never an error.
pub proof fn lemma_clean_end(s: Seq<u8>, pos: int)
    requires
        0 <= pos == s.len(),
    ensures
        frame_at(s, pos) == FrameStep::Clean,
{
}

/// Truncation detection: a valid length prefix and delimiter followed by fewer
/// payload bytes than declared, with nothing after them, reads as a truncated
/// frame, never as a clean end.
pub proof fn lemma_truncation_detected(d: Seq<u8>, body: Seq<u8>)
    requires
        d.len() >= 1,
        forall|i: int| 0 <= i < d.len() ==> is_digit(d[i]),
        body.len() < decimal_value(d),
    ensures
        frame_at(d + seq![LENGTH_DELIMITER] + body, 0) == FrameStep::Truncated,
{
    let s = d + seq![LENGTH_DELIMITER] + body;
    let k = d.len() as int;
    assert(forall|j: int| 0 <= j < k ==> s[j] == d[j]);
    assert(s[k] == LENGTH_DELIMITER);
    assert(!is_digit(LENGTH_DELIMITER));
    lemma_digits_end_determined(s, 0, k);
    assert(s.subrange(0, k) =~= d);
    assert(s.len() < k + 1 + decimal_value(d) + 1);
}

/// A complete frame sits strictly between its start and the end of the input:
/// reading it always advances.
pub proof fn lemma_frame_next_bounds(s: Seq<u8>, pos: int)
    requires
        0 <= pos <= s.len(),
    ensures
        frame_at(s, pos) matches FrameStep::Found { payload, next } ==> pos < next <= s.len(),
{
    lemma_digits_end_bounds(s, pos);
}

/// Reads the frame that starts at `pos` in `input`, agreeing exactly with
/// `frame_at`: the payload and the next position on success, and otherwise
/// which of the three non-frame outcomes holds, with the clean end of the
/// stream distinguished from every failure.
pub fn next_frame(input: &Vec<u8>, pos: usize) -> (r: Result<(Vec<u8>, usize), FrameError>)
    requires
        pos <= input.len(),
    ensures
        ({
            match frame_at(input@, pos as int) {
                FrameStep::Clean => r matches Err(FrameError::CleanEnd),
                FrameStep::Truncated => r matches Err(FrameError::Truncated),
                FrameStep::Malformed => r matches Err(FrameError::Malformed),
                FrameStep::Found { payload, next } => (r matches Ok(p) && p.0@ == payload
                    && p.1 as int == next),
            }
        }),
        pos == input.len() ==> (r matches Err(FrameError::CleanEnd)),
{
    let n = input.len();
    if pos == n {
        return Err(FrameError::CleanEnd);
    }
    let mut i: usize = pos;
    let mut acc: usize = 0;
    let mut too_big: bool = false;
    while i < n && 48 <= input[i] && input[i] <= 57
        invariant
            pos <= i <= n == input.len(),
            forall|j: int| pos <= j < i ==> is_digit(input@[j]),
            !too_big ==> acc == decimal_value(input@.subrange(pos as int, i as int)) && acc <= n,
            too_big ==> decimal_value(input@.subrange(pos as int, i as int)) > n,
        decreases n - i,
    {
        let d: u8 = input[i] - 48;
        proof {
            assert(input@.subrange(pos as int, i + 1 as int) =~= input@.subrange(
                pos as int,
                i as int,
            ).push(input@[i as int]));
            lemma_decimal_value_push(input@.subrange(pos as int, i as int), input@[i as int]);
        }
        if too_big {
        } else {
            let wide: u128 = (acc as u128) * 10 + (d as u128);
            if wide > n as u128 {
                too_big = true;
            } else {
                acc = wide as usize;
            }
        }
        i = i + 1;
    }
    proof {
        lemma_digits_end_determined(input@, pos as int, i as int);
    }
    if i == pos {
        return Err(FrameError::Malformed);
    }
    if i == n {
        return Err(FrameError::Truncated);
    }
    if input[i] != LENGTH_DELIMITER {
        return Err(FrameError::Malformed);
    }
    let body: usize = i + 1;
    if too_big || n - body <= acc {
        return Err(FrameError::Truncated);
    }
    let term: usize = body + acc;
    if input[term] != FRAME_TERMINATOR {
        return Err(FrameError::Malformed);
    }
    let mut payload: Vec<u8> = Vec::new();
    let mut j: usize = body;
    while j < term
        invariant
            body <= j <= term,
            term < input.len(),
            payload@ == input@.subrange(body as int, j as int),
        decreases term - j,
    {
        payload.push(input[j]);
        proof {
            assert(input@.subrange(body as int, j + 1 as int) =~= input@.subrange(
                body as int,
                j as int,
            ).push(input@[j as int]));
        }
        j = j + 1;
    }
    Ok((payload, term + 1))
}

/// Encodes one payload as a frame: its length in canonical decimal, the
/// delimiter, the payload bytes and the terminator.
pub fn encode_frame(payload: &Vec<u8>) -> (r: Vec<u8>)
    ensures
        r@ == frame_encoding(payload@),
{
    let mut r: Vec<u8> = Vec::new();
    push_decimal(&mut r, payload.len());
    r.push(LENGTH_DELIMITER);
    let mut j: usize = 0;
    while j < payload.len()
        invariant
            j <= payload.len(),
            r@ == dec_digits(payload@.len()) + seq![LENGTH_DELIMITER] + payload@.subrange(
                0,
                j as int,
            ),
        decreases payload.len() - j,
    {
        r.push(payload[j]);
        proof {
            assert(payload@.subrange(0, j + 1 as int) =~= payload@.subrange(0, j as int).push(
                payload@[j as int],
            ));
            assert(r@ =~= dec_digits(payload@.len()) + seq![LENGTH_DELIMITER]
                + payload@.subrange(0, j + 1 as int));
        }
        j = j + 1;
    }
    r.push(FRAME_TERMINATOR);
    proof {
        assert(r@ =~= frame_encoding(payload@));
    }
    r
}

/// Appends the canonical decimal digits of `n`.
fn push_decimal(out: &mut Vec<u8>, n: usize)
    ensures
        final(out)@ == old(out)@ + dec_digits(n as nat),
    decreases n,
{
    if n < 10 {
        out.push(48 + n as u8);
        proof {
            assert(out@ =~= old(out)@ + dec_digits(n as nat));
        }
    } else {
        push_decimal(out, n / 10);
        out.push(48 + (n % 10) as u8);
        proof {
            assert(out@ =~= old(out)@ + dec_digits(n as nat));
        }
    }
}

} // verus!
