//! UTF-8 decoding of a byte stream that arrives in chunks.
//!
//! A character may be cut by a chunk's end: its bytes wait until the next chunk
//! completes them.

use vstd::prelude::*;
use vstd::slice::*;
use vstd::string::*;
use vstd::utf8::*;

verus! {

/// The length of the longest valid prefix of `bytes`.
pub open spec fn valid_len(bytes: Seq<u8>) -> int
    decreases bytes.len(),
{
    if bytes.len() == 0 || !valid_first_scalar(bytes) {
        0
    } else {
        length_of_first_scalar(bytes) + valid_len(pop_first_scalar(bytes))
    }
}

/// `rest` holds no character at its start yet, but more bytes can make it do so.
pub open spec fn incomplete(rest: Seq<u8>) -> bool {
    &&& rest.len() > 0
    &&& !valid_first_scalar(rest)
    &&& exists|more: Seq<u8>| #[trigger] valid_first_scalar(rest + more)
}

/// What decoding `bytes` yields.
pub struct Decoded {
    /// The characters of the longest valid prefix.
    pub text: Seq<char>,
    /// The bytes behind that prefix.
    pub rest: Seq<u8>,
    /// Whether no continuation makes `rest` valid.
    pub broken: bool,
}

/// Decodes the longest valid prefix of `bytes`.
pub open spec fn decoded(bytes: Seq<u8>) -> Decoded {
    let n = valid_len(bytes);
    let rest = bytes.skip(n);
    Decoded { text: decode_utf8(bytes.take(n)), rest, broken: rest.len() > 0 && !incomplete(rest) }
}

proof fn lemma_valid_len(bytes: Seq<u8>)
    ensures
        0 <= valid_len(bytes) <= bytes.len(),
        valid_utf8(bytes.take(valid_len(bytes))),
        valid_len(bytes) < bytes.len() ==> !valid_first_scalar(bytes.skip(valid_len(bytes))),
        valid_utf8(bytes) <==> valid_len(bytes) == bytes.len(),
    decreases bytes.len(),
{
    if bytes.len() == 0 || !valid_first_scalar(bytes) {
        assert(bytes.skip(0) =~= bytes);
        assert(bytes.take(0).len() == 0);
    } else {
        let k = length_of_first_scalar(bytes);
        let tail = pop_first_scalar(bytes);
        lemma_valid_len(tail);
        let n = valid_len(bytes);
        assert(bytes.skip(n) =~= tail.skip(valid_len(tail)));
        let head = bytes.take(n);
        assert(valid_first_scalar(head));
        assert(pop_first_scalar(head) =~= tail.take(valid_len(tail)));
    }
}

/// The prefix that [`valid_len`] measures is valid, and no longer prefix is.
pub proof fn valid_len_is_longest(bytes: Seq<u8>, m: int)
    requires
        0 <= m <= bytes.len(),
        valid_utf8(bytes.take(m)),
    ensures
        0 <= valid_len(bytes) <= bytes.len(),
        valid_utf8(bytes.take(valid_len(bytes))),
        m <= valid_len(bytes),
    decreases bytes.len(),
{
    lemma_valid_len(bytes);
    if m > 0 {
        let head = bytes.take(m);
        assert(valid_first_scalar(bytes));
        let k = length_of_first_scalar(bytes);
        assert(pop_first_scalar(head) =~= pop_first_scalar(bytes).take(m - k));
        valid_len_is_longest(pop_first_scalar(bytes), m - k);
    }
}

proof fn lemma_valid_len_concat(x: Seq<u8>, y: Seq<u8>)
    ensures
        valid_len(x + y) == valid_len(x) + valid_len(x.skip(valid_len(x)) + y),
    decreases x.len(),
{
    lemma_valid_len(x);
    if x.len() == 0 || !valid_first_scalar(x) {
        assert(x.skip(0) =~= x);
    } else {
        let k = length_of_first_scalar(x);
        let tail = pop_first_scalar(x);
        assert(valid_first_scalar(x + y));
        assert(pop_first_scalar(x + y) =~= tail + y);
        lemma_valid_len_concat(tail, y);
        lemma_valid_len(tail);
        assert(x.skip(valid_len(x)) =~= tail.skip(valid_len(tail)));
    }
}

/// Encoding a concatenation concatenates the encodings.
pub proof fn lemma_encode_concat(a: Seq<char>, b: Seq<char>)
    ensures
        encode_utf8(a + b) == encode_utf8(a) + encode_utf8(b),
    decreases a.len(),
{
    if a.len() == 0 {
        assert(a + b =~= b);
        assert(encode_utf8(a) + encode_utf8(b) =~= encode_utf8(b));
    } else {
        assert((a + b).drop_first() =~= a.drop_first() + b);
        lemma_encode_concat(a.drop_first(), b);
        assert(encode_utf8(a + b) =~= encode_utf8(a) + encode_utf8(b));
    }
}

/// Only equal texts have equal encodings.
pub proof fn lemma_encode_injective(a: Seq<char>, b: Seq<char>)
    requires
        encode_utf8(a) == encode_utf8(b),
    ensures
        a == b,
{
    encode_utf8_decode_utf8(a);
    encode_utf8_decode_utf8(b);
}

/// Decoding a concatenation of valid parts concatenates the decoded parts.
pub proof fn lemma_decode_concat(a: Seq<u8>, b: Seq<u8>)
    requires
        valid_utf8(a),
        valid_utf8(b),
    ensures
        valid_utf8(a + b),
        decode_utf8(a + b) == decode_utf8(a) + decode_utf8(b),
{
    valid_utf8_concat(a, b);
    decode_utf8_encode_utf8(a);
    decode_utf8_encode_utf8(b);
    lemma_encode_concat(decode_utf8(a), decode_utf8(b));
    encode_utf8_decode_utf8(decode_utf8(a) + decode_utf8(b));
}

/// Decoding does not depend on where a chunk ends: unless the first part is
/// broken already, its text followed by what the rest and the second part
/// yield is what the whole yields; and nothing mends a broken part.
pub proof fn decoding_is_chunk_independent(x: Seq<u8>, y: Seq<u8>)
    ensures
        ({
            let first = decoded(x);
            let second = decoded(first.rest + y);
            let whole = decoded(x + y);
            &&& !first.broken ==> whole.text == first.text + second.text && whole.rest
                == second.rest && whole.broken == second.broken
            &&& first.broken ==> whole.text == first.text && whole.broken && whole.rest
                == first.rest + y
        }),
{
    lemma_valid_len(x);
    lemma_valid_len_concat(x, y);
    let n = valid_len(x);
    let rest = x.skip(n);
    let joint = rest + y;
    lemma_valid_len(joint);
    let m = valid_len(joint);
    assert((x + y).take(n + m) =~= x.take(n) + joint.take(m));
    assert((x + y).skip(n + m) =~= joint.skip(m));
    lemma_decode_concat(x.take(n), joint.take(m));
    if decoded(x).broken {
        assert(!valid_first_scalar(joint));
        assert(joint.take(0) =~= Seq::<u8>::empty());
        assert(x.take(n) + joint.take(0) =~= x.take(n));
        assert(joint.skip(0) =~= joint);
        if incomplete(joint) {
            let more = choose|more: Seq<u8>| #[trigger] valid_first_scalar(joint + more);
            assert(joint + more =~= rest + (y + more));
            assert(valid_first_scalar(rest + (y + more)));
        }
    }
}

/// `bytes` is valid exactly when decoding leaves nothing behind.
pub proof fn decoding_is_complete(bytes: Seq<u8>)
    ensures
        valid_utf8(bytes) <==> decoded(bytes).rest.len() == 0,
        valid_utf8(bytes) ==> decoded(bytes).text == decode_utf8(bytes),
        decoded(bytes).rest.len() == 0 ==> !decoded(bytes).broken,
{
    lemma_valid_len(bytes);
    if valid_utf8(bytes) {
        assert(bytes.take(bytes.len() as int) =~= bytes);
    }
}

/// Decoding yields no more characters than there are bytes.
pub proof fn decoding_makes_nothing_longer(bytes: Seq<u8>)
    ensures
        decoded(bytes).text.len() <= bytes.len(),
{
    lemma_valid_len(bytes);
    let head = bytes.take(valid_len(bytes));
    decode_utf8_encode_utf8(head);
    lemma_encoding_room(decode_utf8(head));
}

proof fn lemma_encoding_room(s: Seq<char>)
    ensures
        s.len() <= encode_utf8(s).len(),
    decreases s.len(),
{
    if s.len() > 0 {
        lemma_encoding_room(s.drop_first());
    }
}

/// Which second bytes may follow a leading byte.
spec fn second_fits(b0: u8, b1: u8) -> bool {
    &&& 0x80 <= b1 <= 0xbf
    &&& b0 == 0xe0 ==> b1 >= 0xa0
    &&& b0 == 0xed ==> b1 <= 0x9f
    &&& b0 == 0xf0 ==> b1 >= 0x90
    &&& b0 == 0xf4 ==> b1 <= 0x8f
}

proof fn lemma_width_2(b0: u8, b1: u8)
    by (bit_vector)
    requires
        0xc0 <= b0 <= 0xdf,
        0x80 <= b1 <= 0xbf,
    ensures
        (0x80 <= codepoint_width_2(b0, b1)) <==> 0xc2 <= b0,
        codepoint_width_2(b0, b1) < 0xd800,
{
}

proof fn lemma_width_3(b0: u8, b1: u8, b2: u8)
    by (bit_vector)
    requires
        0xe0 <= b0 <= 0xef,
        0x80 <= b1 <= 0xbf,
        0x80 <= b2 <= 0xbf,
    ensures
        (0x800 <= codepoint_width_3(b0, b1, b2) && !(0xd800 <= codepoint_width_3(b0, b1, b2)
            <= 0xdfff)) <==> second_fits(b0, b1),
{
}

proof fn lemma_width_4(b0: u8, b1: u8, b2: u8, b3: u8)
    by (bit_vector)
    requires
        0xf0 <= b0 <= 0xf7,
        0x80 <= b1 <= 0xbf,
        0x80 <= b2 <= 0xbf,
        0x80 <= b3 <= 0xbf,
    ensures
        (0x10000 <= codepoint_width_4(b0, b1, b2, b3) <= 0x10ffff) <==> b0 <= 0xf4 && second_fits(
            b0,
            b1,
        ),
{
}

/// The bytes of a character that is cut short, by their ranges.
spec fn cut_short(rest: Seq<u8>) -> bool {
    ||| rest.len() == 1 && 0xc2 <= rest[0] <= 0xf4
    ||| rest.len() == 2 && 0xe0 <= rest[0] <= 0xf4 && second_fits(rest[0], rest[1])
    ||| rest.len() == 3 && 0xf0 <= rest[0] <= 0xf4 && second_fits(rest[0], rest[1])
        && is_continuation_byte(rest[2])
}

spec fn filler(b0: u8) -> u8 {
    if b0 == 0xe0 {
        0xa0
    } else if b0 == 0xf0 {
        0x90
    } else {
        0x80
    }
}

/// By the byte ranges of UTF-8, the bytes of a first scalar.
proof fn lemma_first_scalar_ranges(bytes: Seq<u8>)
    requires
        bytes.len() > 0,
        bytes[0] >= 0x80,
    ensures
        valid_first_scalar(bytes) <==> {
            ||| bytes.len() >= 2 && 0xc2 <= bytes[0] <= 0xdf && is_continuation_byte(bytes[1])
            ||| bytes.len() >= 3 && 0xe0 <= bytes[0] <= 0xef && second_fits(bytes[0], bytes[1])
                && is_continuation_byte(bytes[2])
            ||| bytes.len() >= 4 && 0xf0 <= bytes[0] <= 0xf4 && second_fits(bytes[0], bytes[1])
                && is_continuation_byte(bytes[2]) && is_continuation_byte(bytes[3])
        },
{
    let b = bytes;
    if b.len() >= 2 && 0xc0 <= b[0] <= 0xdf && is_continuation_byte(b[1]) {
        lemma_width_2(b[0], b[1]);
    }
    if b.len() >= 3 && 0xe0 <= b[0] <= 0xef && is_continuation_byte(b[1]) && is_continuation_byte(
        b[2],
    ) {
        lemma_width_3(b[0], b[1], b[2]);
    }
    if b.len() >= 4 && 0xf0 <= b[0] <= 0xf7 && is_continuation_byte(b[1]) && is_continuation_byte(
        b[2],
    ) && is_continuation_byte(b[3]) {
        lemma_width_4(b[0], b[1], b[2], b[3]);
        let cp = codepoint_width_4(b[0], b[1], b[2], b[3]);
        assert(0x10000 <= cp ==> not_surrogate(cp));
    }
}

proof fn lemma_incomplete_ranges(rest: Seq<u8>)
    requires
        !valid_first_scalar(rest),
    ensures
        incomplete(rest) <==> cut_short(rest),
{
    if rest.len() > 0 && rest[0] < 0x80 {
        let b = rest[0];
        assert((b & 0x7f) as u32 <= 0x7f) by (bit_vector);
        assert(valid_first_scalar(rest));
    }
    if cut_short(rest) {
        let more = if rest.len() == 1 {
            seq![filler(rest[0]), 0x80u8, 0x80u8]
        } else {
            seq![0x80u8, 0x80u8]
        };
        lemma_first_scalar_ranges(rest + more);
        assert(valid_first_scalar(rest + more));
    }
    if incomplete(rest) {
        let more = choose|more: Seq<u8>| #[trigger] valid_first_scalar(rest + more);
        let all = rest + more;
        assert(all[0] == rest[0]);
        lemma_first_scalar_ranges(all);
        lemma_first_scalar_ranges(rest);
        assert(rest.len() >= 2 ==> all[1] == rest[1]);
        assert(rest.len() >= 3 ==> all[2] == rest[2]);
        assert(rest.len() >= 4 ==> all[3] == rest[3]);
    }
}

/// A stream that is not UTF-8, with the decoder's description of the fault.
#[derive(Debug)]
pub enum Utf8Fault {
    /// A byte that no continuation makes valid.
    Invalid(String),
    /// The stream ended inside a character.
    Incomplete(String),
}

/// The model of [`Utf8Fault`].
pub enum Utf8FaultView {
    Invalid(Seq<char>),
    Incomplete(Seq<char>),
}

impl View for Utf8Fault {
    type V = Utf8FaultView;

    open spec fn view(&self) -> Utf8FaultView {
        match self {
            Utf8Fault::Invalid(detail) => Utf8FaultView::Invalid(detail@),
            Utf8Fault::Incomplete(detail) => Utf8FaultView::Incomplete(detail@),
        }
    }
}

impl Utf8FaultView {
    /// What a user reads of the fault.
    pub open spec fn message(self) -> Seq<char> {
        match self {
            Utf8FaultView::Invalid(detail) => "OpenAI Codex response contained invalid UTF-8: "@
                + detail,
            Utf8FaultView::Incomplete(detail) => "OpenAI Codex response ended with incomplete UTF-8: "@
                + detail,
        }
    }
}

impl Utf8Fault {
    /// What a user reads of the fault.
    pub fn message(&self) -> (r: String)
        ensures
            r@ == self@.message(),
    {
        match self {
            Utf8Fault::Invalid(detail) => {
                "OpenAI Codex response contained invalid UTF-8: ".to_owned().concat(detail.as_str())
            },
            Utf8Fault::Incomplete(detail) => {
                "OpenAI Codex response ended with incomplete UTF-8: ".to_owned().concat(
                    detail.as_str(),
                )
            },
        }
    }
}

/// The error of a failed UTF-8 check, which only [`describe_fault`] reads.
#[verifier::external_type_specification]
#[verifier::external_body]
pub struct ExUtf8Error(std::str::Utf8Error);

/// `std::str::from_utf8` succeeds exactly on valid UTF-8, and yields the
/// characters that the bytes encode.
pub assume_specification[ std::str::from_utf8 ](v: &[u8]) -> (r: Result<
    &str,
    std::str::Utf8Error,
>)
    ensures
        r is Ok <==> valid_utf8(v@),
        r matches Ok(s) ==> s@ == decode_utf8(v@),
;

/// What `std::str::Utf8Error` displays for bytes that are not UTF-8.
pub uninterp spec fn utf8_error_text(bytes: Seq<u8>) -> Seq<char>;

/// The text that the error of `std::str::from_utf8` displays for `bytes`, which
/// depends on the bytes alone.
#[verifier::external_body]
fn describe_fault(bytes: &[u8]) -> (r: String)
    requires
        !valid_utf8(bytes@),
    ensures
        r@ == utf8_error_text(bytes@),
{
    match std::str::from_utf8(bytes) {
        Ok(_) => String::new(),
        Err(err) => err.to_string(),
    }
}

/// The length of the character at index `i`, or 0 where none stands there.
fn scalar_len_at(bytes: &[u8], i: usize) -> (r: usize)
    requires
        i < bytes@.len(),
    ensures
        r == 0 <==> !valid_first_scalar(bytes@.skip(i as int)),
        r > 0 ==> r == length_of_first_scalar(bytes@.skip(i as int)),
        i + r <= bytes@.len(),
{
    let ghost rest = bytes@.skip(i as int);
    let n: usize = bytes.len() - i;
    let b0: u8 = bytes[i];
    if b0 < 0x80 {
        assert((b0 & 0x7f) as u32 <= 0x7f) by (bit_vector);
        return 1;
    }
    proof {
        lemma_first_scalar_ranges(rest);
    }
    if b0 < 0xc2 || 0xf4 < b0 || n < 2 {
        return 0;
    }
    let b1: u8 = bytes[i + 1];
    if b0 < 0xe0 {
        return if 0x80 <= b1 && b1 <= 0xbf {
            2
        } else {
            0
        };
    }
    if !second_byte_fits(b0, b1) || n < 3 {
        return 0;
    }
    let b2: u8 = bytes[i + 2];
    if b2 < 0x80 || 0xbf < b2 {
        return 0;
    }
    if b0 < 0xf0 {
        return 3;
    }
    if n < 4 {
        return 0;
    }
    let b3: u8 = bytes[i + 3];
    if b3 < 0x80 || 0xbf < b3 {
        return 0;
    }
    4
}

fn second_byte_fits(b0: u8, b1: u8) -> (r: bool)
    ensures
        r == second_fits(b0, b1),
{
    0x80 <= b1 && b1 <= 0xbf && (b0 != 0xe0 || b1 >= 0xa0) && (b0 != 0xed || b1 <= 0x9f) && (b0
        != 0xf0 || b1 >= 0x90) && (b0 != 0xf4 || b1 <= 0x8f)
}

/// The length of the longest valid prefix of `bytes`.
pub fn valid_up_to(bytes: &[u8]) -> (r: usize)
    ensures
        r == valid_len(bytes@),
        r <= bytes@.len(),
{
    let n: usize = bytes.len();
    let mut i: usize = 0;
    assert(bytes@.skip(0) =~= bytes@);
    while i < n
        invariant
            i <= n,
            n == bytes@.len(),
            valid_len(bytes@) == i + valid_len(bytes@.skip(i as int)),
        decreases n - i,
    {
        let k: usize = scalar_len_at(bytes, i);
        if k == 0 {
            return i;
        }
        assert(pop_first_scalar(bytes@.skip(i as int)) =~= bytes@.skip(i + k));
        i += k;
    }
    i
}

/// Whether more bytes can complete the character that `rest` begins.
fn awaits_more(rest: &[u8]) -> (r: bool)
    requires
        !valid_first_scalar(rest@),
    ensures
        r == incomplete(rest@),
{
    proof {
        lemma_incomplete_ranges(rest@);
    }
    let n: usize = rest.len();
    if n == 0 || n > 3 {
        return false;
    }
    let b0: u8 = rest[0];
    if n == 1 {
        return 0xc2 <= b0 && b0 <= 0xf4;
    }
    let b1: u8 = rest[1];
    if n == 2 {
        return 0xe0 <= b0 && b0 <= 0xf4 && second_byte_fits(b0, b1);
    }
    let b2: u8 = rest[2];
    0xf0 <= b0 && b0 <= 0xf4 && second_byte_fits(b0, b1) && 0x80 <= b2 && b2 <= 0xbf
}

/// Appends to `body` the characters that `chunk` completes.
///
/// The bytes in `pending` come before the chunk; those of a character that the
/// chunk's end cuts are kept there. A byte that no continuation makes valid is
/// a fault; the characters before it are appended all the same.
pub fn append_utf8_stream_chunk(body: &mut String, pending: &mut Vec<u8>, chunk: &[u8]) -> (r:
    Result<(), Utf8Fault>)
    ensures
        final(body)@ == old(body)@ + decoded(old(pending)@ + chunk@).text,
        final(pending)@ == decoded(old(pending)@ + chunk@).rest,
        r is Err <==> decoded(old(pending)@ + chunk@).broken,
        r matches Err(fault) ==> fault@ == Utf8FaultView::Invalid(
            utf8_error_text(old(pending)@ + chunk@),
        ),
{
    let ghost whole = old(pending)@ + chunk@;
    if pending.is_empty() {
        if let Ok(text) = std::str::from_utf8(chunk) {
            proof {
                assert(whole =~= chunk@);
                decoding_is_complete(whole);
                assert(pending@ =~= decoded(whole).rest);
            }
            body.append(text);
            return Ok(());
        }
    }
    pending.extend_from_slice(chunk);
    assert(pending@ =~= whole);
    let n: usize = valid_up_to(pending.as_slice());
    proof {
        lemma_valid_len(whole);
    }
    let head = slice_subrange(pending.as_slice(), 0, n);
    assert(head@ =~= whole.take(n as int));
    if let Ok(text) = std::str::from_utf8(head) {
        body.append(text);
    }
    let tail = slice_subrange(pending.as_slice(), n, pending.len());
    assert(tail@ =~= whole.skip(n as int));
    let outcome = if tail.is_empty() || awaits_more(tail) {
        Ok(())
    } else {
        Err(Utf8Fault::Invalid(describe_fault(pending.as_slice())))
    };
    let rest = pending.split_off(n);
    assert(rest@ =~= whole.skip(n as int));
    *pending = rest;
    outcome
}

/// Refuses a stream that ended while the bytes in `pending` waited for more.
pub fn expect_whole(pending: &[u8]) -> (r: Result<(), Utf8Fault>)
    requires
        pending@.len() == 0 || incomplete(pending@),
    ensures
        r is Err <==> pending@.len() > 0,
        r matches Err(fault) ==> fault@ == Utf8FaultView::Incomplete(utf8_error_text(pending@)),
{
    if pending.is_empty() {
        return Ok(());
    }
    Err(Utf8Fault::Incomplete(describe_fault(pending)))
}

/// What the chunks hold.
pub open spec fn chunk_bytes(chunks: Seq<&[u8]>) -> Seq<Seq<u8>> {
    chunks.map_values(|c: &[u8]| c@)
}

/// What feeding chunks one after another yields.
pub struct Fed {
    /// The characters completed so far.
    pub text: Seq<char>,
    /// The bytes of a character that is still cut.
    pub rest: Seq<u8>,
    /// The bytes at hand when a chunk turned out broken.
    pub broken: Option<Seq<u8>>,
}

/// Feeds `chunks` in order, behind the bytes in `pending`, until one is broken.
pub open spec fn fed(pending: Seq<u8>, chunks: Seq<Seq<u8>>) -> Fed
    decreases chunks.len(),
{
    if chunks.len() == 0 {
        Fed { text: Seq::empty(), rest: pending, broken: None }
    } else {
        let d = decoded(pending + chunks[0]);
        if d.broken {
            Fed { text: d.text, rest: d.rest, broken: Some(pending + chunks[0]) }
        } else {
            let later = fed(d.rest, chunks.drop_first());
            Fed { text: d.text + later.text, ..later }
        }
    }
}

/// The fault that feeding `chunks` ends in, if any.
pub open spec fn stream_fault(f: Fed) -> Option<Utf8FaultView> {
    match f.broken {
        Some(bytes) => Some(Utf8FaultView::Invalid(utf8_error_text(bytes))),
        None => if f.rest.len() > 0 {
            Some(Utf8FaultView::Incomplete(utf8_error_text(f.rest)))
        } else {
            None
        },
    }
}

/// However a byte stream is cut into chunks, feeding them yields what decoding
/// the whole stream yields.
pub proof fn feeding_is_decoding_the_whole(pending: Seq<u8>, chunks: Seq<Seq<u8>>)
    requires
        pending.len() == 0 || incomplete(pending),
    ensures
        ({
            let f = fed(pending, chunks);
            let whole = decoded(pending + chunks.flatten());
            &&& f.text == whole.text
            &&& f.broken is Some <==> whole.broken
            &&& f.broken is None ==> f.rest == whole.rest
        }),
    decreases chunks.len(),
{
    if chunks.len() == 0 {
        assert(pending + chunks.flatten() =~= pending);
        assert(pending.take(0) =~= Seq::<u8>::empty());
        assert(pending.skip(0) =~= pending);
        assert(decode_utf8(Seq::<u8>::empty()) =~= Seq::<char>::empty());
    } else {
        let x = pending + chunks[0];
        let y = chunks.drop_first().flatten();
        assert(pending + chunks.flatten() =~= x + y);
        decoding_is_chunk_independent(x, y);
        let d = decoded(x);
        if !d.broken {
            feeding_is_decoding_the_whole(d.rest, chunks.drop_first());
        }
    }
}

/// Decodes a byte stream that is cut into chunks anywhere.
///
/// It succeeds exactly when the chunks together are valid UTF-8, with the text
/// that they encode.
pub fn decode_utf8_stream_chunks(chunks: &[&[u8]]) -> (r: Result<String, Utf8Fault>)
    ensures
        r is Ok <==> valid_utf8(chunk_bytes(chunks@).flatten()),
        r matches Ok(text) ==> text@ == decode_utf8(chunk_bytes(chunks@).flatten()),
        r matches Err(fault) ==> stream_fault(fed(Seq::empty(), chunk_bytes(chunks@))) == Some(
            fault@,
        ),
{
    let ghost all = chunk_bytes(chunks@);
    proof {
        feeding_is_decoding_the_whole(Seq::empty(), all);
        assert(Seq::<u8>::empty() + all.flatten() =~= all.flatten());
        decoding_is_complete(all.flatten());
    }
    let mut body = String::new();
    let mut pending: Vec<u8> = Vec::new();
    let mut i: usize = 0;
    assert(all.skip(0) =~= all);
    while i < chunks.len()
        invariant
            i <= chunks@.len(),
            all == chunk_bytes(chunks@),
            pending@.len() == 0 || incomplete(pending@),
            fed(Seq::empty(), all).text =~= body@ + fed(pending@, all.skip(i as int)).text,
            fed(Seq::empty(), all).rest == fed(pending@, all.skip(i as int)).rest,
            fed(Seq::empty(), all).broken == fed(pending@, all.skip(i as int)).broken,
            fed(Seq::empty(), all).broken is None && fed(Seq::empty(), all).rest.len() == 0
                <==> valid_utf8(all.flatten()),
        decreases chunks@.len() - i,
    {
        assert(all.skip(i as int).drop_first() =~= all.skip(i + 1));
        if let Err(fault) = append_utf8_stream_chunk(&mut body, &mut pending, chunks[i]) {
            return Err(fault);
        }
        i += 1;
    }
    if let Err(fault) = expect_whole(pending.as_slice()) {
        return Err(fault);
    }
    Ok(body)
}

} // verus!
