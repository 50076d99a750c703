use vstd::prelude::*;
use vstd::utf8::{valid_utf8, decode_utf8, encode_utf8};
use vstd::string::StringSliceAdditionalSpecFns;
use crate::escape::{escaped, escape_bytes, lemma_escape_plain, plain_byte, DOUBLE_QUOTE};

verus! {

/// Where reading stops when the declared payload is too large to take whole.
pub const FRAME_CAP: u32 = 1000;

/// The four bytes of `n` in the host's byte order.
pub open spec fn prefix_bytes(n: u32, big_endian: bool) -> Seq<u8> {
    let b0 = (n % 256) as u8;
    let b1 = (n / 256 % 256) as u8;
    let b2 = (n / 65536 % 256) as u8;
    let b3 = (n / 16777216) as u8;
    if big_endian {
        seq![b3, b2, b1, b0]
    } else {
        seq![b0, b1, b2, b3]
    }
}

/// The integer that four bytes hold in the host's byte order.
pub open spec fn native_u32(h: Seq<u8>, big_endian: bool) -> nat {
    if big_endian {
        (h[0] * 16777216 + h[1] * 65536 + h[2] * 256 + h[3]) as nat
    } else {
        (h[0] + h[1] * 256 + h[2] * 65536 + h[3] * 16777216) as nat
    }
}

/// The length written in the prefix of the frame of `text`: the escaped
/// text and its two enclosing quotes, kept to 32 bits.
pub open spec fn frame_length(text: Seq<u8>) -> u32 {
    ((escaped(text).len() + 2) % 4294967296) as u32
}

/// The complete frame that carries `text`.
pub open spec fn frame(text: Seq<u8>, big_endian: bool) -> Seq<u8> {
    prefix_bytes(frame_length(text), big_endian) + seq![34u8] + escaped(text) + seq![34u8]
}

/// Builds the frame for `text`: a four-byte length in the host's byte order,
/// then the escaped text between double quotes.
pub fn encode_frame(text: &str, big_endian: bool) -> (r: Vec<u8>)
    ensures
        r@ == frame(text.spec_bytes(), big_endian),
{
    let (esc, _count) = escape_bytes(text.as_bytes());
    let m: u64 = esc.len() as u64;
    let low: u64 = m % 4294967296;
    let n: u32 = if low >= 4294967294 {
        (low - 4294967294) as u32
    } else {
        (low + 2) as u32
    };
    assert(n == (m + 2) % 4294967296) by (nonlinear_arith)
        requires
            low == m % 4294967296,
            n == (if low >= 4294967294 { low - 4294967294 } else { low + 2 }),
    ;
    assert(n == frame_length(text.spec_bytes()));
    let b0 = (n % 256) as u8;
    let b1 = (n / 256 % 256) as u8;
    let b2 = (n / 65536 % 256) as u8;
    let b3 = (n / 16777216) as u8;
    let mut buf: Vec<u8> = Vec::new();
    if big_endian {
        buf.push(b3);
        buf.push(b2);
        buf.push(b1);
        buf.push(b0);
    } else {
        buf.push(b0);
        buf.push(b1);
        buf.push(b2);
        buf.push(b3);
    }
    assert(buf@ =~= prefix_bytes(n, big_endian));
    buf.push(DOUBLE_QUOTE);
    let mut i: usize = 0;
    while i < esc.len()
        invariant
            i <= esc@.len(),
            buf@ == prefix_bytes(n, big_endian) + seq![34u8] + esc@.subrange(0, i as int),
        decreases esc@.len() - i,
    {
        buf.push(esc[i]);
        i = i + 1;
        assert(buf@ =~= prefix_bytes(n, big_endian) + seq![34u8] + esc@.subrange(0, i as int));
    }
    buf.push(DOUBLE_QUOTE);
    assert(esc@.subrange(0, i as int) =~= esc@);
    buf
}


/// A decoded text message and its length in bytes.
pub struct ValidMessage {
    pub length: u32,
    pub content: String,
}

impl View for ValidMessage {
    type V = (u32, Seq<char>);

    open spec fn view(&self) -> (u32, Seq<char>) {
        (self.length, self.content@)
    }
}

/// What one frame decodes to.
pub enum Message {
    /// The bytes arrived but held no usable text.
    Empty,
    /// Reading the bytes failed.
    Fail,
    Valid(ValidMessage),
}

/// The abstract value of a `Message`.
pub enum MessageView {
    Empty,
    Fail,
    Valid(u32, Seq<char>),
}

impl View for Message {
    type V = MessageView;

    open spec fn view(&self) -> MessageView {
        match self {
            Message::Empty => MessageView::Empty,
            Message::Fail => MessageView::Fail,
            Message::Valid(m) => MessageView::Valid(m.length, m.content@),
        }
    }
}

impl Message {
    /// Wraps `text` as a valid message, with its length in bytes.
    pub fn new(text: String) -> (r: Message)
        ensures
            r is Valid,
            r->Valid_0.content@ == text@,
            encode_utf8(text@).len() < 4294967296 ==> r->Valid_0.length == encode_utf8(
                text@,
            ).len(),
    {
        #[verifier::truncate]
        let length = text.as_str().len() as u32;
        Message::Valid(ValidMessage { length, content: text })
    }
}

/// The content with one enclosing pair of double quotes removed, when it has
/// more than two bytes and starts and ends with a double quote.
pub open spec fn strip_quotes(c: Seq<u8>) -> Seq<u8> {
    if c.len() > 2 && c[0] == 34 && c.last() == 34 {
        c.subrange(1, c.len() - 1)
    } else {
        c
    }
}

/// The message that the collected content of a frame decodes to: its text
/// when there is some and it is UTF-8, else `Empty`.
pub open spec fn message_of(c: Seq<u8>) -> MessageView {
    let t = strip_quotes(c);
    if t.len() > 0 && valid_utf8(t) {
        MessageView::Valid(t.len() as u32, decode_utf8(t))
    } else {
        MessageView::Empty
    }
}

/// Relies on String::from_utf8: it accepts exactly the valid UTF-8 byte
/// sequences and keeps the text that they encode.
#[verifier::external_body]
fn text_from_utf8(bytes: Vec<u8>) -> (r: Option<String>)
    ensures
        r is Some <==> valid_utf8(bytes@),
        r is Some ==> r->0@ == decode_utf8(bytes@),
{
    String::from_utf8(bytes).ok()
}

/// Turns the bytes collected from a frame into a message: strips one pair of
/// enclosing quotes, then checks that the rest is UTF-8 text.
pub fn message_from_content(content: Vec<u8>) -> (r: Message)
    ensures
        r@ == message_of(content@),
{
    let mut c = content;
    let n = c.len();
    if n > 2 && c[0] == DOUBLE_QUOTE && c[n - 1] == DOUBLE_QUOTE {
        c.pop();
        c.remove(0);
        assert(c@ =~= content@.subrange(1, content@.len() - 1));
    }
    if c.len() == 0 {
        return Message::Empty;
    }
    let length = c.len() as u32;
    match text_from_utf8(c) {
        Some(s) => Message::Valid(ValidMessage { length, content: s }),
        None => Message::Empty,
    }
}

/// Where a frame decoder stands after some bytes.
pub struct DecodeState {
    pub big_endian: bool,
    /// The number of bytes read.
    pub pos: nat,
    /// The prefix bytes read so far (at most four).
    pub header: Seq<u8>,
    /// The position at which reading stops.
    pub limit: nat,
    /// The payload bytes kept.
    pub content: Seq<u8>,
    /// Whether the frame is complete.
    pub done: bool,
}

pub open spec fn initial_decode_state(big_endian: bool) -> DecodeState {
    DecodeState {
        big_endian,
        pos: 0,
        header: Seq::empty(),
        limit: 1000,
        content: Seq::empty(),
        done: false,
    }
}

/// The stop position for a declared payload length: the whole frame when it
/// fits in the cap, else the cap.
pub open spec fn frame_limit(declared: nat) -> nat {
    if declared + 4 < 1004 {
        declared + 4
    } else {
        1000
    }
}

/// One byte read by the decoder.
pub open spec fn decode_step(s: DecodeState, byte: u8) -> DecodeState {
    if s.pos < 4 {
        DecodeState { pos: s.pos + 1, header: s.header.push(byte), ..s }
    } else if s.pos == 4 {
        let lim = frame_limit(native_u32(s.header, s.big_endian));
        DecodeState {
            pos: 5,
            limit: lim,
            content: if lim > 4 { s.content.push(byte) } else { s.content },
            done: 5 >= lim,
            ..s
        }
    } else if byte == 10 || byte == 13 {
        DecodeState { pos: s.pos + 1, done: true, ..s }
    } else {
        DecodeState {
            pos: s.pos + 1,
            content: s.content.push(byte),
            done: s.pos + 1 >= s.limit,
            ..s
        }
    }
}

/// The decoder's state after it was offered the bytes of `input` in order;
/// once the frame is complete it takes no more.
pub open spec fn decode_run(input: Seq<u8>, big_endian: bool) -> DecodeState
    decreases input.len(),
{
    if input.len() == 0 {
        initial_decode_state(big_endian)
    } else {
        let s = decode_run(input.drop_last(), big_endian);
        if s.done {
            s
        } else {
            decode_step(s, input.last())
        }
    }
}

/// Reads one frame a byte at a time.
pub struct FrameDecoder {
    big_endian: bool,
    pos: u32,
    header: Vec<u8>,
    limit: u32,
    content: Vec<u8>,
    done: bool,
}

impl View for FrameDecoder {
    type V = DecodeState;

    closed spec fn view(&self) -> DecodeState {
        DecodeState {
            big_endian: self.big_endian,
            pos: self.pos as nat,
            header: self.header@,
            limit: self.limit as nat,
            content: self.content@,
            done: self.done,
        }
    }
}

impl FrameDecoder {
    pub closed spec fn wf(&self) -> bool {
        &&& self.pos <= 1003
        &&& self.limit <= 1003
        &&& self.header@.len() == if self.pos < 4 { self.pos as nat } else { 4 }
        &&& self.content@.len() <= self.pos
        &&& (self.pos < 5 ==> self.limit == 1000 && !self.done)
        &&& (self.pos >= 5 && !self.done ==> self.pos < self.limit)
        &&& (self.pos >= 5 ==> self.pos <= self.limit + 1)
    }

    pub fn new(big_endian: bool) -> (r: FrameDecoder)
        ensures
            r.wf(),
            r@ == initial_decode_state(big_endian),
    {
        FrameDecoder {
            big_endian,
            pos: 0,
            header: Vec::new(),
            limit: FRAME_CAP,
            content: Vec::new(),
            done: false,
        }
    }

    /// Whether the frame is complete.
    pub fn is_done(&self) -> (r: bool)
        ensures
            r == self@.done,
    {
        self.done
    }

    /// Offers the next byte of the stream.
    pub fn feed(&mut self, byte: u8)
        requires
            old(self).wf(),
            !old(self)@.done,
        ensures
            final(self).wf(),
            final(self)@ == decode_step(old(self)@, byte),
    {
        if self.pos < 4 {
            self.header.push(byte);
            self.pos = self.pos + 1;
        } else if self.pos == 4 {
            let h0 = self.header[0] as u32;
            let h1 = self.header[1] as u32;
            let h2 = self.header[2] as u32;
            let h3 = self.header[3] as u32;
            let declared: u32 = if self.big_endian {
                h0 * 16777216 + h1 * 65536 + h2 * 256 + h3
            } else {
                h0 + h1 * 256 + h2 * 65536 + h3 * 16777216
            };
            assert(declared as nat == native_u32(self.header@, self.big_endian));
            if declared < 1000 {
                self.limit = declared + 4;
            }
            if self.limit > 4 {
                self.content.push(byte);
            }
            self.pos = 5;
            self.done = 5 >= self.limit;
        } else if byte == 10 || byte == 13 {
            self.pos = self.pos + 1;
            self.done = true;
        } else {
            self.content.push(byte);
            self.pos = self.pos + 1;
            self.done = self.pos >= self.limit;
        }
    }

    /// The message that the bytes read so far decode to.
    pub fn finish(self) -> (r: Message)
        ensures
            r@ == message_of(self@.content),
    {
        message_from_content(self.content)
    }
}

/// Once the frame is complete, further bytes change nothing.
pub proof fn lemma_decode_run_done(input: Seq<u8>, big_endian: bool, i: int)
    requires
        0 <= i <= input.len(),
        decode_run(input.subrange(0, i), big_endian).done,
    ensures
        decode_run(input, big_endian) == decode_run(input.subrange(0, i), big_endian),
    decreases input.len() - i,
{
    if i < input.len() {
        assert(input.subrange(0, i + 1).drop_last() =~= input.subrange(0, i));
        lemma_decode_run_done(input, big_endian, i + 1);
    } else {
        assert(input.subrange(0, i) =~= input);
    }
}

/// Decodes one frame from the front of `input`; returns the message and the
/// number of bytes the frame took.
pub fn decode_frame(input: &[u8], big_endian: bool) -> (r: (Message, usize))
    ensures
        r.0@ == message_of(decode_run(input@, big_endian).content),
        r.1 == decode_run(input@, big_endian).pos,
{
    let mut dec = FrameDecoder::new(big_endian);
    let mut i: usize = 0;
    while i < input.len() && !dec.is_done()
        invariant
            i <= input@.len(),
            dec.wf(),
            dec@ == decode_run(input@.subrange(0, i as int), big_endian),
        decreases input@.len() - i,
    {
        assert(input@.subrange(0, i + 1).drop_last() =~= input@.subrange(0, i as int));
        dec.feed(input[i]);
        i = i + 1;
    }
    proof {
        if dec@.done {
            lemma_decode_run_done(input@, big_endian, i as int);
        } else {
            assert(input@.subrange(0, i as int) =~= input@);
        }
    }
    let consumed = dec.pos as usize;
    (dec.finish(), consumed)
}


/// No LF or CR byte stands among the payload bytes that the cap admits after
/// the first one, in the first `k` bytes of `input`.
pub open spec fn no_line_break_before(input: Seq<u8>, k: int) -> bool {
    forall|i: int| 5 <= i < k && i < 1000 ==> input[i] != 10 && input[i] != 13
}

proof fn lemma_cap_prefix(input: Seq<u8>, big_endian: bool, k: int)
    requires
        4 <= input.len(),
        0 <= k <= input.len(),
        native_u32(input.subrange(0, 4), big_endian) + 4 >= 1004,
    ensures
        decode_run(input.subrange(0, k), big_endian).big_endian == big_endian,
        decode_run(input.subrange(0, k), big_endian).pos <= k,
        decode_run(input.subrange(0, k), big_endian).pos <= 1000,
        k <= 4 ==> decode_run(input.subrange(0, k), big_endian).pos == k,
        k <= 4 ==> decode_run(input.subrange(0, k), big_endian).header == input.subrange(0, k),
        k <= 4 ==> !decode_run(input.subrange(0, k), big_endian).done,
        k <= 4 ==> decode_run(input.subrange(0, k), big_endian).limit == 1000,
        k >= 5 ==> decode_run(input.subrange(0, k), big_endian).pos >= 5,
        k >= 5 ==> decode_run(input.subrange(0, k), big_endian).limit == 1000,
        k >= 5 && !decode_run(input.subrange(0, k), big_endian).done ==> decode_run(
            input.subrange(0, k),
            big_endian,
        ).pos < 1000,
        no_line_break_before(input, k) ==> decode_run(input.subrange(0, k), big_endian).pos == (
        if k < 1000 {
            k
        } else {
            1000
        }),
        no_line_break_before(input, k) ==> (decode_run(input.subrange(0, k), big_endian).done
            <==> k >= 1000),
    decreases k,
{
    let pre = input.subrange(0, k);
    if k == 0 {
        assert(pre =~= Seq::<u8>::empty());
    } else {
        lemma_cap_prefix(input, big_endian, k - 1);
        assert(pre.drop_last() =~= input.subrange(0, k - 1));
        assert(pre.last() == input[k - 1]);
        let prev = decode_run(input.subrange(0, k - 1), big_endian);
        assert(decode_run(pre, big_endian) == (if prev.done {
            prev
        } else {
            decode_step(prev, input[k - 1])
        }));
        if k - 1 == 4 {
            let h = decode_run(input.subrange(0, 4), big_endian).header;
            assert(h == input.subrange(0, 4));
        }
        if k <= 4 {
            assert(decode_run(input.subrange(0, k - 1), big_endian).header.push(input[k - 1])
                =~= input.subrange(0, k));
        }
        if no_line_break_before(input, k) {
            assert(no_line_break_before(input, k - 1));
        }
    }
}

/// A frame that declares a payload too large for the cap takes at most the
/// cap's number of bytes, prefix included, and exactly that many when the
/// stream holds them with no line break among the payload bytes after the first.
pub proof fn lemma_size_cap(input: Seq<u8>, big_endian: bool)
    requires
        4 <= input.len(),
        native_u32(input.subrange(0, 4), big_endian) + 4 >= 1004,
    ensures
        decode_run(input, big_endian).pos <= 1000,
        input.len() >= 1000 && no_line_break_before(input, 1000) ==> decode_run(
            input,
            big_endian,
        ).pos == 1000,
{
    lemma_cap_prefix(input, big_endian, input.len() as int);
    assert(input.subrange(0, input.len() as int) =~= input);
    if input.len() >= 1000 && no_line_break_before(input, 1000) {
        assert(no_line_break_before(input, input.len() as int));
    }
}


/// Reading back the prefix gives the length that was written.
pub proof fn lemma_prefix_round_trip(n: u32, big_endian: bool)
    ensures
        prefix_bytes(n, big_endian).len() == 4,
        native_u32(prefix_bytes(n, big_endian), big_endian) == n,
{
    let x = n as int;
    let b0 = x % 256;
    let b1 = x / 256 % 256;
    let b2 = x / 65536 % 256;
    let b3 = x / 16777216;
    assert(b0 + b1 * 256 + b2 * 65536 + b3 * 16777216 == x) by (nonlinear_arith)
        requires
            0 <= x < 4294967296,
            b0 == x % 256,
            b1 == x / 256 % 256,
            b2 == x / 65536 % 256,
            b3 == x / 16777216,
    ;
    assert(0 <= b3 < 256) by (nonlinear_arith)
        requires
            0 <= x < 4294967296,
            b3 == x / 16777216,
    ;
}


proof fn lemma_whole_frame_prefix(f: Seq<u8>, big_endian: bool, k: int)
    requires
        6 <= f.len() < 1004,
        native_u32(f.subrange(0, 4), big_endian) + 4 == f.len(),
        f[4] == 34,
        forall|i: int| 5 <= i < f.len() ==> f[i] != 10 && f[i] != 13,
        0 <= k <= f.len(),
    ensures
        decode_run(f.subrange(0, k), big_endian).big_endian == big_endian,
        k <= 4 ==> decode_run(f.subrange(0, k), big_endian).pos == k,
        k <= 4 ==> decode_run(f.subrange(0, k), big_endian).header == f.subrange(0, k),
        k <= 4 ==> !decode_run(f.subrange(0, k), big_endian).done,
        k <= 4 ==> decode_run(f.subrange(0, k), big_endian).content == Seq::<u8>::empty(),
        k >= 5 ==> decode_run(f.subrange(0, k), big_endian).pos == k,
        k >= 5 ==> decode_run(f.subrange(0, k), big_endian).limit == f.len(),
        k >= 5 ==> decode_run(f.subrange(0, k), big_endian).content == f.subrange(4, k),
        decode_run(f.subrange(0, k), big_endian).done <==> k >= f.len(),
    decreases k,
{
    let pre = f.subrange(0, k);
    if k == 0 {
        assert(pre =~= Seq::<u8>::empty());
    } else {
        lemma_whole_frame_prefix(f, big_endian, k - 1);
        assert(pre.drop_last() =~= f.subrange(0, k - 1));
        assert(pre.last() == f[k - 1]);
        let prev = decode_run(f.subrange(0, k - 1), big_endian);
        assert(decode_run(pre, big_endian) == (if prev.done {
            prev
        } else {
            decode_step(prev, f[k - 1])
        }));
        if k <= 4 {
            assert(prev.header.push(f[k - 1]) =~= f.subrange(0, k));
        } else if k == 5 {
            assert(prev.header == f.subrange(0, 4));
            assert(Seq::<u8>::empty().push(f[4]) =~= f.subrange(4, 5));
        } else {
            assert(prev.content.push(f[k - 1]) =~= f.subrange(4, k));
        }
    }
}

/// A printable ASCII character other than the double quote and the backslash.
pub open spec fn plain_char(c: char) -> bool {
    ' ' <= c <= '~' && c != '"' && c != '\\'
}

/// Decoding the frame that carries plain text gives back that text, and the
/// decoder takes exactly the frame's bytes.
pub proof fn lemma_round_trip(t: Seq<char>, big_endian: bool)
    requires
        1 <= t.len() <= 997,
        forall|i: int| 0 <= i < t.len() ==> plain_char(#[trigger] t[i]),
    ensures
        decode_run(frame(encode_utf8(t), big_endian), big_endian).pos == frame(
            encode_utf8(t),
            big_endian,
        ).len(),
        message_of(decode_run(frame(encode_utf8(t), big_endian), big_endian).content)
            == MessageView::Valid(t.len() as u32, t),
{
    broadcast use vstd::utf8::encode_utf8_valid_utf8, vstd::utf8::encode_utf8_decode_utf8;

    let b = encode_utf8(t);
    assert(vstd::utf8::is_ascii_chars(t));
    vstd::utf8::is_ascii_chars_encode_utf8(t);
    assert forall|i: int| 0 <= i < b.len() implies plain_byte(#[trigger] b[i]) by {
        assert(plain_char(t[i]));
        assert(t[i] as u8 == b[i]);
    }
    lemma_escape_plain(b);
    let n = frame_length(b);
    assert(n == b.len() + 2);
    let f = frame(b, big_endian);
    lemma_prefix_round_trip(n, big_endian);
    assert(f.subrange(0, 4) =~= prefix_bytes(n, big_endian));
    assert(f.len() == b.len() + 6);
    assert forall|i: int| 5 <= i < f.len() implies f[i] != 10 && f[i] != 13 by {
        if i < f.len() - 1 {
            assert(f[i] == b[i - 5]);
            assert(plain_byte(b[i - 5]));
        }
    }
    lemma_whole_frame_prefix(f, big_endian, f.len() as int);
    assert(f.subrange(0, f.len() as int) =~= f);
    let c = f.subrange(4, f.len() as int);
    assert(c.subrange(1, c.len() - 1) =~= b);
}

} // verus!
