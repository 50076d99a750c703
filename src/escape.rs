use vstd::prelude::*;

verus! {

/// The two quoting regions the escaper tracks while it walks a byte sequence.
#[derive(Clone, Copy, Debug, PartialEq, Eq, Structural)]
pub struct QuoteState {
    pub double_open: bool,
    pub single_open: bool,
}

pub const BACKSLASH: u8 = 92;

pub const DOUBLE_QUOTE: u8 = 34;

pub const SINGLE_QUOTE: u8 = 39;

/// The state the escaper starts in: inside a double-quoted region.
pub open spec fn start_state() -> QuoteState {
    QuoteState { double_open: true, single_open: false }
}

/// Whether `byte` gets a backslash in front of it when met in state `s`.
pub open spec fn needs_escape(s: QuoteState, byte: u8) -> bool {
    if byte == 92 || byte == 9 || byte == 10 || byte == 13 {
        true
    } else if byte == 34 {
        !s.single_open
    } else if byte == 39 {
        !s.double_open
    } else {
        false
    }
}

/// The byte emitted (after the optional backslash) for `byte`.
pub open spec fn mapped_byte(byte: u8) -> u8 {
    if byte == 9 {
        114u8
    } else if byte == 10 {
        110u8
    } else if byte == 13 {
        116u8
    } else {
        byte
    }
}

/// The state after reading `byte` in state `s`.
pub open spec fn next_state(s: QuoteState, byte: u8) -> QuoteState {
    if byte == 34 && !s.single_open {
        QuoteState { double_open: !s.double_open, ..s }
    } else if byte == 39 && !s.double_open {
        QuoteState { single_open: !s.single_open, ..s }
    } else {
        s
    }
}

/// The bytes emitted for `byte` in state `s`.
pub open spec fn emitted(s: QuoteState, byte: u8) -> Seq<u8> {
    if needs_escape(s, byte) {
        seq![92u8, mapped_byte(byte)]
    } else {
        seq![mapped_byte(byte)]
    }
}

/// The state after reading all of `b` from state `s`.
pub open spec fn state_after(s: QuoteState, b: Seq<u8>) -> QuoteState
    decreases b.len(),
{
    if b.len() == 0 {
        s
    } else {
        next_state(state_after(s, b.drop_last()), b.last())
    }
}

/// The escaped form of `b`, read from state `s`.
pub open spec fn escaped_from(s: QuoteState, b: Seq<u8>) -> Seq<u8>
    decreases b.len(),
{
    if b.len() == 0 {
        Seq::empty()
    } else {
        escaped_from(s, b.drop_last()) + emitted(state_after(s, b.drop_last()), b.last())
    }
}

/// The escaped form of `b`, read from the start state.
pub open spec fn escaped(b: Seq<u8>) -> Seq<u8> {
    escaped_from(start_state(), b)
}

/// Reading `a + b` is reading `a`, then `b` from where `a` left off.
pub proof fn lemma_state_after_concat(s: QuoteState, a: Seq<u8>, b: Seq<u8>)
    ensures
        state_after(s, a + b) == state_after(state_after(s, a), b),
    decreases b.len(),
{
    if b.len() == 0 {
        assert(a + b =~= a);
    } else {
        assert((a + b).drop_last() =~= a + b.drop_last());
        lemma_state_after_concat(s, a, b.drop_last());
    }
}

/// Reading the escaper's output from the same state ends in the same quote
/// state as reading its input: the escaper only adds backslashes and maps
/// control bytes to letters, and it emits every quote byte it reads, in order.
pub proof fn lemma_escape_keeps_quote_state(s: QuoteState, b: Seq<u8>)
    ensures
        state_after(s, escaped_from(s, b)) == state_after(s, b),
    decreases b.len(),
{
    if b.len() > 0 {
        let front = b.drop_last();
        let x = b.last();
        let mid = state_after(s, front);
        lemma_escape_keeps_quote_state(s, front);
        lemma_state_after_concat(s, escaped_from(s, front), emitted(mid, x));
        let e = emitted(mid, x);
        if needs_escape(mid, x) {
            assert(e.drop_last() =~= seq![92u8]);
            assert(seq![92u8].drop_last() =~= Seq::<u8>::empty());
            assert(state_after(mid, Seq::<u8>::empty()) == mid);
            assert(seq![92u8].last() == 92u8);
            assert(state_after(mid, seq![92u8]) == mid);
            assert(e.last() == mapped_byte(x));
            assert(state_after(mid, e) == next_state(mid, mapped_byte(x)));
        } else {
            assert(e.drop_last() =~= Seq::<u8>::empty());
            assert(state_after(mid, Seq::<u8>::empty()) == mid);
            assert(e.last() == mapped_byte(x));
            assert(state_after(mid, e) == next_state(mid, mapped_byte(x)));
        }
    }
}

/// A printable ASCII byte other than the double quote and the backslash.
pub open spec fn plain_byte(x: u8) -> bool {
    32 <= x <= 126 && x != 34 && x != 92
}

/// From the start state, plain bytes pass through unchanged and leave the
/// state as it was.
pub proof fn lemma_escape_plain(b: Seq<u8>)
    requires
        forall|i: int| 0 <= i < b.len() ==> plain_byte(#[trigger] b[i]),
    ensures
        state_after(start_state(), b) == start_state(),
        escaped(b) == b,
    decreases b.len(),
{
    if b.len() > 0 {
        let front = b.drop_last();
        assert forall|i: int| 0 <= i < front.len() implies plain_byte(#[trigger] front[i]) by {
            assert(front[i] == b[i]);
        }
        lemma_escape_plain(front);
        assert(plain_byte(b[b.len() - 1]));
        assert(front.push(b.last()) =~= b);
    }
}

/// Escapes `bytes` and returns the escaped bytes together with the number of
/// backslashes that were inserted.
pub fn escape_bytes(bytes: &[u8]) -> (r: (Vec<u8>, usize))
    ensures
        r.0@ == escaped(bytes@),
        r.1 == r.0@.len() - bytes@.len(),
{
    let mut out: Vec<u8> = Vec::new();
    let mut count: usize = 0;
    let mut double_open = true;
    let mut single_open = false;
    let mut i: usize = 0;
    while i < bytes.len()
        invariant
            i <= bytes@.len(),
            out@ == escaped(bytes@.subrange(0, i as int)),
            (QuoteState { double_open, single_open }) == state_after(
                start_state(),
                bytes@.subrange(0, i as int),
            ),
            count == out@.len() - i,
            count <= i,
        decreases bytes@.len() - i,
    {
        let ghost pre = bytes@.subrange(0, i as int);
        let byte = bytes[i];
        assert(bytes@.subrange(0, i + 1).drop_last() =~= pre);
        let mut escape = true;
        let mut mapped = byte;
        if byte == 9 {
            mapped = 114;
        } else if byte == 10 {
            mapped = 110;
        } else if byte == 13 {
            mapped = 116;
        } else if byte == DOUBLE_QUOTE {
            if single_open {
                escape = false;
            } else {
                double_open = !double_open;
            }
        } else if byte == SINGLE_QUOTE {
            if double_open {
                escape = false;
            } else {
                single_open = !single_open;
            }
        } else if byte != BACKSLASH {
            escape = false;
        }
        if escape {
            out.push(BACKSLASH);
            count = count + 1;
        }
        out.push(mapped);
        i = i + 1;
    }
    assert(bytes@.subrange(0, i as int) =~= bytes@);
    (out, count)
}

} // verus!
