use vstd::prelude::*;

verus! {

/// The front of `s` up to, not including, the first `c`; all of `s` when
/// there is none.
pub open spec fn take_until(s: Seq<char>, c: char) -> Seq<char>
    decreases s.len(),
{
    if s.len() == 0 {
        s
    } else if s[0] == c {
        Seq::empty()
    } else {
        seq![s[0]] + take_until(s.drop_first(), c)
    }
}

/// The pieces of `s` between occurrences of `c`: one more than there are
/// occurrences, empty ones included.
pub open spec fn split_on(s: Seq<char>, c: char) -> Seq<Seq<char>>
    decreases s.len(),
{
    let k = take_until(s, c).len() as int;
    if k >= s.len() {
        seq![s]
    } else {
        seq![s.subrange(0, k)] + split_on(s.subrange(k + 1, s.len() as int), c)
    }
}

/// The first `c` in `s` stands at `k`, or there is none and `k` is the length.
pub proof fn lemma_take_until(s: Seq<char>, c: char, k: int)
    requires
        0 <= k <= s.len(),
        forall|j: int| 0 <= j < k ==> s[j] != c,
        k < s.len() ==> s[k] == c,
    ensures
        take_until(s, c) == s.subrange(0, k),
    decreases s.len(),
{
    if s.len() == 0 {
        assert(s.subrange(0, 0) =~= s);
    } else if k == 0 {
        assert(s.subrange(0, 0) =~= Seq::<char>::empty());
    } else {
        let t = s.drop_first();
        assert forall|j: int| 0 <= j < k - 1 implies t[j] != c by {
            assert(t[j] == s[j + 1]);
        }
        lemma_take_until(t, c, k - 1);
        assert(seq![s[0]] + t.subrange(0, k - 1) =~= s.subrange(0, k));
    }
}

/// Whether `s` holds the same text as `w`.
pub fn same_text(s: &String, w: &str) -> (r: bool)
    ensures
        r == (s@ == w@),
{
    let o = w.to_owned();
    s.eq(&o)
}

/// Finds the first `c` in `s` at or after `from`, or the length.
fn find_char(s: &str, len: usize, c: char, from: usize) -> (k: usize)
    requires
        len == s@.len(),
        from <= len,
    ensures
        from <= k <= len,
        forall|j: int| from <= j < k ==> s@[j] != c,
        k < len ==> s@[k as int] == c,
{
    let mut k = from;
    while k < len && s.get_char(k) != c
        invariant
            from <= k <= len,
            len == s@.len(),
            forall|j: int| from <= j < k ==> s@[j] != c,
        decreases len - k,
    {
        k = k + 1;
    }
    k
}

/// Splits `s` at every `c`, as `str::split` with a character does.
pub fn split_text(s: &str, c: char) -> (r: Vec<String>)
    ensures
        r.deep_view() == split_on(s@, c),
{
    let len = s.unicode_len();
    let mut pieces: Vec<String> = Vec::new();
    let mut start: usize = 0;
    assert(s@.subrange(0, len as int) =~= s@);
    assert(pieces.deep_view() =~= Seq::<Seq<char>>::empty());
    assert(split_on(s@, c) =~= pieces.deep_view() + split_on(s@, c));
    loop
        invariant
            start <= len,
            len == s@.len(),
            split_on(s@, c) == pieces.deep_view() + split_on(s@.subrange(start as int, len as int), c),
        decreases len - start,
    {
        let k = find_char(s, len, c, start);
        let ghost rest = s@.subrange(start as int, len as int);
        proof {
            assert forall|j: int| 0 <= j < k - start implies rest[j] != c by {
                assert(rest[j] == s@[start + j]);
            }
            lemma_take_until(rest, c, k - start);
        }
        let piece = s.substring_char(start, k).to_owned();
        assert(piece@ =~= rest.subrange(0, k - start));
        let ghost before = pieces.deep_view();
        pieces.push(piece);
        assert(pieces.deep_view() =~= before.push(piece@));
        if k >= len {
            assert(split_on(rest, c) == seq![rest]);
            assert(rest.subrange(0, k - start) =~= rest);
            assert(before + split_on(rest, c) =~= pieces.deep_view());
            return pieces;
        }
        assert(rest.subrange(k - start + 1, rest.len() as int) =~= s@.subrange(k + 1, len as int));
        assert(before + split_on(rest, c) =~= pieces.deep_view() + split_on(
            s@.subrange(k + 1, len as int),
            c,
        ));
        start = k + 1;
    }
}

} // verus!
