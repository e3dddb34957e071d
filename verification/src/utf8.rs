//! UTF-8 byte lengths of character sequences, and conversions between
//! `str`/`String` and vectors of `char`.
use vstd::prelude::*;
use vstd::utf8::*;

verus! {

/// Number of bytes in the UTF-8 encoding of `s` (what `str::len` returns).
pub open spec fn byte_len(s: Seq<char>) -> nat {
    encode_utf8(s).len()
}

/// Number of bytes in the UTF-8 encoding of one character.
pub open spec fn char_width(c: char) -> nat {
    encode_scalar(c as u32).len()
}

pub proof fn lemma_char_width(c: char)
    ensures
        1 <= char_width(c) <= 4,
        (c as u32) < 0x80 ==> char_width(c) == 1,
        0x80 <= (c as u32) < 0x800 ==> char_width(c) == 2,
        0x800 <= (c as u32) < 0x10000 ==> char_width(c) == 3,
        0x10000 <= (c as u32) ==> char_width(c) == 4,
{
}

pub proof fn lemma_encode_concat(a: Seq<char>, b: Seq<char>)
    ensures
        encode_utf8(a + b) == encode_utf8(a) + encode_utf8(b),
        byte_len(a + b) == byte_len(a) + byte_len(b),
    decreases a.len(),
{
    if a.len() == 0 {
        assert(a + b =~= b);
        assert(encode_utf8(a) =~= Seq::<u8>::empty());
        assert(encode_utf8(a) + encode_utf8(b) =~= encode_utf8(b));
    } else {
        assert((a + b).drop_first() =~= a.drop_first() + b);
        assert((a + b)[0] == a[0]);
        lemma_encode_concat(a.drop_first(), b);
        assert(encode_utf8(a + b) =~= encode_scalar(a[0] as u32) + encode_utf8(a.drop_first() + b));
        assert(encode_utf8(a + b) =~= encode_utf8(a) + encode_utf8(b));
    }
}

pub proof fn lemma_byte_len_push(s: Seq<char>, c: char)
    ensures
        byte_len(s.push(c)) == byte_len(s) + char_width(c),
{
    lemma_encode_concat(s, seq![c]);
    assert(s.push(c) =~= s + seq![c]);
    assert(seq![c].drop_first() =~= Seq::<char>::empty());
    assert(encode_utf8(seq![c]) =~= encode_scalar(c as u32) + encode_utf8(Seq::<char>::empty()));
}

/// A sequence's bytes are at least as many as its characters.
pub proof fn lemma_byte_len_ge(s: Seq<char>)
    ensures
        byte_len(s) >= s.len(),
        byte_len(s) <= 4 * s.len(),
    decreases s.len(),
{
    if s.len() > 0 {
        lemma_byte_len_ge(s.drop_last());
        lemma_byte_len_push(s.drop_last(), s.last());
        assert(s.drop_last().push(s.last()) =~= s);
        lemma_char_width(s.last());
    }
}

/// Byte length grows with the prefix taken.
pub proof fn lemma_byte_len_take_mono(s: Seq<char>, i: int, j: int)
    requires
        0 <= i <= j <= s.len(),
    ensures
        byte_len(s.take(i)) + (j - i) <= byte_len(s.take(j)),
        byte_len(s.take(j)) <= byte_len(s),
{
    lemma_encode_concat(s.take(i), s.subrange(i, j));
    assert(s.take(i) + s.subrange(i, j) =~= s.take(j));
    lemma_byte_len_ge(s.subrange(i, j));
    lemma_encode_concat(s.take(j), s.skip(j));
    assert(s.take(j) + s.skip(j) =~= s);
}

/// Byte length of the prefix of `i + 1` characters.
pub proof fn lemma_byte_len_take_succ(s: Seq<char>, i: int)
    requires
        0 <= i < s.len(),
    ensures
        byte_len(s.take(i + 1)) == byte_len(s.take(i)) + char_width(s[i]),
{
    assert(s.take(i + 1) =~= s.take(i).push(s[i]));
    lemma_byte_len_push(s.take(i), s[i]);
}

/// The UTF-8 width of a character, as `char::len_utf8` computes it.
pub fn len_utf8(c: char) -> (r: usize)
    ensures
        r == char_width(c),
        1 <= r <= 4,
{
    proof {
        lemma_char_width(c);
    }
    let v = c as u32;
    if v < 0x80 {
        1
    } else if v < 0x800 {
        2
    } else if v < 0x10000 {
        3
    } else {
        4
    }
}

/// The characters of `s`, in order.
pub fn chars_of(s: &str) -> (v: Vec<char>)
    ensures
        v@ == s@,
{
    broadcast use vstd::string::group_string_axioms;

    let mut v: Vec<char> = Vec::new();
    for ch in it: s.chars()
        invariant
            it.seq() == s@,
            v@ == it.seq().take(it.index() as int),
    {
        assert(it.seq().take(it.index() + 1) =~= it.seq().take(it.index() as int).push(ch));
        v.push(ch);
    }
    assert(s@.take(s@.len() as int) =~= s@);
    v
}

/// Appends one character to a `String`, as `String::push` does.
#[verifier::external_body]
pub fn push_char(s: &mut String, c: char)
    ensures
        final(s)@ == old(s)@.push(c),
{
    s.push(c);
}

/// A `String` holding the first `n` characters of `v`.
pub fn string_from_chars(v: &[char], n: usize) -> (s: String)
    requires
        n <= v@.len(),
    ensures
        s@ == v@.take(n as int),
{
    let mut s = String::new();
    let mut i: usize = 0;
    while i < n
        invariant
            i <= n <= v@.len(),
            s@ == v@.take(i as int),
        decreases n - i,
    {
        assert(v@.take(i + 1) =~= v@.take(i as int).push(v@[i as int]));
        push_char(&mut s, v[i]);
        i = i + 1;
    }
    s
}

/// A `String` holding the characters of `v` from index `from` up to `to`.
pub fn string_from_range(v: &[char], from: usize, to: usize) -> (s: String)
    requires
        from <= to <= v@.len(),
    ensures
        s@ == v@.subrange(from as int, to as int),
{
    let mut s = String::new();
    let mut i: usize = from;
    while i < to
        invariant
            from <= i <= to <= v@.len(),
            s@ == v@.subrange(from as int, i as int),
        decreases to - i,
    {
        assert(v@.subrange(from as int, i + 1) =~= v@.subrange(from as int, i as int).push(
            v@[i as int],
        ));
        push_char(&mut s, v[i]);
        i = i + 1;
    }
    s
}

/// Byte length of the first `n` characters of `v`.
pub fn byte_len_prefix(v: &[char], n: usize) -> (r: usize)
    requires
        n <= v@.len(),
        byte_len(v@) <= usize::MAX,
    ensures
        r == byte_len(v@.take(n as int)),
{
    let mut r: usize = 0;
    let mut i: usize = 0;
    assert(v@.take(0) =~= Seq::<char>::empty());
    while i < n
        invariant
            i <= n <= v@.len(),
            byte_len(v@) <= usize::MAX,
            r == byte_len(v@.take(i as int)),
        decreases n - i,
    {
        proof {
            lemma_byte_len_take_succ(v@, i as int);
            lemma_byte_len_take_mono(v@, i + 1, v@.len() as int);
            assert(v@.take(v@.len() as int) =~= v@);
        }
        r = r + len_utf8(v[i]);
        i = i + 1;
    }
    r
}

/// Whether the first `n` characters of `v` take fewer than `bound` bytes.
pub fn byte_len_below(v: &[char], n: usize, bound: usize) -> (r: bool)
    requires
        n <= v@.len(),
        bound <= usize::MAX - 4,
    ensures
        r == (byte_len(v@.take(n as int)) < bound),
{
    if bound == 0 {
        return false;
    }
    let mut r: usize = 0;
    let mut i: usize = 0;
    assert(v@.take(0) =~= Seq::<char>::empty());
    while i < n
        invariant
            i <= n <= v@.len(),
            bound <= usize::MAX - 4,
            r == byte_len(v@.take(i as int)),
            r < bound,
        decreases n - i,
    {
        proof {
            lemma_byte_len_take_succ(v@, i as int);
        }
        r = r + len_utf8(v[i]);
        i = i + 1;
        if r >= bound {
            proof {
                lemma_byte_len_take_mono(v@, i as int, n as int);
                assert(v@.take(n as int).take(n as int) =~= v@.take(n as int));
                lemma_byte_len_take_mono(v@.take(n as int), 0, n as int);
                assert(v@.take(n as int).take(i as int) =~= v@.take(i as int));
                lemma_byte_len_take_mono(v@.take(n as int), i as int, n as int);
            }
            return false;
        }
    }
    true
}

/// The first `n` characters of `v`.
pub fn slice_prefix(v: &[char], n: usize) -> (r: &[char])
    requires
        n <= v@.len(),
    ensures
        r@ == v@.take(n as int),
{
    vstd::slice::slice_subrange(v, 0, n)
}

/// Whether two character sequences are equal.
pub fn chars_eq(a: &[char], b: &[char]) -> (r: bool)
    ensures
        r == (a@ == b@),
{
    if a.len() != b.len() {
        return false;
    }
    let mut i: usize = 0;
    while i < a.len()
        invariant
            i <= a@.len() == b@.len(),
            forall|j: int| 0 <= j < i ==> a@[j] == b@[j],
        decreases a@.len() - i,
    {
        if a[i] != b[i] {
            return false;
        }
        i = i + 1;
    }
    assert(a@ =~= b@);
    true
}

/// Whether the string `a` holds the same characters as `b`.
pub fn str_eq(a: &str, b: &str) -> (r: bool)
    ensures
        r == (a@ == b@),
{
    let va = chars_of(a);
    let vb = chars_of(b);
    chars_eq(va.as_slice(), vb.as_slice())
}

/// The one-character sequence `a`.
pub fn lit1(a: char) -> (v: Vec<char>)
    ensures
        v@ == seq![a],
{
    let mut v = Vec::new();
    v.push(a);
    assert(v@ =~= seq![a]);
    v
}

/// The two-character sequence `a b`.
pub fn lit2(a: char, b: char) -> (v: Vec<char>)
    ensures
        v@ == seq![a, b],
{
    let mut v = Vec::new();
    v.push(a);
    v.push(b);
    assert(v@ =~= seq![a, b]);
    v
}

/// The three-character sequence `a b c`.
pub fn lit3(a: char, b: char, c: char) -> (v: Vec<char>)
    ensures
        v@ == seq![a, b, c],
{
    let mut v = Vec::new();
    v.push(a);
    v.push(b);
    v.push(c);
    assert(v@ =~= seq![a, b, c]);
    v
}

/// The four-character sequence `a b c d`.
pub fn lit4(a: char, b: char, c: char, d: char) -> (v: Vec<char>)
    ensures
        v@ == seq![a, b, c, d],
{
    let mut v = Vec::new();
    v.push(a);
    v.push(b);
    v.push(c);
    v.push(d);
    assert(v@ =~= seq![a, b, c, d]);
    v
}

/// The five-character sequence `a b c d e`.
pub fn lit5(a: char, b: char, c: char, d: char, e: char) -> (v: Vec<char>)
    ensures
        v@ == seq![a, b, c, d, e],
{
    let mut v = Vec::new();
    v.push(a);
    v.push(b);
    v.push(c);
    v.push(d);
    v.push(e);
    assert(v@ =~= seq![a, b, c, d, e]);
    v
}

/// Whether `v` holds exactly the characters of `lit`.
pub fn is_lit(v: &[char], lit: Vec<char>) -> (r: bool)
    ensures
        r == (v@ == lit@),
{
    chars_eq(v, lit.as_slice())
}

} // verus!
