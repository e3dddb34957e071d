//! Character classes of Kazakh Cyrillic, syllable counting, vowel harmony
//! and byte-offset prefix tables.
use vstd::prelude::*;

use vstd::utf8::encode_utf8;
use crate::utf8::{byte_len, chars_of, char_width, len_utf8, lemma_byte_len_take_mono, lemma_byte_len_take_succ, lemma_char_width};

verus! {

/// Back (hard) vowels: а о ұ ы у.
pub open spec fn spec_back_vowel(c: char) -> bool {
    c == 'а' || c == 'о' || c == 'ұ' || c == 'ы' || c == 'у'
}

/// Front (soft) vowels: ә е ө ү і и ё.
pub open spec fn spec_front_vowel(c: char) -> bool {
    c == 'ә' || c == 'е' || c == 'ө' || c == 'ү' || c == 'і' || c == 'и' || c == 'ё'
}

pub open spec fn spec_vowel(c: char) -> bool {
    spec_back_vowel(c) || spec_front_vowel(c)
}

/// Loan vowels я and э.
pub open spec fn spec_loan_vowel(c: char) -> bool {
    c == 'я' || c == 'э'
}

/// Glides у, и, ю: invisible to vowel harmony.
pub open spec fn spec_glide(c: char) -> bool {
    c == 'у' || c == 'и' || c == 'ю'
}

/// A syllable nucleus: a native or a loan vowel.
pub open spec fn spec_vocalic(c: char) -> bool {
    spec_vowel(c) || spec_loan_vowel(c)
}

/// Number of syllable nuclei (native and loan vowels) in `s`.
pub open spec fn syll_count(s: Seq<char>) -> nat
    decreases s.len(),
{
    if s.len() == 0 {
        0
    } else {
        syll_count(s.drop_last()) + if spec_vocalic(s.last()) {
            1nat
        } else {
            0nat
        }
    }
}

/// Harmony class of a word: that of its last non-glide vowel carrying one
/// (я counts as back, э as front); back when there is none.
pub open spec fn spec_word_is_back(s: Seq<char>) -> bool
    decreases s.len(),
{
    if s.len() == 0 {
        true
    } else {
        let c = s.last();
        if !spec_glide(c) && (spec_back_vowel(c) || c == 'я') {
            true
        } else if !spec_glide(c) && (spec_front_vowel(c) || c == 'э') {
            false
        } else {
            spec_word_is_back(s.drop_last())
        }
    }
}

/// The non-glide vowels (native or loan) of `s`, in order.
pub open spec fn tail_vowels(s: Seq<char>) -> Seq<char>
    decreases s.len(),
{
    if s.len() == 0 {
        Seq::empty()
    } else {
        let c = s.last();
        if !spec_glide(c) && (spec_back_vowel(c) || spec_front_vowel(c) || spec_loan_vowel(c)) {
            tail_vowels(s.drop_last()).push(c)
        } else {
            tail_vowels(s.drop_last())
        }
    }
}

/// Harmony class read off the end of a word: the last non-glide vowel, or the
/// one before it when the last is a loan vowel; back when there is none.
pub open spec fn spec_tail_is_back(s: Seq<char>) -> bool {
    let t = tail_vowels(s);
    if t.len() == 0 {
        true
    } else if spec_loan_vowel(t.last()) {
        if t.len() >= 2 {
            spec_back_vowel(t[t.len() - 2])
        } else {
            true
        }
    } else {
        spec_back_vowel(t.last())
    }
}

/// Whether a base `s` admits a suffix of harmony class `h`
/// (0: any, 1: back, 2: front).
pub open spec fn spec_harmony_ok(s: Seq<char>, h: u8) -> bool {
    if h == 0 {
        true
    } else if s.len() == 0 {
        false
    } else if h == 1 && spec_word_is_back(s) {
        true
    } else if h == 2 && !spec_word_is_back(s) {
        true
    } else if (syll_count(s) as i32) >= 4 {
        if h == 1 {
            spec_tail_is_back(s)
        } else {
            !spec_tail_is_back(s)
        }
    } else {
        false
    }
}

pub fn is_back_vowel(cp: char) -> (r: bool)
    ensures
        r == spec_back_vowel(cp),
{
    cp == 'а' || cp == 'о' || cp == 'ұ' || cp == 'ы' || cp == 'у'
}

pub fn is_front_vowel(cp: char) -> (r: bool)
    ensures
        r == spec_front_vowel(cp),
{
    cp == 'ә' || cp == 'е' || cp == 'ө' || cp == 'ү' || cp == 'і' || cp == 'и' || cp == 'ё'
}

pub fn is_vowel(cp: char) -> (r: bool)
    ensures
        r == spec_vowel(cp),
{
    is_back_vowel(cp) || is_front_vowel(cp)
}

/// Vowel including loan vowels (я/э), for guards that care about whether a
/// stem ends vocalically rather than about native harmony class.
pub fn is_vocalic(cp: char) -> (r: bool)
    ensures
        r == spec_vocalic(cp),
{
    is_vowel(cp) || is_loan_vowel(cp)
}

pub fn is_glide(cp: char) -> (r: bool)
    ensures
        r == spec_glide(cp),
{
    cp == 'у' || cp == 'и' || cp == 'ю'
}

pub fn is_loan_vowel(cp: char) -> (r: bool)
    ensures
        r == spec_loan_vowel(cp),
{
    cp == 'я' || cp == 'э'
}

/// The last character of `s`, if any.
pub fn utf8_last_cp(s: &str) -> (r: Option<char>)
    ensures
        r == (if s@.len() == 0 {
            None
        } else {
            Some(s@.last())
        }),
{
    let v = chars_of(s);
    if v.len() == 0 {
        None
    } else {
        Some(v[v.len() - 1])
    }
}

/// Number of characters of `s`, as an `i32` (wrapping like `as i32`).
pub fn utf8_char_count(s: &str) -> (r: i32)
    ensures
        r == s@.len() as i32,
{
    let v = chars_of(s);
    v.len() as i32
}

/// Number of syllable nuclei in the first `n` characters of `w`.
pub fn prefix_syllables(w: &[char], n: usize) -> (r: usize)
    requires
        n <= w@.len(),
    ensures
        r == syll_count(w@.take(n as int)),
        r <= n,
{
    let mut r: usize = 0;
    let mut i: usize = 0;
    assert(w@.take(0) =~= Seq::<char>::empty());
    while i < n
        invariant
            i <= n <= w@.len(),
            r == syll_count(w@.take(i as int)),
            r <= i,
        decreases n - i,
    {
        assert(w@.take(i + 1).drop_last() =~= w@.take(i as int));
        if is_vocalic(w[i]) {
            r = r + 1;
        }
        i = i + 1;
    }
    r
}

/// Number of syllable nuclei in `s`, as an `i32` (wrapping like `as i32`).
pub fn count_syllables(s: &str) -> (r: i32)
    ensures
        r == syll_count(s@) as i32,
{
    let v = chars_of(s);
    assert(v@.take(v@.len() as int) =~= v@);
    let n = prefix_syllables(v.as_slice(), v.len());
    n as i32
}

/// Harmony class of the first `n` characters of `w`.
pub fn prefix_is_back(w: &[char], n: usize) -> (r: bool)
    requires
        n <= w@.len(),
    ensures
        r == spec_word_is_back(w@.take(n as int)),
{
    let mut back = true;
    let mut i: usize = 0;
    assert(w@.take(0) =~= Seq::<char>::empty());
    while i < n
        invariant
            i <= n <= w@.len(),
            back == spec_word_is_back(w@.take(i as int)),
        decreases n - i,
    {
        let cp = w[i];
        assert(w@.take(i + 1).drop_last() =~= w@.take(i as int));
        if !is_glide(cp) {
            if is_back_vowel(cp) || cp == 'я' {
                back = true;
            } else if is_front_vowel(cp) || cp == 'э' {
                back = false;
            }
        }
        i = i + 1;
    }
    back
}

pub fn word_is_back(s: &str) -> (r: bool)
    ensures
        r == spec_word_is_back(s@),
{
    let v = chars_of(s);
    assert(v@.take(v@.len() as int) =~= v@);
    prefix_is_back(v.as_slice(), v.len())
}

/// The last two entries of `t`, with `'\0'` where `t` is too short.
pub open spec fn last_two_of(t: Seq<char>) -> (char, char) {
    (if t.len() >= 2 {
        t[t.len() - 2]
    } else {
        '\0'
    }, if t.len() >= 1 {
        t.last()
    } else {
        '\0'
    })
}

/// Tail harmony computed from the last two tail vowels.
fn tail_back_from(prev: char, last: char) -> (r: bool)
    ensures
        forall|t: Seq<char>|
            last_two_of(t) == (prev, last) && (forall|j: int|
                0 <= j < t.len() ==> #[trigger] t[j] != '\0') ==> r == tail_back_of(t),
{
    if last == '\0' {
        true
    } else if is_loan_vowel(last) {
        if prev != '\0' {
            is_back_vowel(prev)
        } else {
            true
        }
    } else {
        is_back_vowel(last)
    }
}

/// `spec_tail_is_back` in terms of the tail vowel sequence itself.
pub open spec fn tail_back_of(t: Seq<char>) -> bool {
    if t.len() == 0 {
        true
    } else if spec_loan_vowel(t.last()) {
        if t.len() >= 2 {
            spec_back_vowel(t[t.len() - 2])
        } else {
            true
        }
    } else {
        spec_back_vowel(t.last())
    }
}

proof fn lemma_tail_vowels_nonzero(s: Seq<char>)
    ensures
        forall|j: int| 0 <= j < tail_vowels(s).len() ==> #[trigger] tail_vowels(s)[j] != '\0',
    decreases s.len(),
{
    if s.len() > 0 {
        lemma_tail_vowels_nonzero(s.drop_last());
        let t = tail_vowels(s.drop_last());
        assert forall|j: int| 0 <= j < tail_vowels(s).len() implies #[trigger] tail_vowels(s)[j]
            != '\0' by {
            if j < t.len() {
                assert(tail_vowels(s)[j] == t[j]);
            }
        }
    }
}

/// Tail harmony of the first `n` characters of `w`.
pub fn prefix_tail_is_back(w: &[char], n: usize) -> (r: bool)
    requires
        n <= w@.len(),
    ensures
        r == spec_tail_is_back(w@.take(n as int)),
{
    let mut prev = '\0';
    let mut last = '\0';
    let mut i: usize = 0;
    assert(w@.take(0) =~= Seq::<char>::empty());
    while i < n
        invariant
            i <= n <= w@.len(),
            (prev, last) == last_two_of(tail_vowels(w@.take(i as int))),
        decreases n - i,
    {
        let cp = w[i];
        assert(w@.take(i + 1).drop_last() =~= w@.take(i as int));
        if !is_glide(cp) {
            if is_back_vowel(cp) || is_front_vowel(cp) || is_loan_vowel(cp) {
                prev = last;
                last = cp;
            }
        }
        i = i + 1;
    }
    proof {
        lemma_tail_vowels_nonzero(w@.take(n as int));
    }
    tail_back_from(prev, last)
}

/// Whether the first `n` characters of `w` admit a suffix of harmony `harmony`.
pub fn prefix_harmony_ok(w: &[char], n: usize, harmony: u8) -> (r: bool)
    requires
        n <= w@.len(),
    ensures
        r == spec_harmony_ok(w@.take(n as int), harmony),
{
    if harmony == 0 {
        return true;
    }
    if n == 0 {
        return false;
    }
    let full_back = prefix_is_back(w, n);
    if harmony == 1 && full_back {
        return true;
    }
    if harmony == 2 && !full_back {
        return true;
    }
    if (prefix_syllables(w, n) as i32) >= 4 {
        let tb = prefix_tail_is_back(w, n);
        if harmony == 1 {
            return tb;
        }
        return !tb;
    }
    false
}

pub fn harmony_ok(s: &str, harmony: u8) -> (r: bool)
    ensures
        r == spec_harmony_ok(s@, harmony),
{
    let v = chars_of(s);
    assert(v@.take(v@.len() as int) =~= v@);
    prefix_harmony_ok(v.as_slice(), v.len(), harmony)
}

/// `s` ends with `x`.
pub open spec fn ends_with(s: Seq<char>, x: Seq<char>) -> bool {
    x.len() <= s.len() && s.skip(s.len() - x.len()) == x
}

/// Whether the first `n` characters of `w` end with `x`.
pub fn prefix_ends_with(w: &[char], n: usize, x: &[char]) -> (r: bool)
    requires
        n <= w@.len(),
    ensures
        r == ends_with(w@.take(n as int), x@),
{
    if x.len() > n {
        return false;
    }
    let off = n - x.len();
    let mut i: usize = 0;
    while i < x.len()
        invariant
            i <= x@.len(),
            off + x@.len() == n <= w@.len(),
            forall|j: int| 0 <= j < i ==> w@[off + j] == x@[j],
        decreases x@.len() - i,
    {
        if w[off + i] != x[i] {
            assert(w@.take(n as int).skip(off as int)[i as int] == w@[off + i]);
            return false;
        }
        i = i + 1;
    }
    assert(w@.take(n as int).skip(off as int) =~= x@);
    true
}

/// Table size: stem() never explores words of `MAX_STEM_BYTES` (128) bytes
/// or longer, so fixed arrays suffice.
pub const TABLE_LEN: usize = 129;

/// Number of characters of `s` whose encoding starts before byte offset `b`.
pub open spec fn chars_before(s: Seq<char>, b: int) -> nat
    decreases s.len(),
{
    if s.len() == 0 || b <= 0 {
        0
    } else if b > byte_len(s.drop_last()) {
        s.len()
    } else {
        chars_before(s.drop_last(), b)
    }
}

/// Every byte offset inside the encoding of character `k` (or just past it)
/// counts `k + 1` characters before it.
pub proof fn lemma_chars_before_step(s: Seq<char>, k: int, b: int)
    requires
        0 <= k < s.len(),
        byte_len(s.take(k)) < b <= byte_len(s.take(k + 1)),
    ensures
        chars_before(s, b) == k + 1,
    decreases s.len(),
{
    let d = s.drop_last();
    if k + 1 == s.len() {
        assert(s.take(k) =~= d);
    } else {
        assert(d.take(k) =~= s.take(k));
        assert(d.take(k + 1) =~= s.take(k + 1));
        lemma_byte_len_take_mono(d, k + 1, d.len() as int);
        lemma_chars_before_step(d, k, b);
    }
}

/// At the byte offset where character `k` starts, `k` characters precede.
pub proof fn lemma_chars_before_boundary(s: Seq<char>, k: int)
    requires
        0 <= k <= s.len(),
    ensures
        chars_before(s, byte_len(s.take(k)) as int) == k,
{
    if k > 0 {
        lemma_byte_len_take_succ(s, k - 1);
        lemma_char_width(s[k - 1]);
        lemma_chars_before_step(s, k - 1, byte_len(s.take(k)) as int);
    } else {
        assert(s.take(0) =~= Seq::<char>::empty());
    }
}

/// The table entries at byte offset `b` still hold their initial values.
pub open spec fn is_initial(chars: Seq<i32>, syll: Seq<i32>, hb: Seq<bool>, tb: Seq<bool>, b: int) -> bool {
    chars[b] == 0 && syll[b] == 0 && hb[b] && tb[b]
}

/// The table entries at byte offset `b` for the word `s`.
pub open spec fn entry_holds(
    chars: Seq<i32>,
    syll: Seq<i32>,
    hb: Seq<bool>,
    tb: Seq<bool>,
    s: Seq<char>,
    b: int,
) -> bool {
    if b <= byte_len(s) {
        let k = chars_before(s, b) as int;
        &&& chars[b] == k
        &&& syll[b] == syll_count(s.take(k))
        &&& hb[b] == spec_word_is_back(s.take(k))
        &&& tb[b] == spec_tail_is_back(s.take(k))
    } else {
        &&& chars[b] == 0
        &&& syll[b] == 0
        &&& hb[b]
        &&& tb[b]
    }
}

/// Prefix sums indexed by UTF-8 byte offset `b`: `chars[b]` / `syll[b]` count
/// Unicode scalars and vowel-based syllables in `s[0..b)`. `harm_back[b]` and
/// `tail_back[b]` precompute [`word_is_back`] / tail harmony for `s[0..b)`
/// so harmony checks during the search are O(1) instead of prefix rescans.
#[derive(Clone, Copy, Debug)]
pub struct PrefixTables {
    pub chars: [i32; TABLE_LEN],
    pub syll: [i32; TABLE_LEN],
    pub harm_back: [bool; TABLE_LEN],
    pub tail_back: [bool; TABLE_LEN],
}

impl PrefixTables {
    /// The tables are those of the word `s`.
    pub open spec fn describes(self, s: Seq<char>) -> bool {
        &&& byte_len(s) < TABLE_LEN
        &&& forall|b: int|
            0 <= b < TABLE_LEN ==> #[trigger] entry_holds(
                self.chars@,
                self.syll@,
                self.harm_back@,
                self.tail_back@,
                s,
                b,
            )
    }

    /// What `harmony_ok_at` answers, from the tables' contents.
    pub open spec fn spec_harmony_ok_at(self, b: int, harmony: u8) -> bool {
        if harmony == 0 {
            true
        } else if b == 0 {
            false
        } else if harmony == 1 && self.harm_back@[b] {
            true
        } else if harmony == 2 && !self.harm_back@[b] {
            true
        } else if self.syll@[b] >= 4 {
            if harmony == 1 {
                self.tail_back@[b]
            } else {
                !self.tail_back@[b]
            }
        } else {
            false
        }
    }

    /// O(1) equivalent of `harmony_ok(&s[..b], harmony)`.
    pub fn harmony_ok_at(&self, b: usize, harmony: u8) -> (r: bool)
        requires
            b < TABLE_LEN,
        ensures
            r == self.spec_harmony_ok_at(b as int, harmony),
    {
        if harmony == HARM_ANY_CLASS {
            return true;
        }
        if b == 0 {
            return false;
        }
        let full_back = self.harm_back[b];
        if harmony == 1 && full_back {
            return true;
        }
        if harmony == 2 && !full_back {
            return true;
        }
        if self.syll[b] >= 4 {
            let tb = self.tail_back[b];
            return if harmony == 1 {
                tb
            } else {
                !tb
            };
        }
        false
    }
}

/// Tables describing a word give its character and syllable counts.
pub proof fn lemma_tables_counts(t: PrefixTables, s: Seq<char>, b: int)
    requires
        t.describes(s),
        0 <= b < TABLE_LEN,
    ensures
        byte_len(s) < TABLE_LEN,
        b <= byte_len(s) ==> t.chars@[b] == chars_before(s, b) && t.syll@[b] == syll_count(
            s.take(chars_before(s, b) as int),
        ),
        b > byte_len(s) ==> t.chars@[b] == 0 && t.syll@[b] == 0,
{
    assert(entry_holds(t.chars@, t.syll@, t.harm_back@, t.tail_back@, s, b));
}

/// `harmony_ok_at` on the tables of `s` answers what `harmony_ok` answers on
/// the part of `s` before byte offset `b`.
pub proof fn lemma_harmony_ok_at_agrees(t: PrefixTables, s: Seq<char>, b: int, harmony: u8)
    requires
        t.describes(s),
        0 <= b <= byte_len(s),
    ensures
        t.spec_harmony_ok_at(b, harmony) == spec_harmony_ok(
            s.take(chars_before(s, b) as int),
            harmony,
        ),
{
    assert(entry_holds(t.chars@, t.syll@, t.harm_back@, t.tail_back@, s, b));
    let k = chars_before(s, b) as int;
    if b > 0 {
        assert(k > 0) by {
            if k == 0 {
                lemma_chars_before_pos(s, b);
            }
        }
    }
    lemma_chars_before_le(s, b);
    lemma_syll_le(s.take(k));
}

proof fn lemma_chars_before_pos(s: Seq<char>, b: int)
    requires
        0 < b <= byte_len(s),
    ensures
        chars_before(s, b) > 0,
    decreases s.len(),
{
    if s.len() == 0 {
        assert(byte_len(s) == 0);
    } else if b <= byte_len(s.drop_last()) {
        lemma_chars_before_pos(s.drop_last(), b);
    }
}

proof fn lemma_chars_before_le(s: Seq<char>, b: int)
    ensures
        chars_before(s, b) <= s.len(),
    decreases s.len(),
{
    if s.len() > 0 && b > 0 && b <= byte_len(s.drop_last()) {
        lemma_chars_before_le(s.drop_last(), b);
    }
}

proof fn lemma_syll_le(s: Seq<char>)
    ensures
        syll_count(s) <= s.len(),
    decreases s.len(),
{
    if s.len() > 0 {
        lemma_syll_le(s.drop_last());
    }
}

const HARM_ANY_CLASS: u8 = 0;

/// The prefix tables of the word `s`.
pub open spec fn spec_tables(s: Seq<char>) -> PrefixTables {
    choose|t: PrefixTables| t.describes(s)
}

/// Tables describing a word are unique: they are [`spec_tables`] of it.
pub proof fn lemma_tables_unique(t: PrefixTables, s: Seq<char>)
    requires
        t.describes(s),
    ensures
        spec_tables(s) == t,
{
    let u = spec_tables(s);
    assert(u.describes(s));
    assert forall|b: int| 0 <= b < TABLE_LEN implies u.chars@[b] == t.chars@[b] && u.syll@[b]
        == t.syll@[b] && u.harm_back@[b] == t.harm_back@[b] && u.tail_back@[b] == t.tail_back@[b] by {
        assert(entry_holds(u.chars@, u.syll@, u.harm_back@, u.tail_back@, s, b));
        assert(entry_holds(t.chars@, t.syll@, t.harm_back@, t.tail_back@, s, b));
    }
    assert(u.chars@ =~= t.chars@);
    assert(u.syll@ =~= t.syll@);
    assert(u.harm_back@ =~= t.harm_back@);
    assert(u.tail_back@ =~= t.tail_back@);
    vstd::array::axiom_array_ext_equal(u.chars, t.chars);
    vstd::array::axiom_array_ext_equal(u.syll, t.syll);
    vstd::array::axiom_array_ext_equal(u.harm_back, t.harm_back);
    vstd::array::axiom_array_ext_equal(u.tail_back, t.tail_back);
}

/// Build prefix tables for [`PrefixTables`]. `s` must be shorter than
/// `MAX_STEM_BYTES + 1` bytes.
#[verifier::spinoff_prover]
pub fn fill_prefix_tables(s: &str) -> (r: PrefixTables)
    requires
        byte_len(s@) < TABLE_LEN,
    ensures
        r.describes(s@),
        r == spec_tables(s@),
        forall|b: int|
            0 <= b <= byte_len(s@) ==> #[trigger] r.chars@[b] == chars_before(s@, b)
                && r.syll@[b] == syll_count(s@.take(chars_before(s@, b) as int)),
        forall|b: int| byte_len(s@) < b < TABLE_LEN ==> #[trigger] r.chars@[b] == 0 && r.syll@[b] == 0,
{
    let len = s.len();
    let v = chars_of(s);
    let mut chars = [0i32; TABLE_LEN];
    let mut syll = [0i32; TABLE_LEN];
    let mut harm_back = [true; TABLE_LEN];
    let mut tail_back = [true; TABLE_LEN];

    let mut nsyll: i32 = 0;
    // Incremental state mirroring word_is_back / tail harmony.
    let mut wb_back = true;
    let mut prev = '\0';
    let mut last = '\0';

    let mut i: usize = 0;
    let mut k: usize = 0;
    assert(v@.take(0) =~= Seq::<char>::empty());
    proof {
        lemma_byte_len_take_mono(v@, 0, v@.len() as int);
        assert(v@.take(v@.len() as int) =~= v@);
        lemma_syll_le(v@);
        crate::utf8::lemma_byte_len_ge(v@);
    }
    while k < v.len()
        invariant
            k <= v@.len(),
            v@ == s@,
            len == byte_len(v@),
            len < TABLE_LEN,
            i == byte_len(v@.take(k as int)),
            i <= len,
            k <= i,
            nsyll == syll_count(v@.take(k as int)),
            nsyll <= k,
            wb_back == spec_word_is_back(v@.take(k as int)),
            (prev, last) == last_two_of(tail_vowels(v@.take(k as int))),
            forall|b: int|
                0 <= b <= i ==> #[trigger] entry_holds(
                    chars@,
                    syll@,
                    harm_back@,
                    tail_back@,
                    v@,
                    b,
                ),
            forall|b: int|
                i < b < TABLE_LEN ==> #[trigger] is_initial(
                    chars@,
                    syll@,
                    harm_back@,
                    tail_back@,
                    b,
                ),
        decreases v@.len() - k,
    {
        let cp = v[k];
        let char_len = len_utf8(cp);
        let ghost pre = v@.take(k as int);
        assert(v@.take(k + 1).drop_last() =~= pre);
        proof {
            crate::utf8::lemma_byte_len_ge(v@.take(k + 1));
        }
        proof {
            lemma_byte_len_take_succ(v@, k as int);
            lemma_byte_len_take_mono(v@, k + 1, v@.len() as int);
            assert(v@.take(v@.len() as int) =~= v@);
            lemma_byte_len_take_mono(v@, k as int, k + 1);
        }
        if is_vocalic(cp) {
            nsyll = nsyll + 1;
        }
        if !is_glide(cp) {
            if is_back_vowel(cp) || cp == 'я' {
                wb_back = true;
            } else if is_front_vowel(cp) || cp == 'э' {
                wb_back = false;
            }
            if is_back_vowel(cp) || is_front_vowel(cp) || is_loan_vowel(cp) {
                prev = last;
                last = cp;
            }
        }
        proof {
            lemma_tail_vowels_nonzero(v@.take(k + 1));
            assert(v@.take(k + 1).last() == cp);
            assert((prev, last) == last_two_of(tail_vowels(v@.take(k + 1))));
        }
        let tb = tail_back_from(prev, last);
        let end = i + char_len;
        let hi = if end < len {
            end
        } else {
            len
        };
        let mut b = i + 1;
        while b <= hi
            invariant
                i < b <= hi + 1,
                hi == i + char_width(v@[k as int]),
                hi <= len < TABLE_LEN,
                k < v@.len(),
                len == byte_len(v@),
                i == byte_len(v@.take(k as int)),
                hi == byte_len(v@.take(k + 1)),
                k + 1 <= hi,
                nsyll == syll_count(v@.take(k + 1)),
                wb_back == spec_word_is_back(v@.take(k + 1)),
                tb == spec_tail_is_back(v@.take(k + 1)),
                forall|b2: int|
                    0 <= b2 <= i ==> #[trigger] entry_holds(
                        chars@,
                        syll@,
                        harm_back@,
                        tail_back@,
                        v@,
                        b2,
                    ),
                forall|b2: int|
                    i < b2 < b ==> #[trigger] entry_holds(
                        chars@,
                        syll@,
                        harm_back@,
                        tail_back@,
                        v@,
                        b2,
                    ),
                forall|b2: int|
                    b <= b2 < TABLE_LEN ==> #[trigger] is_initial(
                        chars@,
                        syll@,
                        harm_back@,
                        tail_back@,
                        b2,
                    ),
            decreases hi + 1 - b,
        {
            proof {
                lemma_chars_before_step(v@, k as int, b as int);
            }
            let ghost (c0, s0, h0, t0) = (chars@, syll@, harm_back@, tail_back@);

            chars[b] = (k + 1) as i32;
            syll[b] = nsyll;
            harm_back[b] = wb_back;
            tail_back[b] = tb;
            assert forall|b2: int| 0 <= b2 < b implies #[trigger] entry_holds(
                chars@,
                syll@,
                harm_back@,
                tail_back@,
                v@,
                b2,
            ) by {
                assert(entry_holds(c0, s0, h0, t0, v@, b2));
                assert(chars@[b2] == c0[b2] && syll@[b2] == s0[b2] && harm_back@[b2] == h0[b2]
                    && tail_back@[b2] == t0[b2]);
            }
            assert(entry_holds(chars@, syll@, harm_back@, tail_back@, v@, b as int));
            assert forall|b2: int| b < b2 < TABLE_LEN implies #[trigger] is_initial(
                chars@,
                syll@,
                harm_back@,
                tail_back@,
                b2,
            ) by {
                assert(is_initial(c0, s0, h0, t0, b2));
            }
            b = b + 1;
        }
        assert(b == hi + 1);
        i = hi;
        k = k + 1;
    }
    assert(v@.take(v@.len() as int) =~= v@);
    let r = PrefixTables { chars, syll, harm_back, tail_back };
    assert forall|b: int| 0 <= b < TABLE_LEN implies #[trigger] entry_holds(
        r.chars@,
        r.syll@,
        r.harm_back@,
        r.tail_back@,
        s@,
        b,
    ) by {
        if b > i {
            assert(is_initial(chars@, syll@, harm_back@, tail_back@, b));
        }
    }
    assert(r.describes(s@));
    assert forall|b: int| 0 <= b <= byte_len(s@) implies #[trigger] r.chars@[b] == chars_before(s@, b)
        && r.syll@[b] == syll_count(s@.take(chars_before(s@, b) as int)) by {
        lemma_tables_counts(r, s@, b);
    }
    assert forall|b: int| byte_len(s@) < b < TABLE_LEN implies #[trigger] r.chars@[b] == 0
        && r.syll@[b] == 0 by {
        lemma_tables_counts(r, s@, b);
    }
    proof {
        lemma_tables_unique(r, s@);
    }
    r
}

/// The UTF-8 bytes of `suffix` are non-empty, fewer than those of `s`, and
/// end the bytes of `s`.
pub open spec fn spec_ends_with_suffix(s: Seq<char>, suffix: Seq<char>) -> bool {
    let sb = encode_utf8(s);
    let xb = encode_utf8(suffix);
    0 < xb.len() < sb.len() && sb.subrange(sb.len() - xb.len(), sb.len() as int) == xb
}

/// The part of `s` before `suffix`, when `suffix` is a proper, non-empty
/// ending of `s`.
pub fn ends_with_suffix<'a>(s: &'a str, suffix: &str) -> (r: Option<&'a str>)
    ensures
        r is Some <==> spec_ends_with_suffix(s@, suffix@),
        r matches Some(p) ==> encode_utf8(p@) == encode_utf8(s@).take(
            byte_len(s@) - byte_len(suffix@),
        ),
{
    broadcast use vstd::utf8::encode_utf8_valid_utf8, vstd::utf8::is_char_boundary_iff_not_is_continuation_byte, vstd::utf8::encode_utf8_decode_utf8;

    let sb = s.as_bytes();
    let xb = suffix.as_bytes();
    let n = sb.len();
    let m = xb.len();
    if m == 0 || m >= n {
        return None;
    }
    let off = n - m;
    let mut i: usize = 0;
    while i < m
        invariant
            sb@ == encode_utf8(s@),
            xb@ == encode_utf8(suffix@),
            n == sb@.len(),
            m == xb@.len(),
            0 < m < n,
            off == n - m,
            i <= m,
            forall|j: int| 0 <= j < i ==> sb@[off + j] == xb@[j],
        decreases m - i,
    {
        if sb[off + i] != xb[i] {
            proof {
                assert(sb@.subrange(off as int, n as int)[i as int] != xb@[i as int]);
            }
            return None;
        }
        i = i + 1;
    }
    assert(sb@.subrange(off as int, n as int) =~= xb@);
    proof {
        assert(vstd::utf8::is_char_boundary(xb@, 0));
        assert(!vstd::utf8::is_continuation_byte(xb@[0]));
        assert(sb@[off as int] == xb@[0]);
        assert(vstd::utf8::is_char_boundary(sb@, off as int));
    }
    let (head, _tail) = s.split_at(off);
    Some(head)
}

/// Some suffix of `suffixes` is a proper, non-empty ending of `s`.
pub fn ends_with_any(s: &str, suffixes: &[&str]) -> (r: bool)
    ensures
        r == exists|i: int| 0 <= i < suffixes@.len() && spec_ends_with_suffix(s@, suffixes@[i]@),
{
    let mut i: usize = 0;
    while i < suffixes.len()
        invariant
            i <= suffixes@.len(),
            forall|j: int| 0 <= j < i ==> !spec_ends_with_suffix(s@, suffixes@[j]@),
        decreases suffixes@.len() - i,
    {
        if ends_with_suffix(s, suffixes[i]).is_some() {
            return true;
        }
        i = i + 1;
    }
    false
}

/// `sfx` is one of `arr`.
pub fn suffix_in(sfx: &str, arr: &[&str]) -> (r: bool)
    ensures
        r == exists|i: int| 0 <= i < arr@.len() && arr@[i]@ == sfx@,
{
    let mut i: usize = 0;
    while i < arr.len()
        invariant
            i <= arr@.len(),
            forall|j: int| 0 <= j < i ==> arr@[j]@ != sfx@,
        decreases arr@.len() - i,
    {
        if crate::utf8::str_eq(arr[i], sfx) {
            return true;
        }
        i = i + 1;
    }
    false
}

/// Unicode `White_Space` characters, those `char::is_whitespace` accepts.
pub open spec fn spec_whitespace(c: char) -> bool {
    ('\t' <= c && c <= '\r') || c == ' ' || c == '\u{85}' || c == '\u{A0}' || c == '\u{1680}' || (
    '\u{2000}' <= c && c <= '\u{200A}') || c == '\u{2028}' || c == '\u{2029}' || c == '\u{202F}'
        || c == '\u{205F}' || c == '\u{3000}'
}

pub fn is_whitespace(c: char) -> (r: bool)
    ensures
        r == spec_whitespace(c),
{
    ('\t' <= c && c <= '\r') || c == ' ' || c == '\u{85}' || c == '\u{A0}' || c == '\u{1680}' || (
    '\u{2000}' <= c && c <= '\u{200A}') || c == '\u{2028}' || c == '\u{2029}' || c == '\u{202F}'
        || c == '\u{205F}' || c == '\u{3000}'
}

/// `s` without its leading whitespace.
pub open spec fn trim_start(s: Seq<char>) -> Seq<char>
    decreases s.len(),
{
    if s.len() > 0 && spec_whitespace(s[0]) {
        trim_start(s.drop_first())
    } else {
        s
    }
}

/// `s` without its trailing whitespace.
pub open spec fn trim_end(s: Seq<char>) -> Seq<char>
    decreases s.len(),
{
    if s.len() > 0 && spec_whitespace(s.last()) {
        trim_end(s.drop_last())
    } else {
        s
    }
}

/// `s` without leading and trailing whitespace (what `str::trim` gives).
pub open spec fn spec_trim(s: Seq<char>) -> Seq<char> {
    trim_end(trim_start(s))
}

/// `s` without leading and trailing whitespace.
pub fn trim(s: &str) -> (r: String)
    ensures
        r@ == spec_trim(s@),
{
    let v = chars_of(s);
    let n = v.len();
    let mut i: usize = 0;
    assert(v@.skip(0) =~= v@);
    while i < n && is_whitespace(v[i])
        invariant
            i <= n == v@.len(),
            trim_start(v@) == trim_start(v@.skip(i as int)),
        decreases n - i,
    {
        assert(v@.skip(i as int).drop_first() =~= v@.skip(i + 1));
        i = i + 1;
    }
    assert(trim_start(v@.skip(i as int)) == v@.skip(i as int));
    let mut j: usize = n;
    assert(v@.subrange(i as int, n as int) =~= v@.skip(i as int));
    while j > i && is_whitespace(v[j - 1])
        invariant
            i <= j <= n == v@.len(),
            trim_end(v@.skip(i as int)) == trim_end(v@.subrange(i as int, j as int)),
        decreases j - i,
    {
        assert(v@.subrange(i as int, j as int).drop_last() =~= v@.subrange(i as int, j - 1));
        j = j - 1;
    }
    crate::utf8::string_from_range(v.as_slice(), i, j)
}

} // verus!
