//! A dictionary of known stems: a set of words kept in lexicographic order
//! so that lookups are binary searches.
use vstd::prelude::*;

use crate::text::{spec_trim, trim};
use crate::utf8::{byte_len, byte_len_below, chars_of};
use crate::MAX_STEM_BYTES;

verus! {

/// Strict lexicographic order on character sequences (by code point).
pub open spec fn seq_lt(a: Seq<char>, b: Seq<char>) -> bool
    decreases a.len(),
{
    if a.len() == 0 {
        b.len() > 0
    } else if b.len() == 0 {
        false
    } else if (a[0] as u32) < (b[0] as u32) {
        true
    } else if (a[0] as u32) > (b[0] as u32) {
        false
    } else {
        seq_lt(a.drop_first(), b.drop_first())
    }
}

pub proof fn lemma_seq_lt_irreflexive(a: Seq<char>)
    ensures
        !seq_lt(a, a),
    decreases a.len(),
{
    if a.len() > 0 {
        lemma_seq_lt_irreflexive(a.drop_first());
    }
}

pub proof fn lemma_seq_lt_transitive(a: Seq<char>, b: Seq<char>, c: Seq<char>)
    requires
        seq_lt(a, b),
        seq_lt(b, c),
    ensures
        seq_lt(a, c),
    decreases a.len(),
{
    if a.len() > 0 && b.len() > 0 && c.len() > 0 {
        if (a[0] as u32) == (b[0] as u32) && (b[0] as u32) == (c[0] as u32) {
            lemma_seq_lt_transitive(a.drop_first(), b.drop_first(), c.drop_first());
        }
    }
}

pub proof fn lemma_seq_lt_total(a: Seq<char>, b: Seq<char>)
    ensures
        seq_lt(a, b) || seq_lt(b, a) || a == b,
    decreases a.len(),
{
    if a.len() > 0 && b.len() > 0 {
        if (a[0] as u32) == (b[0] as u32) {
            lemma_seq_lt_total(a.drop_first(), b.drop_first());
            vstd::utf8::char_u32_cast(a[0], a[0] as u32);
            vstd::utf8::char_u32_cast(b[0], b[0] as u32);
            if a.drop_first() == b.drop_first() {
                assert(a =~= seq![a[0]] + a.drop_first());
                assert(b =~= seq![b[0]] + b.drop_first());
            }
        }
    } else if a.len() == 0 && b.len() == 0 {
        assert(a =~= b);
    }
}

/// Compares two character sequences in lexicographic order:
/// -1 when `a` comes first, 0 when equal, 1 when `b` comes first.
fn compare_chars(a: &[char], b: &[char]) -> (r: i8)
    ensures
        r == -1 <==> seq_lt(a@, b@),
        r == 0 <==> a@ == b@,
        r == 1 <==> seq_lt(b@, a@),
{
    let mut i: usize = 0;
    while i < a.len() && i < b.len()
        invariant
            i <= a@.len(),
            i <= b@.len(),
            a@.take(i as int) == b@.take(i as int),
        decreases a@.len() - i,
    {
        let x = a[i] as u32;
        let y = b[i] as u32;
        proof {
            lemma_seq_lt_common_prefix(a@, b@, i as int);
            lemma_seq_lt_common_prefix(b@, a@, i as int);
            assert(a@.skip(i as int)[0] == a@[i as int]);
            assert(b@.skip(i as int)[0] == b@[i as int]);
        }
        if x < y {
            assert(a@ != b@);
            return -1;
        }
        if x > y {
            assert(a@ != b@);
            return 1;
        }
        proof {
            vstd::utf8::char_u32_cast(a@[i as int], x);
            vstd::utf8::char_u32_cast(b@[i as int], y);
            assert(a@.take(i + 1) =~= a@.take(i as int).push(a@[i as int]));
            assert(b@.take(i + 1) =~= b@.take(i as int).push(b@[i as int]));
        }
        i = i + 1;
    }
    proof {
        lemma_seq_lt_common_prefix(a@, b@, i as int);
        lemma_seq_lt_common_prefix(b@, a@, i as int);
        if a@.len() == b@.len() {
            assert(a@ =~= a@.take(i as int));
            assert(b@ =~= b@.take(i as int));
        }
    }
    if a.len() < b.len() {
        -1
    } else if a.len() == b.len() {
        0
    } else {
        1
    }
}

/// Two sequences with a common prefix of length `i` compare as their
/// remainders from `i` on do.
proof fn lemma_seq_lt_common_prefix(a: Seq<char>, b: Seq<char>, i: int)
    requires
        0 <= i <= a.len(),
        i <= b.len(),
        a.take(i) == b.take(i),
    ensures
        seq_lt(a, b) == seq_lt(a.skip(i), b.skip(i)),
    decreases i,
{
    if i > 0 {
        assert(a[0] == a.take(i)[0]);
        assert(b[0] == b.take(i)[0]);
        assert(a.drop_first().take(i - 1) =~= a.take(i).drop_first());
        assert(b.drop_first().take(i - 1) =~= b.take(i).drop_first());
        lemma_seq_lt_common_prefix(a.drop_first(), b.drop_first(), i - 1);
        assert(a.drop_first().skip(i - 1) =~= a.skip(i));
        assert(b.drop_first().skip(i - 1) =~= b.skip(i));
    } else {
        assert(a.skip(0) =~= a);
        assert(b.skip(0) =~= b);
    }
}

/// A set of known words (stems and lemmas) used to confirm candidate stems.
///
/// The words are kept sorted in a vector and found by binary search: a
/// `HashSet<String>` would give no contents that contracts could speak of,
/// since its lookups go through string hashing, which has no specification.
#[derive(Debug)]
pub struct Lexicon {
    words: Vec<Vec<char>>,
}

impl Lexicon {
    /// The stored words are strictly increasing, so each occurs once.
    #[verifier::type_invariant]
    closed spec fn sorted(self) -> bool {
        forall|i: int, j: int|
            0 <= i < j < self.words@.len() ==> seq_lt(
                #[trigger] self.words@[i]@,
                #[trigger] self.words@[j]@,
            )
    }

    /// The words of the lexicon.
    pub closed spec fn words_view(self) -> Set<Seq<char>> {
        Set::new(|w: Seq<char>| exists|i: int| 0 <= i < self.words@.len() && self.words@[i]@ == w)
    }
}

impl View for Lexicon {
    type V = Set<Seq<char>>;

    open spec fn view(&self) -> Set<Seq<char>> {
        self.words_view()
    }
}

impl Lexicon {
    /// An empty lexicon.
    pub fn new() -> (r: Lexicon)
        ensures
            r@ == Set::<Seq<char>>::empty(),
    {
        let r = Lexicon { words: Vec::new() };
        assert(r@ =~= Set::<Seq<char>>::empty());
        r
    }

    /// The first index whose word is not below `w`, and whether it equals `w`.
    fn locate(&self, w: &[char]) -> (r: (usize, bool))
        ensures
            r.0 <= self.words@.len(),
            forall|i: int| 0 <= i < r.0 ==> seq_lt(#[trigger] self.words@[i]@, w@),
            forall|i: int|
                r.0 <= i < self.words@.len() ==> !seq_lt(#[trigger] self.words@[i]@, w@),
            r.1 <==> (r.0 < self.words@.len() && self.words@[r.0 as int]@ == w@),
    {
        proof {
            use_type_invariant(self);
        }
        let mut lo: usize = 0;
        let mut hi: usize = self.words.len();
        while lo < hi
            invariant
                lo <= hi <= self.words@.len(),
                self.sorted(),
                forall|i: int| 0 <= i < lo ==> seq_lt(#[trigger] self.words@[i]@, w@),
                forall|i: int|
                    hi <= i < self.words@.len() ==> !seq_lt(#[trigger] self.words@[i]@, w@),
            decreases hi - lo,
        {
            let mid = lo + (hi - lo) / 2;
            let c = compare_chars(self.words[mid].as_slice(), w);
            if c == -1 {
                proof {
                    assert forall|i: int| 0 <= i < mid + 1 implies seq_lt(
                        #[trigger] self.words@[i]@,
                        w@,
                    ) by {
                        if i < mid {
                            lemma_seq_lt_transitive(self.words@[i]@, self.words@[mid as int]@, w@);
                        }
                    }
                }
                lo = mid + 1;
            } else {
                proof {
                    assert forall|i: int| mid <= i < self.words@.len() implies !seq_lt(
                        #[trigger] self.words@[i]@,
                        w@,
                    ) by {
                        if i > mid && seq_lt(self.words@[i]@, w@) {
                            lemma_seq_lt_transitive(self.words@[mid as int]@, self.words@[i]@, w@);
                        }
                    }
                }
                hi = mid;
            }
        }
        if lo < self.words.len() {
            let c = compare_chars(self.words[lo].as_slice(), w);
            (lo, c == 0)
        } else {
            (lo, false)
        }
    }

    /// Whether the characters of `w` form a word of the lexicon.
    pub fn contains_chars(&self, w: &[char]) -> (r: bool)
        ensures
            r == self@.contains(w@),
    {
        proof {
            use_type_invariant(self);
        }
        let (pos, found) = self.locate(w);
        proof {
            if !found && self@.contains(w@) {
                let i = choose|i: int| 0 <= i < self.words@.len() && self.words@[i]@ == w@;
                lemma_seq_lt_irreflexive(w@);
                if i > pos {
                    lemma_seq_lt_total(self.words@[pos as int]@, w@);
                    lemma_seq_lt_transitive(w@, self.words@[pos as int]@, self.words@[i]@);
                    lemma_seq_lt_irreflexive(w@);
                }
            }
        }
        found
    }

    /// Whether `word` is in the lexicon.
    pub fn contains(&self, word: &str) -> (r: bool)
        ensures
            r == self@.contains(word@),
    {
        let v = chars_of(word);
        self.contains_chars(v.as_slice())
    }

    /// Adds `word`; answers whether it was not there before.
    pub fn insert(&mut self, word: String) -> (r: bool)
        ensures
            final(self)@ == old(self)@.insert(word@),
            r == !old(self)@.contains(word@),
    {
        let v = chars_of(word.as_str());
        proof {
            use_type_invariant(&*self);
        }
        let (pos, found) = self.locate(v.as_slice());
        let ghost before = self.words@;
        if found {
            assert(self@ =~= old(self)@.insert(word@));
            return false;
        }
        proof {
            if self@.contains(v@) {
                let i = choose|i: int| 0 <= i < before.len() && before[i]@ == v@;
                lemma_seq_lt_irreflexive(v@);
                if i > pos {
                    lemma_seq_lt_total(before[pos as int]@, v@);
                    lemma_seq_lt_transitive(v@, before[pos as int]@, before[i]@);
                }
            }
        }
        let mut words: Vec<Vec<char>> = Vec::new();
        std::mem::swap(&mut words, &mut self.words);
        words.insert(pos, v);
        proof {
            assert forall|i: int, j: int| 0 <= i < j < words@.len() implies seq_lt(
                #[trigger] words@[i]@,
                #[trigger] words@[j]@,
            ) by {
                if i < pos && j == pos {
                } else if i == pos && j > pos {
                    lemma_seq_lt_total(before[j - 1]@, v@);
                    if before[j - 1]@ == v@ {
                        assert(old(self)@.contains(v@));
                    }
                } else if i < pos && j > pos {
                    assert(seq_lt(before[i]@, before[j - 1]@));
                } else if i > pos {
                    assert(seq_lt(before[i - 1]@, before[j - 1]@));
                }
            }
        }
        self.words = words;
        proof {
            assert forall|w: Seq<char>| self@.contains(w) == old(self)@.insert(word@).contains(
                w,
            ) by {
                if self@.contains(w) {
                    let i = choose|i: int| 0 <= i < self.words@.len() && self.words@[i]@ == w;
                    if i < pos {
                        assert(before[i]@ == w);
                    } else if i > pos {
                        assert(before[i - 1]@ == w);
                    }
                }
                if old(self)@.contains(w) {
                    let i = choose|i: int| 0 <= i < before.len() && before[i]@ == w;
                    if i < pos {
                        assert(self.words@[i]@ == w);
                    } else {
                        assert(self.words@[i + 1]@ == w);
                    }
                }
                if w == word@ {
                    assert(self.words@[pos as int]@ == w);
                }
            }
            assert(self@ =~= old(self)@.insert(word@));
        }
        true
    }

    /// Number of words.
    pub fn len(&self) -> (r: usize)
        ensures
            r == self@.len(),
    {
        proof {
            use_type_invariant(self);
            self.lemma_len();
        }
        self.words.len()
    }

    proof fn lemma_len(self)
        requires
            self.sorted(),
        ensures
            self@.finite(),
            self@.len() == self.words@.len(),
        decreases self.words@.len(),
    {
        let ws = self.words@.map_values(|v: Vec<char>| v@);
        assert forall|i: int, j: int| 0 <= i < j < ws.len() implies ws[i] != ws[j] by {
            lemma_seq_lt_irreflexive(ws[i]);
            assert(seq_lt(self.words@[i]@, self.words@[j]@));
        }
        assert(ws.no_duplicates());
        ws.unique_seq_to_set();
        assert forall|w: Seq<char>| ws.to_set().contains(w) == self@.contains(w) by {
            if self@.contains(w) {
                let i = choose|i: int| 0 <= i < self.words@.len() && self.words@[i]@ == w;
                assert(ws[i] == w);
            }
            if ws.to_set().contains(w) {
                let i = choose|i: int| 0 <= i < ws.len() && ws[i] == w;
                assert(self.words@[i]@ == w);
            }
        }
        assert(ws.to_set() =~= self@);
    }

    pub fn is_empty(&self) -> (r: bool)
        ensures
            r == (self@.len() == 0),
    {
        self.len() == 0
    }
}

/// The lines of `s`: the text between newline characters.
pub open spec fn split_lines(s: Seq<char>) -> Seq<Seq<char>>
    decreases s.len(),
{
    if s.len() == 0 {
        seq![Seq::<char>::empty()]
    } else {
        let p = split_lines(s.drop_last());
        if s.last() == '\n' {
            p.push(Seq::<char>::empty())
        } else {
            p.update(p.len() - 1, p.last().push(s.last()))
        }
    }
}

proof fn lemma_split_lines_len(s: Seq<char>)
    ensures
        split_lines(s).len() >= 1,
    decreases s.len(),
{
    if s.len() > 0 {
        lemma_split_lines_len(s.drop_last());
    }
}

/// The words of a lexicon file given as its lines: each line trimmed, empty
/// lines and comment lines (starting with `#`) skipped; the first word of
/// `MAX_STEM_BYTES` bytes or more is refused.
pub open spec fn load_entries(lines: Seq<Seq<char>>) -> Result<Set<Seq<char>>, Seq<char>>
    decreases lines.len(),
{
    if lines.len() == 0 {
        Ok(Set::empty())
    } else {
        match load_entries(lines.drop_last()) {
            Err(e) => Err(e),
            Ok(words) => {
                let t = spec_trim(lines.last());
                if t.len() == 0 || t[0] == '#' {
                    Ok(words)
                } else if byte_len(t) >= MAX_STEM_BYTES {
                    Err(t)
                } else {
                    Ok(words.insert(t))
                }
            },
        }
    }
}

/// The words of the lexicon file `contents`, or the first word that is too
/// long.
pub open spec fn spec_lexicon_text(contents: Seq<char>) -> Result<Set<Seq<char>>, Seq<char>> {
    load_entries(split_lines(contents))
}

impl Lexicon {
    /// Adds the word on one line of a lexicon file, if any.
    fn load_line(&mut self, line: &Vec<char>) -> (r: Option<String>)
        ensures
            match r {
                None => load_entries(seq![line@]) matches Ok(ws) && final(self)@ == old(self)@.union(ws),
                Some(e) => load_entries(seq![line@]) == Err::<Set<Seq<char>>, Seq<char>>(e@),
            },
    {
        let raw = crate::utf8::string_from_chars(line.as_slice(), line.len());
        assert(line@.take(line@.len() as int) =~= line@);
        let t = trim(raw.as_str());
        let tv = chars_of(t.as_str());
        let n = tv.len();
        proof {
            lemma_load_one(line@);
        }
        assert(tv@.take(n as int) =~= tv@);
        if n == 0 || tv[0] == '#' {
            assert(self@.union(Set::empty()) =~= self@);
            return None;
        }
        if !byte_len_below(tv.as_slice(), n, MAX_STEM_BYTES) {
            return Some(t);
        }
        self.insert(t);
        assert(old(self)@.insert(tv@) =~= old(self)@.union(Set::empty().insert(tv@)));
        None
    }

    /// The lexicon of a file's contents: one word per line, surrounding
    /// whitespace ignored, empty lines and `#` comments skipped. A word of
    /// `MAX_STEM_BYTES` bytes or more is refused, and returned as the error.
    pub fn from_text(contents: &str) -> (r: Result<Lexicon, String>)
        ensures
            match r {
                Ok(l) => spec_lexicon_text(contents@) == Ok::<Set<Seq<char>>, Seq<char>>(l@),
                Err(e) => spec_lexicon_text(contents@) == Err::<Set<Seq<char>>, Seq<char>>(e@),
            },
    {
        let v = chars_of(contents);
        let mut lex = Lexicon::new();
        let mut line: Vec<char> = Vec::new();
        let ghost mut done: Seq<Seq<char>> = Seq::empty();
        let mut i: usize = 0;
        assert(v@.take(0) =~= Seq::<char>::empty());
        while i < v.len()
            invariant
                i <= v@.len(),
                v@ == contents@,
                split_lines(v@.take(i as int)) == done.push(line@),
                load_entries(done) == Ok::<Set<Seq<char>>, Seq<char>>(lex@),
            decreases v@.len() - i,
        {
            let c = v[i];
            assert(v@.take(i + 1).drop_last() =~= v@.take(i as int));
            if c == '\n' {
                let ghost before = lex@;
                match lex.load_line(&line) {
                    Some(e) => {
                        proof {
                            lemma_load_entries_push(done, line@);
                            assert(load_entries(done.push(line@)) == Err::<Set<Seq<char>>, Seq<char>>(e@));
                            assert(split_lines(v@.take(i + 1)).drop_last() =~= done.push(line@));
                            lemma_load_entries_err_prefix(v@, i + 1, e@);
                        }
                        return Err(e);
                    },
                    None => {},
                }
                proof {
                    lemma_load_entries_push(done, line@);
                    done = done.push(line@);
                }
                line = Vec::new();
                assert(split_lines(v@.take(i + 1)) =~= done.push(line@));
            } else {
                line.push(c);
                assert(split_lines(v@.take(i + 1)) =~= done.push(line@));
            }
            i = i + 1;
        }
        assert(v@.take(v@.len() as int) =~= v@);
        match lex.load_line(&line) {
            Some(e) => {
                proof {
                    lemma_load_entries_push(done, line@);
                }
                Err(e)
            },
            None => {
                proof {
                    lemma_load_entries_push(done, line@);
                }
                Ok(lex)
            },
        }
    }
}

/// Loading a single line.
proof fn lemma_load_one(line: Seq<char>)
    ensures
        load_entries(seq![line]) == ({
            let t = spec_trim(line);
            if t.len() == 0 || t[0] == '#' {
                Ok::<Set<Seq<char>>, Seq<char>>(Set::empty())
            } else if byte_len(t) >= MAX_STEM_BYTES {
                Err(t)
            } else {
                Ok(Set::empty().insert(t))
            }
        }),
{
    assert(load_entries(Seq::<Seq<char>>::empty()) == Ok::<Set<Seq<char>>, Seq<char>>(Set::empty()));
    assert(seq![line].drop_last() =~= Seq::<Seq<char>>::empty());
    assert(seq![line].last() == line);
}

/// Loading one more line: as loading it alone, on top of what came before.
proof fn lemma_load_entries_push(done: Seq<Seq<char>>, line: Seq<char>)
    ensures
        load_entries(done.push(line)) == match load_entries(done) {
            Err(e) => Err(e),
            Ok(ws) => match load_entries(seq![line]) {
                Err(e) => Err(e),
                Ok(w1) => Ok(ws.union(w1)),
            },
        },
{
    assert(done.push(line).drop_last() =~= done);
    assert(done.push(line).last() == line);
    lemma_load_one(line);
    match load_entries(done) {
        Ok(ws) => {
            let t = spec_trim(line);
            if t.len() == 0 || t[0] == '#' {
                assert(ws.union(Set::empty()) =~= ws);
            } else if byte_len(t) < MAX_STEM_BYTES {
                assert(ws.insert(t) =~= ws.union(Set::empty().insert(t)));
            }
        },
        Err(_) => {},
    }
}

/// Once the complete lines read so far are refused, the whole file is.
proof fn lemma_load_entries_err_prefix(s: Seq<char>, i: int, e: Seq<char>)
    requires
        0 <= i <= s.len(),
        load_entries(split_lines(s.take(i)).drop_last()) == Err::<Set<Seq<char>>, Seq<char>>(e),
    ensures
        load_entries(split_lines(s)) == Err::<Set<Seq<char>>, Seq<char>>(e),
    decreases s.len() - i,
{
    lemma_split_lines_len(s.take(i));
    if i < s.len() {
        let p = split_lines(s.take(i));
        assert(s.take(i + 1).drop_last() =~= s.take(i));
        assert(load_entries(p) == Err::<Set<Seq<char>>, Seq<char>>(e));
        if s[i] == '\n' {
            assert(split_lines(s.take(i + 1)).drop_last() =~= p);
        } else {
            assert(split_lines(s.take(i + 1)).drop_last() =~= p.drop_last());
        }
        lemma_load_entries_err_prefix(s, i + 1, e);
    } else {
        assert(s.take(i) =~= s);
    }
}

proof fn lemma_load_entries_words(lines: Seq<Seq<char>>)
    ensures
        load_entries(lines) matches Ok(ws) ==> forall|w: Seq<char>|
            #[trigger] ws.contains(w) ==> 0 < w.len() && w[0] != '#' && byte_len(w) < MAX_STEM_BYTES,
    decreases lines.len(),
{
    if lines.len() > 0 {
        lemma_load_entries_words(lines.drop_last());
    }
}

/// Every word of a loaded lexicon file is non-empty, is not a comment, and
/// is shorter than `MAX_STEM_BYTES` bytes.
pub proof fn law_loaded_words_bounded(contents: Seq<char>)
    ensures
        spec_lexicon_text(contents) matches Ok(ws) ==> forall|w: Seq<char>|
            #[trigger] ws.contains(w) ==> 0 < w.len() && w[0] != '#' && byte_len(w)
                < MAX_STEM_BYTES,
{
    lemma_load_entries_words(split_lines(contents));
}

/// After inserting `w`, the lexicon knows `w` and every word it knew
/// before, and no other.
pub proof fn law_insert_then_contains(before: Lexicon, after: Lexicon, w: Seq<char>, x: Seq<char>)
    requires
        after@ == before@.insert(w),
    ensures
        after@.contains(x) <==> (x == w || before@.contains(x)),
{
}

} // verus!
