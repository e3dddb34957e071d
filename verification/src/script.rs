//! Script handling: Kazakh-aware lowercasing, script classification and the
//! transliteration of Latin-script Kazakh into Cyrillic candidates.
use vstd::prelude::*;

use unicode_normalization::UnicodeNormalization;

use crate::utf8::{chars_eq, chars_of, lit1, lit2, push_char, string_from_chars};

verus! {

/// At most this many transliteration candidates are produced.
pub const MAX_LATIN_CANDIDATES: usize = 32;

/// What `char::to_lowercase` yields for `c` (Unicode lowercase mapping).
pub uninterp spec fn char_lowercase(c: char) -> Seq<char>;

/// The Unicode Normalization Form C of `s`, as the `unicode-normalization`
/// crate computes it.
pub uninterp spec fn nfc(s: Seq<char>) -> Seq<char>;

/// Whether `c` has the Unicode `Alphabetic` property (`char::is_alphabetic`).
pub uninterp spec fn char_is_alphabetic(c: char) -> bool;

/// `char::to_lowercase`, collected into a `String`. The contract claims
/// only that the result is a function of `c`, named `char_lowercase`.
#[verifier::external_body]
fn to_lowercase_string(c: char) -> (r: String)
    ensures
        r@ == char_lowercase(c),
{
    c.to_lowercase().collect::<String>()
}

/// `UnicodeNormalization::nfc` of the `unicode-normalization` crate,
/// collected into a `String`. The contract claims only that the result is a
/// function of the input characters, named `nfc`.
#[verifier::external_body]
fn nfc_string(s: &str) -> (r: String)
    ensures
        r@ == nfc(s@),
{
    s.nfc().collect::<String>()
}

/// `char::is_alphabetic`. The contract claims only that the answer is a
/// function of `c`, named `char_is_alphabetic`.
#[verifier::external_body]
fn is_alphabetic(c: char) -> (r: bool)
    ensures
        r == char_is_alphabetic(c),
{
    c.is_alphabetic()
}

/// The Kazakh lowercase of one character: dotless capital I to dotless ı,
/// dotted capital İ to i, others by the Unicode mapping.
pub open spec fn lower_one(c: char) -> Seq<char> {
    if c == 'I' {
        seq!['ı']
    } else if c == 'İ' {
        seq!['i']
    } else {
        char_lowercase(c)
    }
}

/// Character-wise Kazakh lowercase of `s` (before normalization).
pub open spec fn lower_chars(s: Seq<char>) -> Seq<char>
    decreases s.len(),
{
    if s.len() == 0 {
        Seq::empty()
    } else {
        lower_chars(s.drop_last()) + lower_one(s.last())
    }
}

/// Kazakh lowercase of `s`, in Normalization Form C.
pub open spec fn spec_lower_kazakh(s: Seq<char>) -> Seq<char> {
    nfc(lower_chars(s))
}

pub(crate) fn append_str(out: &mut String, s: &str)
    ensures
        final(out)@ == old(out)@ + s@,
{
    let v = chars_of(s);
    let mut i: usize = 0;
    let ghost start = out@;
    while i < v.len()
        invariant
            i <= v@.len(),
            v@ == s@,
            out@ == start + v@.take(i as int),
        decreases v@.len() - i,
    {
        assert(v@.take(i + 1) =~= v@.take(i as int).push(v@[i as int]));
        push_char(out, v[i]);
        i = i + 1;
    }
    assert(v@.take(v@.len() as int) =~= v@);
}

/// Lowercases `word` with the Turkic rules for I/İ and normalizes to NFC.
pub fn lower_kazakh(word: &str) -> (r: String)
    ensures
        r@ == spec_lower_kazakh(word@),
{
    let v = chars_of(word);
    let mut lowered = String::new();
    let mut i: usize = 0;
    while i < v.len()
        invariant
            i <= v@.len(),
            v@ == word@,
            lowered@ == lower_chars(v@.take(i as int)),
        decreases v@.len() - i,
    {
        let ch = v[i];
        assert(v@.take(i + 1).drop_last() =~= v@.take(i as int));
        if ch == 'I' {
            push_char(&mut lowered, 'ı');
            assert(lowered@ =~= lower_chars(v@.take(i + 1)));
        } else if ch == 'İ' {
            push_char(&mut lowered, 'i');
            assert(lowered@ =~= lower_chars(v@.take(i + 1)));
        } else {
            let l = to_lowercase_string(ch);
            append_str(&mut lowered, l.as_str());
        }
        i = i + 1;
    }
    assert(v@.take(v@.len() as int) =~= v@);
    nfc_string(lowered.as_str())
}

/// The script of a token.
#[derive(Copy, Clone, Debug, PartialEq, Eq, Structural)]
pub enum ScriptClass {
    Cyrillic,
    Latin,
    Mixed,
    Unsupported,
}

/// Cyrillic and Cyrillic Supplement blocks (U+0400..U+052F).
pub open spec fn spec_cyrillic_letter(ch: char) -> bool {
    ('\u{0400}' <= ch && ch <= '\u{04FF}') || ('\u{0500}' <= ch && ch <= '\u{052F}')
}

/// ASCII letters and the letters of the Kazakh Latin alphabet.
pub open spec fn spec_latin_letter(ch: char) -> bool {
    ('a' <= ch && ch <= 'z') || ('A' <= ch && ch <= 'Z') || spec_diacritic_marker(ch)
}

/// The diacritic letters of the Kazakh Latin alphabet.
pub open spec fn spec_diacritic_marker(ch: char) -> bool {
    ch == 'ä' || ch == 'ö' || ch == 'ü' || ch == 'ū' || ch == 'ğ' || ch == 'ş' || ch == 'ñ' || ch
        == 'ı'
}

pub fn is_cyrillic_letter(ch: char) -> (r: bool)
    ensures
        r == spec_cyrillic_letter(ch),
{
    ('\u{0400}' <= ch && ch <= '\u{04FF}') || ('\u{0500}' <= ch && ch <= '\u{052F}')
}

fn is_latin_letter(ch: char) -> (r: bool)
    ensures
        r == spec_latin_letter(ch),
{
    ('a' <= ch && ch <= 'z') || ('A' <= ch && ch <= 'Z') || is_diacritic_marker(ch)
}

fn is_diacritic_marker(ch: char) -> (r: bool)
    ensures
        r == spec_diacritic_marker(ch),
{
    ch == 'ä' || ch == 'ö' || ch == 'ü' || ch == 'ū' || ch == 'ğ' || ch == 'ş' || ch == 'ñ' || ch
        == 'ı'
}

/// A character that is an alphabetic Cyrillic or Latin letter.
pub open spec fn supported_letter(ch: char) -> bool {
    char_is_alphabetic(ch) && (spec_cyrillic_letter(ch) || spec_latin_letter(ch))
}

/// The script of `s`: Unsupported when any character is not an alphabetic
/// Cyrillic or Latin letter, or when `s` is empty; otherwise Cyrillic, Latin
/// or Mixed by which letters occur.
pub open spec fn spec_classify(s: Seq<char>) -> ScriptClass {
    let has_cyr = exists|i: int| 0 <= i < s.len() && spec_cyrillic_letter(s[i]);
    let has_lat = exists|i: int| 0 <= i < s.len() && !spec_cyrillic_letter(s[i]);
    if exists|i: int| 0 <= i < s.len() && !supported_letter(#[trigger] s[i]) {
        ScriptClass::Unsupported
    } else if has_cyr && has_lat {
        ScriptClass::Mixed
    } else if has_cyr {
        ScriptClass::Cyrillic
    } else if has_lat {
        ScriptClass::Latin
    } else {
        ScriptClass::Unsupported
    }
}

fn classify_script(v: &[char]) -> (r: ScriptClass)
    ensures
        r == spec_classify(v@),
{
    let mut has_cyr = false;
    let mut has_lat = false;
    let mut i: usize = 0;
    while i < v.len()
        invariant
            i <= v@.len(),
            forall|j: int| 0 <= j < i ==> supported_letter(#[trigger] v@[j]),
            has_cyr == exists|j: int| 0 <= j < i && spec_cyrillic_letter(v@[j]),
            has_lat == exists|j: int| 0 <= j < i && !spec_cyrillic_letter(v@[j]),
        decreases v@.len() - i,
    {
        let ch = v[i];
        if is_alphabetic(ch) {
            if is_cyrillic_letter(ch) {
                has_cyr = true;
            } else if is_latin_letter(ch) {
                has_lat = true;
            } else {
                assert(!supported_letter(v@[i as int]));
                return ScriptClass::Unsupported;
            }
        } else {
            assert(!supported_letter(v@[i as int]));
            return ScriptClass::Unsupported;
        }
        i = i + 1;
    }
    if has_cyr && has_lat {
        ScriptClass::Mixed
    } else if has_cyr {
        ScriptClass::Cyrillic
    } else if has_lat {
        ScriptClass::Latin
    } else {
        ScriptClass::Unsupported
    }
}

/// The Cyrillic letters a Latin letter may stand for.
pub open spec fn spec_latin_options(ch: char) -> Option<Seq<char>> {
    if ch == 'a' {
        Some(seq!['а'])
    } else if ch == 'ä' {
        Some(seq!['ә'])
    } else if ch == 'b' {
        Some(seq!['б'])
    } else if ch == 'd' {
        Some(seq!['д'])
    } else if ch == 'e' {
        Some(seq!['е'])
    } else if ch == 'f' {
        Some(seq!['ф'])
    } else if ch == 'g' {
        Some(seq!['г'])
    } else if ch == 'ğ' {
        Some(seq!['ғ'])
    } else if ch == 'h' {
        Some(seq!['х', 'һ'])
    } else if ch == 'ı' {
        Some(seq!['і'])
    } else if ch == 'i' {
        Some(seq!['и', 'й'])
    } else if ch == 'j' {
        Some(seq!['ж'])
    } else if ch == 'k' {
        Some(seq!['к'])
    } else if ch == 'l' {
        Some(seq!['л'])
    } else if ch == 'm' {
        Some(seq!['м'])
    } else if ch == 'n' {
        Some(seq!['н'])
    } else if ch == 'ñ' {
        Some(seq!['ң'])
    } else if ch == 'o' {
        Some(seq!['о'])
    } else if ch == 'ö' {
        Some(seq!['ө'])
    } else if ch == 'p' {
        Some(seq!['п'])
    } else if ch == 'q' {
        Some(seq!['қ'])
    } else if ch == 'r' {
        Some(seq!['р'])
    } else if ch == 's' {
        Some(seq!['с'])
    } else if ch == 'ş' {
        Some(seq!['ш'])
    } else if ch == 't' {
        Some(seq!['т'])
    } else if ch == 'u' {
        Some(seq!['у'])
    } else if ch == 'ū' {
        Some(seq!['ұ'])
    } else if ch == 'ü' {
        Some(seq!['ү'])
    } else if ch == 'v' {
        Some(seq!['в'])
    } else if ch == 'w' {
        Some(seq!['у'])
    } else if ch == 'y' {
        Some(seq!['ы'])
    } else if ch == 'z' {
        Some(seq!['з'])
    } else {
        None
    }
}

fn latin_char_options(ch: char) -> (r: Option<Vec<char>>)
    ensures
        match r {
            Some(v) => spec_latin_options(ch) == Some(v@),
            None => spec_latin_options(ch) is None,
        },
{
    if ch == 'a' {
        Some(lit1('а'))
    } else if ch == 'ä' {
        Some(lit1('ә'))
    } else if ch == 'b' {
        Some(lit1('б'))
    } else if ch == 'd' {
        Some(lit1('д'))
    } else if ch == 'e' {
        Some(lit1('е'))
    } else if ch == 'f' {
        Some(lit1('ф'))
    } else if ch == 'g' {
        Some(lit1('г'))
    } else if ch == 'ğ' {
        Some(lit1('ғ'))
    } else if ch == 'h' {
        Some(lit2('х', 'һ'))
    } else if ch == 'ı' {
        Some(lit1('і'))
    } else if ch == 'i' {
        Some(lit2('и', 'й'))
    } else if ch == 'j' {
        Some(lit1('ж'))
    } else if ch == 'k' {
        Some(lit1('к'))
    } else if ch == 'l' {
        Some(lit1('л'))
    } else if ch == 'm' {
        Some(lit1('м'))
    } else if ch == 'n' {
        Some(lit1('н'))
    } else if ch == 'ñ' {
        Some(lit1('ң'))
    } else if ch == 'o' {
        Some(lit1('о'))
    } else if ch == 'ö' {
        Some(lit1('ө'))
    } else if ch == 'p' {
        Some(lit1('п'))
    } else if ch == 'q' {
        Some(lit1('қ'))
    } else if ch == 'r' {
        Some(lit1('р'))
    } else if ch == 's' {
        Some(lit1('с'))
    } else if ch == 'ş' {
        Some(lit1('ш'))
    } else if ch == 't' {
        Some(lit1('т'))
    } else if ch == 'u' {
        Some(lit1('у'))
    } else if ch == 'ū' {
        Some(lit1('ұ'))
    } else if ch == 'ü' {
        Some(lit1('ү'))
    } else if ch == 'v' {
        Some(lit1('в'))
    } else if ch == 'w' {
        Some(lit1('у'))
    } else if ch == 'y' {
        Some(lit1('ы'))
    } else if ch == 'z' {
        Some(lit1('з'))
    } else {
        None
    }
}

/// Each candidate of `cands` extended by each option of `opts`, candidates
/// outermost.
pub open spec fn product(cands: Seq<Seq<char>>, opts: Seq<char>) -> Seq<Seq<char>>
    decreases cands.len(),
{
    if cands.len() == 0 {
        Seq::empty()
    } else {
        product(cands.drop_last(), opts) + opts.map_values(|o: char| cands.last().push(o))
    }
}

/// The Cyrillic readings of the Latin word `s`, in order, before removing
/// duplicates; none when a letter has no reading or more than
/// `MAX_LATIN_CANDIDATES` readings would arise.
pub open spec fn translit_cands(s: Seq<char>) -> Option<Seq<Seq<char>>>
    decreases s.len(),
{
    if s.len() == 0 {
        Some(seq![Seq::<char>::empty()])
    } else {
        match translit_cands(s.drop_last()) {
            None => None,
            Some(c) => match spec_latin_options(s.last()) {
                None => None,
                Some(o) => if c.len() * o.len() > MAX_LATIN_CANDIDATES {
                    None
                } else {
                    Some(product(c, o))
                },
            },
        }
    }
}

/// `s` without repetitions, keeping first occurrences in order.
pub open spec fn dedup(s: Seq<Seq<char>>) -> Seq<Seq<char>>
    decreases s.len(),
{
    if s.len() == 0 {
        s
    } else {
        let d = dedup(s.drop_last());
        if d.contains(s.last()) {
            d
        } else {
            d.push(s.last())
        }
    }
}

/// Views of a sequence of character vectors.
pub open spec fn vv(v: Seq<Vec<char>>) -> Seq<Seq<char>> {
    v.map_values(|x: Vec<char>| x@)
}

/// Views of a sequence of strings.
pub open spec fn sv(v: Seq<String>) -> Seq<Seq<char>> {
    v.map_values(|x: String| x@)
}

pub(crate) proof fn lemma_product_len(c: Seq<Seq<char>>, o: Seq<char>)
    ensures
        product(c, o).len() == c.len() * o.len(),
    decreases c.len(),
{
    if c.len() > 0 {
        lemma_product_len(c.drop_last(), o);
        assert((c.len() - 1) * o.len() + o.len() == c.len() * o.len()) by (nonlinear_arith);
    }
}

fn clone_chars(v: &Vec<char>) -> (r: Vec<char>)
    ensures
        r@ == v@,
{
    let mut r: Vec<char> = Vec::new();
    let mut i: usize = 0;
    while i < v.len()
        invariant
            i <= v@.len(),
            r@ == v@.take(i as int),
        decreases v@.len() - i,
    {
        assert(v@.take(i + 1) =~= v@.take(i as int).push(v@[i as int]));
        r.push(v[i]);
        i = i + 1;
    }
    assert(v@.take(v@.len() as int) =~= v@);
    r
}

/// Extends every candidate by every option, or gives up past the cap.
fn extend_candidates(cands: &Vec<Vec<char>>, opts: &Vec<char>) -> (r: Option<Vec<Vec<char>>>)
    ensures
        match r {
            Some(n) => vv(cands@).len() * opts@.len() <= MAX_LATIN_CANDIDATES && vv(n@) == product(
                vv(cands@),
                opts@,
            ),
            None => vv(cands@).len() * opts@.len() > MAX_LATIN_CANDIDATES,
        },
{
    let ghost c = vv(cands@);
    let ghost o = opts@;
    let mut next: Vec<Vec<char>> = Vec::new();
    let mut bi: usize = 0;
    proof {
        lemma_product_len(c, o);
        assert(c.take(0) =~= Seq::<Seq<char>>::empty());
        assert(vv(next@) =~= product(c.take(0), o));
    }
    while bi < cands.len()
        invariant
            bi <= cands@.len(),
            c == vv(cands@),
            o == opts@,
            vv(next@) == product(c.take(bi as int), o),
            next@.len() == bi * o.len(),
            next@.len() <= MAX_LATIN_CANDIDATES,
            product(c, o).len() == c.len() * o.len(),
        decreases cands@.len() - bi,
    {
        let ghost before = vv(next@);
        let mut oi: usize = 0;
        while oi < opts.len()
            invariant
                bi < cands@.len(),
                oi <= opts@.len(),
                c == vv(cands@),
                o == opts@,
                vv(next@) == before + o.take(oi as int).map_values(|x: char| c[bi as int].push(x)),
                before == product(c.take(bi as int), o),
                next@.len() == bi * o.len() + oi,
                next@.len() <= MAX_LATIN_CANDIDATES,
                product(c, o).len() == c.len() * o.len(),
            decreases opts@.len() - oi,
        {
            if next.len() >= MAX_LATIN_CANDIDATES {
                assert(bi * o.len() + oi + 1 <= c.len() * o.len()) by (nonlinear_arith)
                    requires
                        bi < c.len(),
                        oi < o.len(),
                ;
                return None;
            }
            let mut value = clone_chars(&cands[bi]);
            value.push(opts[oi]);
            let ghost prev = vv(next@);
            next.push(value);
            proof {
                assert(vv(next@) =~= prev.push(c[bi as int].push(o[oi as int])));
                assert(o.take(oi + 1).map_values(|x: char| c[bi as int].push(x)) =~= o.take(
                    oi as int,
                ).map_values(|x: char| c[bi as int].push(x)).push(c[bi as int].push(o[oi as int])));
            }
            oi = oi + 1;
        }
        proof {
            assert(o.take(o.len() as int) =~= o);
            assert(c.take(bi + 1).drop_last() =~= c.take(bi as int));
            assert(c.take(bi + 1).last() == c[bi as int]);
            assert(bi * o.len() + o.len() == (bi + 1) * o.len()) by (nonlinear_arith);
        }
        bi = bi + 1;
    }
    assert(c.take(c.len() as int) =~= c);
    Some(next)
}

/// Removes repeated candidates, keeping first occurrences.
fn dedup_candidates(v: &Vec<Vec<char>>) -> (r: Vec<Vec<char>>)
    ensures
        vv(r@) == dedup(vv(v@)),
{
    let ghost c = vv(v@);
    let mut out: Vec<Vec<char>> = Vec::new();
    let mut i: usize = 0;
    assert(c.take(0) =~= Seq::<Seq<char>>::empty());
    assert(vv(out@) =~= dedup(c.take(0)));
    while i < v.len()
        invariant
            i <= v@.len(),
            c == vv(v@),
            vv(out@) == dedup(c.take(i as int)),
        decreases v@.len() - i,
    {
        assert(c.take(i + 1).drop_last() =~= c.take(i as int));
        assert(c.take(i + 1).last() == v@[i as int]@);
        let mut found = false;
        let mut j: usize = 0;
        while j < out.len()
            invariant
                j <= out@.len(),
                i < v@.len(),
                found == exists|k: int| 0 <= k < j && out@[k]@ == v@[i as int]@,
            decreases out@.len() - j,
        {
            if chars_eq(out[j].as_slice(), v[i].as_slice()) {
                found = true;
            }
            j = j + 1;
        }
        proof {
            if found {
                let k = choose|k: int| 0 <= k < out@.len() && out@[k]@ == v@[i as int]@;
                assert(vv(out@)[k] == v@[i as int]@);
            } else {
                if vv(out@).contains(v@[i as int]@) {
                    let k = choose|k: int| 0 <= k < vv(out@).len() && vv(out@)[k] == v@[i as int]@;
                    assert(out@[k]@ == v@[i as int]@);
                }
            }
        }
        if !found {
            let ghost prev = vv(out@);
            out.push(clone_chars(&v[i]));
            assert(vv(out@) =~= prev.push(v@[i as int]@));
        }
        i = i + 1;
    }
    assert(c.take(c.len() as int) =~= c);
    out
}

/// The Latin reading of a token: its Cyrillic candidates and its markers.
#[derive(Clone, Debug)]
pub struct LatinAnalysis {
    pub candidates: Vec<String>,
    pub has_diacritic: bool,
    pub has_q_or_w: bool,
}

/// The candidates, diacritic marker and q/w marker of a Latin word.
pub open spec fn spec_transliterate(s: Seq<char>) -> Option<(Seq<Seq<char>>, bool, bool)> {
    match translit_cands(s) {
        None => None,
        Some(c) => if c.len() == 0 {
            None
        } else {
            Some(
                (
                    dedup(c),
                    exists|i: int| 0 <= i < s.len() && spec_diacritic_marker(s[i]),
                    exists|i: int| 0 <= i < s.len() && (s[i] == 'q' || s[i] == 'w'),
                ),
            )
        },
    }
}

/// The view of an analysis as (candidates, has_diacritic, has_q_or_w).
pub open spec fn latin_view(l: LatinAnalysis) -> (Seq<Seq<char>>, bool, bool) {
    (sv(l.candidates@), l.has_diacritic, l.has_q_or_w)
}

fn strings_of(v: &Vec<Vec<char>>) -> (r: Vec<String>)
    ensures
        sv(r@) == vv(v@),
{
    let mut r: Vec<String> = Vec::new();
    let mut i: usize = 0;
    while i < v.len()
        invariant
            i <= v@.len(),
            sv(r@) == vv(v@).take(i as int),
        decreases v@.len() - i,
    {
        let ghost prev = sv(r@);
        let n = v[i].len();
        assert(v@[i as int]@.take(n as int) =~= v@[i as int]@);
        r.push(string_from_chars(v[i].as_slice(), n));
        assert(sv(r@) =~= prev.push(v@[i as int]@));
        assert(vv(v@).take(i + 1) =~= vv(v@).take(i as int).push(v@[i as int]@));
        i = i + 1;
    }
    assert(vv(v@).take(v@.len() as int) =~= vv(v@));
    r
}

/// Transliterates a (lowercase) Latin word into its Cyrillic candidates.
fn transliterate_latin(v: &[char]) -> (r: Option<LatinAnalysis>)
    ensures
        match r {
            Some(l) => spec_transliterate(v@) == Some(latin_view(l)),
            None => spec_transliterate(v@) is None,
        },
{
    let mut candidates: Vec<Vec<char>> = Vec::new();
    candidates.push(Vec::new());
    let mut has_diacritic = false;
    let mut has_q_or_w = false;
    let mut i: usize = 0;
    assert(v@.take(0) =~= Seq::<char>::empty());
    assert(vv(candidates@) =~= seq![Seq::<char>::empty()]);
    while i < v.len()
        invariant
            i <= v@.len(),
            translit_cands(v@.take(i as int)) == Some(vv(candidates@)),
            has_diacritic == exists|j: int| 0 <= j < i && spec_diacritic_marker(v@[j]),
            has_q_or_w == exists|j: int| 0 <= j < i && (v@[j] == 'q' || v@[j] == 'w'),
        decreases v@.len() - i,
    {
        let ch = v[i];
        assert(v@.take(i + 1).drop_last() =~= v@.take(i as int));
        if is_diacritic_marker(ch) {
            has_diacritic = true;
        }
        if ch == 'q' || ch == 'w' {
            has_q_or_w = true;
        }
        let options = match latin_char_options(ch) {
            Some(o) => o,
            None => {
                proof {
                    lemma_translit_none_extends(v@, i + 1);
                }
                return None;
            },
        };
        let next = match extend_candidates(&candidates, &options) {
            Some(n) => n,
            None => {
                proof {
                    lemma_translit_none_extends(v@, i + 1);
                }
                return None;
            },
        };
        candidates = next;
        i = i + 1;
    }
    assert(v@.take(v@.len() as int) =~= v@);
    if candidates.len() == 0 {
        return None;
    }
    let deduped = dedup_candidates(&candidates);
    Some(LatinAnalysis { candidates: strings_of(&deduped), has_diacritic, has_q_or_w })
}

/// Once the readings of a prefix fail, those of the whole word fail.
proof fn lemma_translit_none_extends(s: Seq<char>, i: int)
    requires
        0 <= i <= s.len(),
        translit_cands(s.take(i)) is None,
    ensures
        translit_cands(s) is None,
    decreases s.len() - i,
{
    if i < s.len() {
        assert(s.take(i + 1).drop_last() =~= s.take(i));
        lemma_translit_none_extends(s, i + 1);
    } else {
        assert(s.take(i) =~= s);
    }
}

/// A lowercased token with its script and, for Latin tokens, its readings.
#[derive(Clone, Debug)]
pub struct InputAnalysis {
    pub lowered: String,
    pub class: ScriptClass,
    pub latin: Option<LatinAnalysis>,
}

/// The readings of a Latin token: those of [`spec_transliterate`] for the
/// Latin class, none otherwise.
pub open spec fn latin_of(lowered: Seq<char>, class: ScriptClass) -> Option<(Seq<Seq<char>>, bool, bool)> {
    if class == ScriptClass::Latin {
        spec_transliterate(lowered)
    } else {
        None
    }
}

/// Classifies the script of the lowercased token `lowered` and
/// transliterates it when it is Latin.
pub fn analyze_lowered(lowered: &str) -> (r: InputAnalysis)
    ensures
        r.lowered@ == lowered@,
        r.class == spec_classify(lowered@),
        match r.latin {
            Some(l) => latin_of(lowered@, r.class) == Some(latin_view(l)),
            None => latin_of(lowered@, r.class) is None,
        },
{
    let v = chars_of(lowered);
    let class = classify_script(v.as_slice());
    let latin = if class == ScriptClass::Latin {
        transliterate_latin(v.as_slice())
    } else {
        None
    };
    assert(v@.take(v@.len() as int) =~= v@);
    InputAnalysis { lowered: string_from_chars(v.as_slice(), v.len()), class, latin }
}

/// Lowercases `word`, classifies its script and transliterates Latin words.
pub fn analyze_input(word: &str) -> (r: InputAnalysis)
    ensures
        r.lowered@ == spec_lower_kazakh(word@),
        r.class == spec_classify(r.lowered@),
        match r.latin {
            Some(l) => latin_of(r.lowered@, r.class) == Some(latin_view(l)),
            None => latin_of(r.lowered@, r.class) is None,
        },
{
    let lowered = lower_kazakh(word);
    analyze_lowered(lowered.as_str())
}

} // verus!
