//! Candidate stems: their scoring, sound-change repairs, lexicon checks and
//! the breadth-first search over suffix layers.
use vstd::prelude::*;

use std::collections::{HashSet, VecDeque};

use crate::lexicon::Lexicon;
use crate::rules::{
    is_poss_vowel_suffix, spec_poss_vowel_suffix, LAYER_CASE, LAYER_DERIV, LAYER_POSS,
    LAYER_VNEG, LAYER_VPERSON, LAYER_VTENSE, LAYER_VVOICE,
};
use crate::text::{
    chars_before, ends_with, is_back_vowel, is_vocalic, is_vowel, spec_vocalic, lemma_chars_before_boundary,
    prefix_ends_with, prefix_is_back, prefix_syllables, spec_back_vowel, spec_vowel,
    spec_word_is_back, syll_count, PrefixTables, TABLE_LEN,
};
use crate::utf8::{
    byte_len, byte_len_below, byte_len_prefix, char_width, chars_of, is_lit, len_utf8, lemma_byte_len_push, lit1,
    lit2, lit3, lit4, push_char, string_from_chars,
};
use crate::rules::{LayerDef, LayerSpec, SuffixRule};
use crate::text::spec_harmony_ok;
use crate::{PenaltyWeights, StemConfig};

verus! {

pub const PENALTY_NIK_DERIV: u8 = 1;

pub const PENALTY_FINAL_CONS: u8 = 2;

/// A stem candidate: the byte length of the kept prefix and what was
/// stripped to reach it.
#[derive(Copy, Clone, Debug)]
pub struct Candidate {
    pub len: i32,
    pub steps: i32,
    pub nominal_inf: i32,
    pub verbal_inf: i32,
    pub deriv: i32,
    pub weak: i32,
    pub single_char: i32,
    pub penalty_flags: u8,
    pub last_suffix: Option<&'static str>,
    pub last_layer: i32,
}

impl Candidate {
    /// The candidate that strips nothing from a word of `len` bytes.
    pub open spec fn spec_unstripped(len: i32, flags: u8) -> Candidate {
        Candidate {
            len,
            steps: 0,
            nominal_inf: 0,
            verbal_inf: 0,
            deriv: 0,
            weak: 0,
            single_char: 0,
            penalty_flags: flags,
            last_suffix: None,
            last_layer: 0,
        }
    }
}

impl Default for Candidate {
    fn default() -> (r: Self)
        ensures
            r == Candidate::spec_unstripped(0, 0),
    {
        Candidate {
            len: 0,
            steps: 0,
            nominal_inf: 0,
            verbal_inf: 0,
            deriv: 0,
            weak: 0,
            single_char: 0,
            penalty_flags: 0,
            last_suffix: None,
            last_layer: 0,
        }
    }
}

/// The best candidate by score, and the best one the lexicon confirms.
#[derive(Clone, Copy, Debug)]
pub struct ExploreResult {
    pub best_scored: Candidate,
    pub best_lexhit: Option<Candidate>,
}

/// `x` is a proper suffix of `s` (shorter than `s`).
pub open spec fn sfx_shorter(s: Seq<char>, x: Seq<char>) -> bool {
    x.len() < s.len() && ends_with(s, x)
}

/// Penalty flags of the prefix `s` (of `len` bytes): a final voiced
/// consonant д/г/ғ/б, and a dangling derivational -дағ/-нік tail.
pub open spec fn spec_penalty_flags(s: Seq<char>, len: int) -> u8 {
    if len < 2 {
        0
    } else {
        let f: u8 = if sfx_shorter(s, seq!['д']) || sfx_shorter(s, seq!['г']) || sfx_shorter(
            s,
            seq!['ғ'],
        ) || sfx_shorter(s, seq!['б']) {
            PENALTY_FINAL_CONS
        } else {
            0
        };
        if len < 6 {
            f
        } else if sfx_shorter(s, seq!['д', 'а', 'ғ']) || sfx_shorter(s, seq!['д', 'е', 'г'])
            || sfx_shorter(s, seq!['т', 'а', 'ғ']) || sfx_shorter(s, seq!['т', 'е', 'г'])
            || sfx_shorter(s, seq!['н', 'і', 'к']) || sfx_shorter(s, seq!['д', 'і', 'к'])
            || sfx_shorter(s, seq!['т', 'і', 'к']) {
            f | PENALTY_NIK_DERIV
        } else {
            f
        }
    }
}

fn prefix_sfx_shorter(w: &[char], n: usize, x: Vec<char>) -> (r: bool)
    requires
        n <= w@.len(),
    ensures
        r == sfx_shorter(w@.take(n as int), x@),
{
    x.len() < n && prefix_ends_with(w, n, x.as_slice())
}

/// Penalty flags of the first `n` characters of `w`, which are `len` bytes.
fn penalty_flags_at(w: &[char], n: usize, len: usize) -> (r: u8)
    requires
        n <= w@.len(),
    ensures
        r == spec_penalty_flags(w@.take(n as int), len as int),
{
    let mut f: u8 = 0;
    if len < 2 {
        return 0;
    }
    if prefix_sfx_shorter(w, n, lit1('д')) || prefix_sfx_shorter(w, n, lit1('г'))
        || prefix_sfx_shorter(w, n, lit1('ғ')) || prefix_sfx_shorter(w, n, lit1('б')) {
        f = PENALTY_FINAL_CONS;
    }
    if len < 6 {
        return f;
    }
    if prefix_sfx_shorter(w, n, lit3('д', 'а', 'ғ')) || prefix_sfx_shorter(w, n, lit3('д', 'е', 'г'))
        || prefix_sfx_shorter(w, n, lit3('т', 'а', 'ғ')) || prefix_sfx_shorter(
        w,
        n,
        lit3('т', 'е', 'г'),
    ) || prefix_sfx_shorter(w, n, lit3('н', 'і', 'к')) || prefix_sfx_shorter(
        w,
        n,
        lit3('д', 'і', 'к'),
    ) || prefix_sfx_shorter(w, n, lit3('т', 'і', 'к')) {
        f = f | PENALTY_NIK_DERIV;
    }
    f
}

/// The search's key for a state: byte length, layer index and step count.
pub open spec fn spec_visit_key(len: i32, state_idx: i32, steps: i32) -> u64 {
    ((len as u64) << 32u64) | (((state_idx as u16) as u64) << 16u64) | ((steps as u16) as u64)
}

fn visit_key(len: i32, state_idx: i32, steps: i32) -> (r: u64)
    ensures
        r == spec_visit_key(len, state_idx, steps),
{
    ((len as u64) << 32u64) | (((state_idx as u16) as u64) << 16u64) | ((steps as u16) as u64)
}

/// Keys of states whose byte length is at most 128 lie below `129 << 32`.
proof fn lemma_visit_key_bound(len: i32, state_idx: i32, steps: i32)
    requires
        0 <= len <= 128,
    ensures
        spec_visit_key(len, state_idx, steps) < 129 * 0x1_0000_0000,
{
    let l = len as u64;
    let a = (state_idx as u16) as u64;
    let b = (steps as u16) as u64;
    assert(l <= 128 && a < 0x10000 && b < 0x10000 ==> (l << 32u64) | (a << 16u64) | b < 129
        * 0x1_0000_0000) by (bit_vector);
}

/// Character-class conditions on the base left by stripping `sfx` in a layer.
pub open spec fn spec_layer_guard(layer_id: i32, sfx: Seq<char>, base: Seq<char>, steps_so_far: i32) -> bool {
    if layer_id == LAYER_CASE {
        if sfx == seq!['н'] {
            ends_with(base, seq!['с', 'ы']) || ends_with(base, seq!['с', 'і']) || ends_with(
                base,
                seq!['ы'],
            ) || ends_with(base, seq!['і'])
        } else if sfx == seq!['а'] || sfx == seq!['е'] {
            if poss_tail(base) {
                true
            } else if (ends_with(base, seq!['м']) || ends_with(base, seq!['ң'])) && base.len() > 0 {
                base.len() >= 2 && spec_vocalic(base[base.len() - 2])
            } else {
                false
            }
        } else if base.len() == 0 {
            false
        } else if sfx == seq!['н', 'ы'] || sfx == seq!['н', 'і'] {
            spec_vocalic(base.last())
        } else if sfx == seq!['ы', 'н'] || sfx == seq!['і', 'н'] || sfx == seq!['д', 'ы'] || sfx
            == seq!['д', 'і'] || sfx == seq!['т', 'ы'] || sfx == seq!['т', 'і'] {
            !spec_vocalic(base.last())
        } else {
            true
        }
    } else if layer_id == LAYER_POSS {
        if sfx == seq!['м'] || sfx == seq!['ң'] {
            base.len() > 0 && spec_vocalic(base.last())
        } else {
            true
        }
    } else if layer_id == LAYER_VTENSE {
        if sfx == seq!['у'] {
            base.len() >= 2 && syll_count(base) >= 1
        } else if sfx == seq!['й'] {
            steps_so_far > 0
        } else if sfx == seq!['а'] || sfx == seq!['е'] {
            steps_so_far > 0 && syll_count(base) >= 2
        } else {
            true
        }
    } else if layer_id == LAYER_VNEG {
        base.len() >= 3
    } else if layer_id == LAYER_VPERSON {
        if sfx == seq!['м'] || sfx == seq!['ң'] || sfx == seq!['қ'] || sfx == seq!['к'] {
            syll_count(base) >= 2
        } else {
            true
        }
    } else if layer_id == LAYER_DERIV {
        if sfx == seq!['л', 'ы', 'қ'] || sfx == seq!['л', 'і', 'к'] || sfx == seq!['д', 'ы', 'қ']
            || sfx == seq!['д', 'і', 'к'] || sfx == seq!['т', 'ы', 'қ'] || sfx == seq![
            'т',
            'і',
            'к',
        ] {
            syll_count(base) >= 2
        } else if sfx == seq!['л', 'ы'] || sfx == seq!['л', 'і'] {
            syll_count(base) >= 2
        } else {
            true
        }
    } else {
        true
    }
}

/// The base ends in a possessive ending (so a following case -а/-е is real).
pub open spec fn poss_tail(base: Seq<char>) -> bool {
    ||| ends_with(base, seq!['ы', 'м', 'ы', 'з'])
    ||| ends_with(base, seq!['і', 'м', 'і', 'з'])
    ||| ends_with(base, seq!['ы', 'ң', 'ы', 'з'])
    ||| ends_with(base, seq!['і', 'ң', 'і', 'з'])
    ||| ends_with(base, seq!['м', 'ы', 'з'])
    ||| ends_with(base, seq!['м', 'і', 'з'])
    ||| ends_with(base, seq!['ң', 'ы', 'з'])
    ||| ends_with(base, seq!['ң', 'і', 'з'])
    ||| ends_with(base, seq!['ы', 'м'])
    ||| ends_with(base, seq!['і', 'м'])
    ||| ends_with(base, seq!['ы', 'ң'])
    ||| ends_with(base, seq!['і', 'ң'])
    ||| ends_with(base, seq!['с', 'ы'])
    ||| ends_with(base, seq!['с', 'і'])
    ||| ends_with(base, seq!['ы'])
    ||| ends_with(base, seq!['і'])
}

fn has_poss_tail(w: &[char], n: usize) -> (r: bool)
    requires
        n <= w@.len(),
    ensures
        r == poss_tail(w@.take(n as int)),
{
    prefix_ends_with(w, n, lit4('ы', 'м', 'ы', 'з').as_slice()) || prefix_ends_with(
        w,
        n,
        lit4('і', 'м', 'і', 'з').as_slice(),
    ) || prefix_ends_with(w, n, lit4('ы', 'ң', 'ы', 'з').as_slice()) || prefix_ends_with(
        w,
        n,
        lit4('і', 'ң', 'і', 'з').as_slice(),
    ) || prefix_ends_with(w, n, lit3('м', 'ы', 'з').as_slice()) || prefix_ends_with(
        w,
        n,
        lit3('м', 'і', 'з').as_slice(),
    ) || prefix_ends_with(w, n, lit3('ң', 'ы', 'з').as_slice()) || prefix_ends_with(
        w,
        n,
        lit3('ң', 'і', 'з').as_slice(),
    ) || prefix_ends_with(w, n, lit2('ы', 'м').as_slice()) || prefix_ends_with(
        w,
        n,
        lit2('і', 'м').as_slice(),
    ) || prefix_ends_with(w, n, lit2('ы', 'ң').as_slice()) || prefix_ends_with(
        w,
        n,
        lit2('і', 'ң').as_slice(),
    ) || prefix_ends_with(w, n, lit2('с', 'ы').as_slice()) || prefix_ends_with(
        w,
        n,
        lit2('с', 'і').as_slice(),
    ) || prefix_ends_with(w, n, lit1('ы').as_slice()) || prefix_ends_with(
        w,
        n,
        lit1('і').as_slice(),
    )
}

/// Layer-specific conditions for stripping `sfx`, leaving the first `n`
/// characters of `w` as the base.
fn layer_guard(layer_id: i32, sfx: &str, w: &[char], n: usize, steps_so_far: i32) -> (r: bool)
    requires
        n <= w@.len(),
    ensures
        r == spec_layer_guard(layer_id, sfx@, w@.take(n as int), steps_so_far),
{
    let s = chars_of(sfx);
    let s = s.as_slice();
    let ghost base = w@.take(n as int);
    if layer_id == LAYER_CASE {
        if is_lit(s, lit1('н')) {
            return prefix_ends_with(w, n, lit2('с', 'ы').as_slice()) || prefix_ends_with(
                w,
                n,
                lit2('с', 'і').as_slice(),
            ) || prefix_ends_with(w, n, lit1('ы').as_slice()) || prefix_ends_with(
                w,
                n,
                lit1('і').as_slice(),
            );
        }
        if is_lit(s, lit1('а')) || is_lit(s, lit1('е')) {
            if has_poss_tail(w, n) {
                return true;
            }
            if (prefix_ends_with(w, n, lit1('м').as_slice()) || prefix_ends_with(
                w,
                n,
                lit1('ң').as_slice(),
            )) && n > 0 {
                if n >= 2 {
                    return is_vocalic(w[n - 2]);
                }
            }
            return false;
        }
        if n == 0 {
            return false;
        }
        let cp = w[n - 1];
        if is_lit(s, lit2('н', 'ы')) || is_lit(s, lit2('н', 'і')) {
            return is_vocalic(cp);
        }
        if is_lit(s, lit2('ы', 'н')) || is_lit(s, lit2('і', 'н')) || is_lit(s, lit2('д', 'ы'))
            || is_lit(s, lit2('д', 'і')) || is_lit(s, lit2('т', 'ы')) || is_lit(s, lit2('т', 'і')) {
            return !is_vocalic(cp);
        }
        return true;
    } else if layer_id == LAYER_POSS {
        if is_lit(s, lit1('м')) || is_lit(s, lit1('ң')) {
            return n > 0 && is_vocalic(w[n - 1]);
        }
        return true;
    } else if layer_id == LAYER_VTENSE {
        if is_lit(s, lit1('у')) {
            return n >= 2 && prefix_syllables(w, n) >= 1;
        }
        if is_lit(s, lit1('й')) {
            return steps_so_far > 0;
        }
        if is_lit(s, lit1('а')) || is_lit(s, lit1('е')) {
            return steps_so_far > 0 && prefix_syllables(w, n) >= 2;
        }
        return true;
    } else if layer_id == LAYER_VNEG {
        return n >= 3;
    } else if layer_id == LAYER_VPERSON {
        if is_lit(s, lit1('м')) || is_lit(s, lit1('ң')) || is_lit(s, lit1('қ')) || is_lit(
            s,
            lit1('к'),
        ) {
            return prefix_syllables(w, n) >= 2;
        }
        return true;
    } else if layer_id == LAYER_DERIV {
        if is_lit(s, lit3('л', 'ы', 'қ')) || is_lit(s, lit3('л', 'і', 'к')) || is_lit(
            s,
            lit3('д', 'ы', 'қ'),
        ) || is_lit(s, lit3('д', 'і', 'к')) || is_lit(s, lit3('т', 'ы', 'қ')) || is_lit(
            s,
            lit3('т', 'і', 'к'),
        ) {
            return prefix_syllables(w, n) >= 2;
        }
        // Adjectival -лы/-лі ("having X"): only strip from bases that are
        // plausible standalone nominals, mirroring the -лық/-лік guard.
        if is_lit(s, lit2('л', 'ы')) || is_lit(s, lit2('л', 'і')) {
            return prefix_syllables(w, n) >= 2;
        }
        return true;
    }
    true
}

/// The layer index the search moves to after stripping `suffix` in a layer.
pub open spec fn spec_next_state_idx(noun_track: bool, cur_idx: i32, layer_id: i32, suffix: Seq<char>) -> int {
    if !noun_track {
        if layer_id == LAYER_VVOICE {
            3
        } else {
            cur_idx + 1
        }
    } else if layer_id == LAYER_DERIV && (suffix == seq!['н', 'д', 'а', 'ғ', 'ы'] || suffix
        == seq!['н', 'д', 'е', 'г', 'і'] || suffix == seq!['д', 'а', 'ғ', 'ы'] || suffix == seq![
        'д',
        'е',
        'г',
        'і',
    ] || suffix == seq!['т', 'а', 'ғ', 'ы'] || suffix == seq!['т', 'е', 'г', 'і']) {
        2
    } else if layer_id == LAYER_DERIV {
        4
    } else {
        cur_idx + 1
    }
}

fn next_state_idx(noun_track: bool, cur_idx: i32, layer_id: i32, suffix: &str) -> (r: i32)
    requires
        cur_idx < i32::MAX,
    ensures
        r == spec_next_state_idx(noun_track, cur_idx, layer_id, suffix@),
{
    if !noun_track {
        if layer_id == LAYER_VVOICE {
            return 3;
        }
        return cur_idx + 1;
    }
    if layer_id == LAYER_DERIV {
        let s = chars_of(suffix);
        let s = s.as_slice();
        if is_lit(s, crate::utf8::lit5('н', 'д', 'а', 'ғ', 'ы')) || is_lit(
            s,
            crate::utf8::lit5('н', 'д', 'е', 'г', 'і'),
        ) || is_lit(s, lit4('д', 'а', 'ғ', 'ы')) || is_lit(s, lit4('д', 'е', 'г', 'і')) || is_lit(
            s,
            lit4('т', 'а', 'ғ', 'ы'),
        ) || is_lit(s, lit4('т', 'е', 'г', 'і')) {
            return 2;
        }
        return 4;
    }
    cur_idx + 1
}

/// The part of the penalty fixed by the stem's shape and the track.
pub open spec fn spec_shape_penalty(
    c: Candidate,
    verb_track: bool,
    chars: i32,
    syll: i32,
    w: PenaltyWeights,
) -> int {
    (if c.steps == 0 {
        w.w_no_strip as int
    } else {
        0
    }) + (if chars < 2 {
        w.w_short_char as int
    } else {
        0
    }) + (if syll < 1 {
        w.w_no_syll as int
    } else {
        0
    }) + (if chars == 2 {
        w.w_two_char as int
    } else {
        0
    }) + (if chars == 3 && syll == 1 {
        w.w_three_one as int
    } else {
        0
    }) + (if verb_track && c.verbal_inf > 0 && c.verbal_inf == c.weak {
        w.w_verb_all_weak as int
    } else {
        0
    }) + (if c.penalty_flags & PENALTY_NIK_DERIV != 0 {
        w.w_nik_deriv as int
    } else {
        0
    }) + (if c.penalty_flags & PENALTY_FINAL_CONS != 0 {
        w.w_final_cons as int
    } else {
        0
    }) + (if verb_track {
        w.w_verb_track as int
    } else {
        0
    })
}

/// Characters removed from the word, clamped to `0..=10`.
pub open spec fn spec_removed(original_chars: i32, chars: i32) -> int {
    let removed0 = original_chars - chars;
    if removed0 <= 0 {
        0
    } else if removed0 < 10 {
        removed0
    } else {
        10
    }
}

/// The part of the penalty proportional to counts of stripped suffixes.
pub open spec fn spec_count_penalty(c: Candidate, removed: int, w: PenaltyWeights) -> int {
    c.deriv * w.w_deriv + c.weak * w.w_weak + c.single_char * w.w_single_char - (c.nominal_inf
        * w.w_nominal_inf + c.verbal_inf * w.w_verbal_inf + removed * w.w_removed)
}

/// Score of a candidate (lower is better), in thousandths of a point;
/// `chars` and `syll` are the character and syllable counts of its stem.
pub open spec fn spec_penalty(
    c: Candidate,
    original_chars: i32,
    verb_track: bool,
    chars: i32,
    syll: i32,
    w: PenaltyWeights,
) -> int {
    spec_shape_penalty(c, verb_track, chars, syll, w) + spec_count_penalty(
        c,
        spec_removed(original_chars, chars),
        w,
    )
}

/// The penalty of a candidate, read against the prefix tables of its word.
pub open spec fn spec_candidate_penalty(
    c: Candidate,
    original_chars: i32,
    verb_track: bool,
    prefix: PrefixTables,
    w: PenaltyWeights,
) -> int {
    spec_penalty(
        c,
        original_chars,
        verb_track,
        prefix.chars@[c.len as int],
        prefix.syll@[c.len as int],
        w,
    )
}

proof fn lemma_mul_bound(a: int, b: int)
    requires
        -0x8000_0000 <= a <= 0x8000_0000,
        -0x8000_0000_0000_0000 <= b <= 0x8000_0000_0000_0000,
    ensures
        -0x4000_0000_0000_0000_0000_0000 <= a * b <= 0x4000_0000_0000_0000_0000_0000,
{
    assert(-0x4000_0000_0000_0000_0000_0000 <= a * b <= 0x4000_0000_0000_0000_0000_0000)
        by (nonlinear_arith)
        requires
            -0x8000_0000 <= a <= 0x8000_0000,
            -0x8000_0000_0000_0000 <= b <= 0x8000_0000_0000_0000,
    ;
}

#[verifier::rlimit(50)]
fn shape_penalty(c: &Candidate, verb_track: bool, chars: i32, syll: i32, w: &PenaltyWeights) -> (r: i128)
    ensures
        r == spec_shape_penalty(*c, verb_track, chars, syll, *w),
        -0x10_0000_0000_0000_0000 <= r <= 0x10_0000_0000_0000_0000,
{
    let t1: i128 = if c.steps == 0 {
        w.w_no_strip as i128
    } else {
        0
    };
    let t2: i128 = if chars < 2 {
        w.w_short_char as i128
    } else {
        0
    };
    let t3: i128 = if syll < 1 {
        w.w_no_syll as i128
    } else {
        0
    };
    let t4: i128 = if chars == 2 {
        w.w_two_char as i128
    } else {
        0
    };
    let t5: i128 = if chars == 3 && syll == 1 {
        w.w_three_one as i128
    } else {
        0
    };
    let t6: i128 = if verb_track && c.verbal_inf > 0 && c.verbal_inf == c.weak {
        w.w_verb_all_weak as i128
    } else {
        0
    };
    let t7: i128 = if c.penalty_flags & PENALTY_NIK_DERIV != 0 {
        w.w_nik_deriv as i128
    } else {
        0
    };
    let t8: i128 = if c.penalty_flags & PENALTY_FINAL_CONS != 0 {
        w.w_final_cons as i128
    } else {
        0
    };
    let t9: i128 = if verb_track {
        w.w_verb_track as i128
    } else {
        0
    };
    t1 + t2 + t3 + t4 + t5 + t6 + t7 + t8 + t9
}

fn count_penalty(c: &Candidate, removed: i64, w: &PenaltyWeights) -> (r: i128)
    requires
        0 <= removed <= 10,
    ensures
        r == spec_count_penalty(*c, removed as int, *w),
        -0x4_0000_0000_0000_0000_0000_0000 <= r <= 0x4_0000_0000_0000_0000_0000_0000,
{
    proof {
        lemma_mul_bound(c.deriv as int, w.w_deriv as int);
        lemma_mul_bound(c.weak as int, w.w_weak as int);
        lemma_mul_bound(c.single_char as int, w.w_single_char as int);
        lemma_mul_bound(c.nominal_inf as int, w.w_nominal_inf as int);
        lemma_mul_bound(c.verbal_inf as int, w.w_verbal_inf as int);
        lemma_mul_bound(removed as int, w.w_removed as int);
    }
    let a: i128 = c.deriv as i128 * w.w_deriv as i128;
    let b: i128 = c.weak as i128 * w.w_weak as i128;
    let d: i128 = c.single_char as i128 * w.w_single_char as i128;
    let e: i128 = c.nominal_inf as i128 * w.w_nominal_inf as i128;
    let f: i128 = c.verbal_inf as i128 * w.w_verbal_inf as i128;
    let g: i128 = removed as i128 * w.w_removed as i128;
    a + b + d - (e + f + g)
}

/// Score of a candidate (lower is better), in thousandths of a point.
pub fn candidate_penalty(
    c: &Candidate,
    _word: &str,
    original_chars: i32,
    verb_track: bool,
    prefix: &PrefixTables,
    w: &PenaltyWeights,
) -> (r: i128)
    requires
        0 <= c.len < TABLE_LEN,
    ensures
        r == spec_candidate_penalty(*c, original_chars, verb_track, *prefix, *w),
{
    let chars = prefix.chars[c.len as usize];
    let syll = prefix.syll[c.len as usize];
    let removed0 = original_chars as i64 - chars as i64;
    let removed: i64 = if removed0 <= 0 {
        0
    } else if removed0 < 10 {
        removed0
    } else {
        10
    };
    shape_penalty(c, verb_track, chars, syll, w) + count_penalty(c, removed, w)
}

/// Whether `challenger` (penalty `p_ch`) is strictly better than `current`
/// (penalty `p_cu`): lower penalty, then fewer derivations, fewer weak
/// suffixes, more inflections, and finally a longer stem.
pub open spec fn spec_beats(
    challenger: Candidate,
    current: Candidate,
    p_ch: int,
    p_cu: int,
    prefix: PrefixTables,
) -> bool {
    if p_ch != p_cu {
        p_ch < p_cu
    } else if challenger.deriv != current.deriv {
        challenger.deriv < current.deriv
    } else if challenger.weak != current.weak {
        challenger.weak < current.weak
    } else if challenger.nominal_inf + challenger.verbal_inf != current.nominal_inf
        + current.verbal_inf {
        challenger.nominal_inf + challenger.verbal_inf > current.nominal_inf + current.verbal_inf
    } else {
        prefix.chars@[challenger.len as int] > prefix.chars@[current.len as int]
    }
}

pub fn candidate_beats(
    challenger: &Candidate,
    current: &Candidate,
    p_challenger: i128,
    p_current: i128,
    prefix: &PrefixTables,
) -> (r: bool)
    requires
        0 <= challenger.len < TABLE_LEN,
        0 <= current.len < TABLE_LEN,
    ensures
        r == spec_beats(*challenger, *current, p_challenger as int, p_current as int, *prefix),
{
    if p_challenger != p_current {
        return p_challenger < p_current;
    }
    if challenger.deriv != current.deriv {
        return challenger.deriv < current.deriv;
    }
    if challenger.weak != current.weak {
        return challenger.weak < current.weak;
    }
    let inf_ch = challenger.nominal_inf as i64 + challenger.verbal_inf as i64;
    let inf_cu = current.nominal_inf as i64 + current.verbal_inf as i64;
    if inf_ch != inf_cu {
        return inf_ch > inf_cu;
    }
    let ch_ch = prefix.chars[challenger.len as usize];
    let ch_cu = prefix.chars[current.len as usize];
    ch_ch > ch_cu
}

/// Undoes final-consonant voicing before a vowel suffix: -б → -п, -ғ → -қ,
/// and -г → -к unless a rounded vowel precedes the г.
pub open spec fn spec_apply_mutation(s: Seq<char>) -> Seq<char> {
    if byte_len(s) < 2 || s.len() == 0 {
        s
    } else if s.last() == 'б' {
        s.drop_last().push('п')
    } else if s.last() == 'ғ' {
        s.drop_last().push('қ')
    } else if s.last() == 'г' {
        let base = s.drop_last();
        if base.len() > 0 && (base.last() == 'о' || base.last() == 'ө' || base.last() == 'ұ'
            || base.last() == 'ү' || base.last() == 'у') {
            s
        } else {
            base.push('к')
        }
    } else {
        s
    }
}

/// The mutation on a character vector.
fn mutate_chars(v: &mut Vec<char>)
    ensures
        final(v)@ == spec_apply_mutation(old(v)@),
{
    let n = v.len();
    let short = byte_len_below(v.as_slice(), n, 2);
    assert(v@.take(n as int) =~= v@);
    if short || n == 0 {
        return;
    }
    let last = v[n - 1];
    if last == 'б' {
        v.set(n - 1, 'п');
        assert(v@ =~= old(v)@.drop_last().push('п'));
    } else if last == 'ғ' {
        v.set(n - 1, 'қ');
        assert(v@ =~= old(v)@.drop_last().push('қ'));
    } else if last == 'г' {
        if n >= 2 {
            let cp = v[n - 2];
            if cp == 'о' || cp == 'ө' || cp == 'ұ' || cp == 'ү' || cp == 'у' {
                return;
            }
        }
        v.set(n - 1, 'к');
        assert(v@ =~= old(v)@.drop_last().push('к'));
    }
}

/// Replaces a final voiced б/ғ/г with its voiceless pair (see
/// [`spec_apply_mutation`]).
pub fn apply_mutation(lexeme: &mut String)
    ensures
        final(lexeme)@ == spec_apply_mutation(old(lexeme)@),
{
    let mut v = chars_of(lexeme.as_str());
    mutate_chars(&mut v);
    *lexeme = string_from_chars(v.as_slice(), v.len());
    assert(v@.take(v@.len() as int) =~= v@);
}

/// The last native vowel of `s`.
pub open spec fn spec_last_vowel(s: Seq<char>) -> Option<char>
    decreases s.len(),
{
    if s.len() == 0 {
        None
    } else if spec_vowel(s.last()) {
        Some(s.last())
    } else {
        spec_last_vowel(s.drop_last())
    }
}

/// Restores a vowel elided before a final -н/-з (ауз → ауыз): inserts ы or і,
/// by the harmony of the last vowel, before the final consonant. Only when
/// the consonant follows a consonant, not a native or loan vowel (or is the
/// -уз/-із ending), the word has a vowel, and the result stays under
/// `MAX_STEM_BYTES` bytes.
pub open spec fn spec_try_elision_restore(s: Seq<char>) -> Option<Seq<char>> {
    if s.len() < 2 || (s.last() != 'н' && s.last() != 'з') {
        None
    } else if spec_vocalic(s[s.len() - 2]) && !(ends_with(s, seq!['у', 'з']) || ends_with(
        s,
        seq!['і', 'з'],
    )) {
        None
    } else {
        match spec_last_vowel(s) {
            None => None,
            Some(lv) => {
                let res = s.drop_last().push(
                    if spec_back_vowel(lv) {
                        'ы'
                    } else {
                        'і'
                    },
                ).push(s.last());
                if byte_len(res) >= 128 {
                    None
                } else {
                    Some(res)
                }
            },
        }
    }
}

fn last_vowel(v: &[char]) -> (r: Option<char>)
    ensures
        r == spec_last_vowel(v@),
{
    let mut i = v.len();
    assert(v@.take(i as int) =~= v@);
    while i > 0
        invariant
            i <= v@.len(),
            forall|j: int| i <= j < v@.len() ==> !spec_vowel(#[trigger] v@[j]),
            spec_last_vowel(v@) == spec_last_vowel(v@.take(i as int)),
        decreases i,
    {
        assert(v@.take(i as int).drop_last() =~= v@.take(i - 1));
        if is_vowel(v[i - 1]) {
            return Some(v[i - 1]);
        }
        i = i - 1;
    }
    assert(v@.take(0) =~= Seq::<char>::empty());
    None
}

fn try_elision_restore(v: &[char]) -> (r: Option<Vec<char>>)
    ensures
        match r {
            Some(x) => spec_try_elision_restore(v@) == Some(x@),
            None => spec_try_elision_restore(v@) is None,
        },
{
    let n = v.len();
    if n < 2 {
        return None;
    }
    let last_cp = v[n - 1];
    if last_cp != 'н' && last_cp != 'з' {
        return None;
    }
    let prev_cp = v[n - 2];
    assert(v@.take(n as int) =~= v@);
    if is_vocalic(prev_cp) && !(prefix_ends_with(v, n, lit2('у', 'з').as_slice()) || prefix_ends_with(
        v,
        n,
        lit2('і', 'з').as_slice(),
    )) {
        return None;
    }
    let lv = match last_vowel(v) {
        Some(c) => c,
        None => return None,
    };
    let ins = if is_back_vowel(lv) {
        'ы'
    } else {
        'і'
    };
    let mut result: Vec<char> = Vec::new();
    let mut i: usize = 0;
    while i < n - 1
        invariant
            i <= n - 1,
            n == v@.len(),
            result@ == v@.take(i as int),
        decreases n - 1 - i,
    {
        assert(v@.take(i + 1) =~= v@.take(i as int).push(v@[i as int]));
        result.push(v[i]);
        i = i + 1;
    }
    result.push(ins);
    result.push(last_cp);
    assert(result@ =~= v@.drop_last().push(ins).push(v@.last()));
    let rl = result.len();
    assert(result@.take(rl as int) =~= result@);
    if !byte_len_below(result.as_slice(), rl, 128) {
        return None;
    }
    Some(result)
}

/// The elision restore of `s`, or `s` itself where none applies.
pub open spec fn spec_apply_elision_restore(s: Seq<char>) -> Seq<char> {
    match spec_try_elision_restore(s) {
        Some(x) => x,
        None => s,
    }
}

/// The elision restore of `lexeme`, or `lexeme` itself where none applies.
pub fn apply_elision_restore(lexeme: &str) -> (r: String)
    ensures
        r@ == spec_apply_elision_restore(lexeme@),
{
    let v = chars_of(lexeme);
    match try_elision_restore(v.as_slice()) {
        Some(x) => {
            assert(x@.take(x@.len() as int) =~= x@);
            string_from_chars(x.as_slice(), x.len())
        },
        None => {
            assert(v@.take(v@.len() as int) =~= v@);
            string_from_chars(v.as_slice(), v.len())
        },
    }
}

/// `stem` with the vowel `v` appended, when that stays under
/// `MAX_STEM_BYTES` bytes and the stem is not empty, is a known word.
pub open spec fn spec_append_hits(stem: Seq<char>, v: char, lex: Set<Seq<char>>) -> bool {
    stem.len() > 0 && byte_len(stem.push(v)) < 128 && lex.contains(stem.push(v))
}

pub(crate) fn try_append_vowel_check(stem: &[char], suffix: char, lexicon: &Lexicon) -> (r: bool)
    ensures
        r == spec_append_hits(stem@, suffix, lexicon@),
{
    if stem.len() == 0 {
        return false;
    }
    let mut trial: Vec<char> = Vec::new();
    let mut i: usize = 0;
    while i < stem.len()
        invariant
            i <= stem@.len(),
            trial@ == stem@.take(i as int),
        decreases stem@.len() - i,
    {
        assert(stem@.take(i + 1) =~= stem@.take(i as int).push(stem@[i as int]));
        trial.push(stem[i]);
        i = i + 1;
    }
    assert(stem@.take(stem@.len() as int) =~= stem@);
    trial.push(suffix);
    let tl = trial.len();
    assert(trial@.take(tl as int) =~= trial@);
    if !byte_len_below(trial.as_slice(), tl, 128) {
        return false;
    }
    lexicon.contains_chars(trial.as_slice())
}

/// The lexicon knows `stem` after undoing a possessive's sound changes:
/// the devoiced stem, its elision restore, or the restore of the stem itself
/// (devoiced or not).
pub open spec fn spec_poss_path_hits(stem: Seq<char>, lex: Set<Seq<char>>) -> bool {
    let alt = spec_apply_mutation(stem);
    ||| lex.contains(alt)
    ||| (spec_try_elision_restore(alt) matches Some(r) && lex.contains(r))
    ||| (spec_try_elision_restore(stem) matches Some(r) && (lex.contains(r) || lex.contains(
        spec_apply_mutation(r),
    )))
}

/// Whether the lexicon confirms the stem `stem` reached by candidate `c`:
/// directly, through possessive sound changes, or (after two or more strips
/// of a consonant-final stem) with a harmonic vowel appended.
pub open spec fn spec_hits_stem(c: Candidate, stem: Seq<char>, lex: Set<Seq<char>>) -> bool {
    if lex.contains(stem) {
        true
    } else if c.steps > 0 && c.nominal_inf > 0 && (c.last_suffix matches Some(sfx)
        && spec_poss_vowel_suffix(sfx@)) && spec_poss_path_hits(stem, lex) {
        true
    } else if c.steps < 2 || stem.len() == 0 || spec_vowel(stem.last()) {
        false
    } else {
        let back = spec_word_is_back(stem);
        let v1 = if back {
            'ы'
        } else {
            'і'
        };
        let v2 = if back {
            'а'
        } else {
            'е'
        };
        let alt = spec_apply_mutation(stem);
        spec_append_hits(stem, v1, lex) || spec_append_hits(stem, v2, lex) || spec_append_hits(
            alt,
            v1,
            lex,
        ) || spec_append_hits(alt, v2, lex)
    }
}

/// Whether the lexicon confirms candidate `c` of `word` (see
/// [`spec_hits_stem`]); never for empty stems or stems of `MAX_STEM_BYTES`
/// bytes or more.
pub open spec fn spec_candidate_hits_lexicon(c: Candidate, word: Seq<char>, lex: Set<Seq<char>>) -> bool {
    if c.len <= 0 || c.len >= 128 {
        false
    } else {
        spec_hits_stem(c, word.take(chars_before(word, c.len as int) as int), lex)
    }
}

fn poss_path_hits(stem: &[char], lexicon: &Lexicon) -> (r: bool)
    ensures
        r == spec_poss_path_hits(stem@, lexicon@),
{
    let mut alt: Vec<char> = slice_to_vec(stem);
    mutate_chars(&mut alt);
    if lexicon.contains_chars(alt.as_slice()) {
        return true;
    }
    if let Some(restored) = try_elision_restore(alt.as_slice()) {
        if lexicon.contains_chars(restored.as_slice()) {
            return true;
        }
    }
    if let Some(restored) = try_elision_restore(stem) {
        if lexicon.contains_chars(restored.as_slice()) {
            return true;
        }
        let mut restored_mut = restored;
        mutate_chars(&mut restored_mut);
        if lexicon.contains_chars(restored_mut.as_slice()) {
            return true;
        }
    }
    false
}

fn slice_to_vec(s: &[char]) -> (v: Vec<char>)
    ensures
        v@ == s@,
{
    let mut v: Vec<char> = Vec::new();
    let mut i: usize = 0;
    while i < s.len()
        invariant
            i <= s@.len(),
            v@ == s@.take(i as int),
        decreases s@.len() - i,
    {
        assert(s@.take(i + 1) =~= s@.take(i as int).push(s@[i as int]));
        v.push(s[i]);
        i = i + 1;
    }
    assert(s@.take(s@.len() as int) =~= s@);
    v
}

/// Whether the lexicon confirms the stem of `c`, given as the first `k`
/// characters of `w`.
fn hits_stem(c: &Candidate, w: &[char], k: usize, lexicon: &Lexicon) -> (r: bool)
    requires
        k <= w@.len(),
    ensures
        r == spec_hits_stem(*c, w@.take(k as int), lexicon@),
{
    let stem_v = slice_to_vec(crate::utf8::slice_prefix(w, k));
    let stem = stem_v.as_slice();
    if lexicon.contains_chars(stem) {
        return true;
    }
    if c.steps > 0 && c.nominal_inf > 0 {
        if let Some(last_sfx) = c.last_suffix {
            if is_poss_vowel_suffix(last_sfx) {
                if poss_path_hits(stem, lexicon) {
                    return true;
                }
            }
        }
    }
    if c.steps < 2 {
        return false;
    }
    if k == 0 {
        return false;
    }
    let last_cp = stem[k - 1];
    if is_vowel(last_cp) {
        return false;
    }
    assert(stem@.take(k as int) =~= stem@);
    let stem_back = prefix_is_back(stem, k);
    let v1 = if stem_back {
        'ы'
    } else {
        'і'
    };
    let v2 = if stem_back {
        'а'
    } else {
        'е'
    };
    if try_append_vowel_check(stem, v1, lexicon) {
        return true;
    }
    if try_append_vowel_check(stem, v2, lexicon) {
        return true;
    }
    let mut alt = slice_to_vec(stem);
    mutate_chars(&mut alt);
    if try_append_vowel_check(alt.as_slice(), v1, lexicon) {
        return true;
    }
    if try_append_vowel_check(alt.as_slice(), v2, lexicon) {
        return true;
    }
    false
}

/// Byte offset `b` is where character `k` of `s` starts (or the end of `s`).
pub open spec fn is_boundary(s: Seq<char>, b: int) -> bool {
    exists|k: int| 0 <= k <= s.len() && byte_len(s.take(k)) == b
}

/// The number of characters before byte offset `b`, which must be a
/// character boundary of `w`.
pub(crate) fn char_index_at(w: &[char], b: usize) -> (k: usize)
    requires
        is_boundary(w@, b as int),
    ensures
        k <= w@.len(),
        byte_len(w@.take(k as int)) == b,
        k == chars_before(w@, b as int),
{
    let ghost kk = choose|k: int| 0 <= k <= w@.len() && byte_len(w@.take(k)) == b;
    let mut k: usize = 0;
    let mut acc: usize = 0;
    assert(w@.take(0) =~= Seq::<char>::empty());
    while acc < b
        invariant
            k <= kk,
            0 <= kk <= w@.len(),
            byte_len(w@.take(kk)) == b,
            acc == byte_len(w@.take(k as int)),
            acc <= b,
        decreases kk - k,
    {
        proof {
            if k == kk {
                assert(false);
            }
            crate::utf8::lemma_byte_len_take_succ(w@, k as int);
            crate::utf8::lemma_byte_len_take_mono(w@, k + 1, kk);
        }
        acc = acc + len_utf8(w[k]);
        k = k + 1;
    }
    proof {
        if k < kk {
            crate::utf8::lemma_byte_len_take_mono(w@, k as int, kk);
            crate::utf8::lemma_byte_len_take_succ(w@, k as int);
            crate::utf8::lemma_char_width(w@[k as int]);
            crate::utf8::lemma_byte_len_take_mono(w@, k + 1, kk);
        }
        lemma_chars_before_boundary(w@, k as int);
    }
    k
}

/// Whether the lexicon confirms candidate `c` of `word` (see
/// [`spec_candidate_hits_lexicon`]).
pub fn candidate_hits_lexicon(c: &Candidate, word: &str, lexicon: &Lexicon) -> (r: bool)
    requires
        0 < c.len < 128 ==> is_boundary(word@, c.len as int),
    ensures
        r == spec_candidate_hits_lexicon(*c, word@, lexicon@),
{
    if c.len <= 0 || c.len >= 128 {
        return false;
    }
    let w = chars_of(word);
    let k = char_index_at(w.as_slice(), c.len as usize);
    hits_stem(c, w.as_slice(), k, lexicon)
}

/// The search gives up (answering "no strip") when its queue grows past this.
pub const QUEUE_MAX: usize = 262144;

/// Every state key lies below this bound.
pub open spec fn key_space() -> nat {
    129 * 0x1_0000_0000
}

/// A state of the search: a candidate, the byte length and character count
/// of its stem, and the index of the next layer to consider.
#[derive(Copy, Clone, Debug)]
pub struct ExploreState {
    pub len: i32,
    pub state_idx: i32,
    pub c: Candidate,
    pub nchars: usize,
}

/// The fixed inputs of one search.
pub struct SearchCtx {
    pub word: Seq<char>,
    pub len: int,
    pub layers: Seq<LayerSpec>,
    pub derivation: bool,
    pub max_steps: int,
    pub weights: PenaltyWeights,
    pub lex: Option<Set<Seq<char>>>,
    pub noun_track: bool,
    pub prefix: PrefixTables,
}

/// The state of the search between two steps.
pub struct Search {
    pub queue: Seq<ExploreState>,
    pub visit: Set<u64>,
    pub best_scored: Candidate,
    pub best_pen: int,
    pub best_lexhit: Option<Candidate>,
    pub best_lex_pen: int,
    pub aborted: bool,
}

/// `max_steps` clamped to `1..=16`.
pub open spec fn clamp_steps(m: i32) -> int {
    if m < 1 {
        1
    } else if m > 16 {
        16
    } else {
        m as int
    }
}

pub open spec fn search_ctx(
    word: Seq<char>,
    len: int,
    layers: Seq<LayerSpec>,
    cfg: StemConfig,
    noun_track: bool,
    prefix: PrefixTables,
) -> SearchCtx {
    SearchCtx {
        word,
        len,
        layers,
        derivation: cfg.derivation,
        max_steps: clamp_steps(cfg.max_steps),
        weights: cfg.weights,
        lex: match cfg.lexicon {
            Some(l) => Some(l@),
            None => None,
        },
        noun_track,
        prefix,
    }
}

/// Penalty of a candidate within the search.
pub open spec fn search_penalty(ctx: SearchCtx, c: Candidate) -> int {
    spec_candidate_penalty(
        c,
        ctx.prefix.chars@[ctx.len],
        !ctx.noun_track,
        ctx.prefix,
        ctx.weights,
    )
}

/// The candidate after stripping `rule` of `layer`, leaving `base_len` bytes.
pub open spec fn spec_strip(
    c: Candidate,
    base_len: int,
    rule: SuffixRule,
    layer: LayerSpec,
    flags: u8,
) -> Candidate {
    Candidate {
        len: base_len as i32,
        steps: (c.steps + 1) as i32,
        nominal_inf: if layer.kind == 1 {
            (c.nominal_inf + 1) as i32
        } else {
            c.nominal_inf
        },
        verbal_inf: if layer.kind == 2 {
            (c.verbal_inf + 1) as i32
        } else {
            c.verbal_inf
        },
        deriv: if layer.kind != 1 && layer.kind != 2 {
            (c.deriv + 1) as i32
        } else {
            c.deriv
        },
        weak: if rule.weak {
            (c.weak + 1) as i32
        } else {
            c.weak
        },
        single_char: if rule.sfx_chars == 1 {
            (c.single_char + 1) as i32
        } else {
            c.single_char
        },
        penalty_flags: flags,
        last_suffix: Some(rule.suffix),
        last_layer: layer.layer_id,
    }
}

/// Enqueues `st` under `key` unless the key was seen.
pub open spec fn enqueue(
    q: Seq<ExploreState>,
    v: Set<u64>,
    key: u64,
    st: ExploreState,
) -> (Seq<ExploreState>, Set<u64>) {
    if v.contains(key) {
        (q, v)
    } else {
        (q.push(st), v.insert(key))
    }
}

/// The effect of trying to strip `rule` of `layer` from the state `st`.
pub open spec fn rule_step(
    ctx: SearchCtx,
    st: ExploreState,
    layer: LayerSpec,
    rule: SuffixRule,
    q: Seq<ExploreState>,
    v: Set<u64>,
) -> (Seq<ExploreState>, Set<u64>) {
    let sfx = rule.suffix@;
    let sb = byte_len(sfx) as int;
    let stem = ctx.word.take(st.nchars as int);
    if sb == 0 || sb >= st.len || !ends_with(stem, sfx) {
        (q, v)
    } else {
        let base_len = st.len - sb;
        let base_n = st.nchars - sfx.len();
        let base = ctx.word.take(base_n);
        if ctx.prefix.chars@[base_len] < 2 || ctx.prefix.syll@[base_len] < 1 || !spec_harmony_ok(
            base,
            rule.harmony,
        ) || !spec_layer_guard(layer.layer_id, sfx, base, st.c.steps) {
            (q, v)
        } else {
            let new_idx = spec_next_state_idx(ctx.noun_track, st.state_idx, layer.layer_id, sfx);
            let new_c = spec_strip(
                st.c,
                base_len,
                rule,
                layer,
                spec_penalty_flags(base, base_len),
            );
            enqueue(
                q,
                v,
                spec_visit_key(base_len as i32, new_idx as i32, new_c.steps),
                ExploreState {
                    len: base_len as i32,
                    state_idx: new_idx as i32,
                    c: new_c,
                    nchars: base_n as usize,
                },
            )
        }
    }
}

/// Trying the first `i` rules of `layer` in order.
pub open spec fn expand_rules(
    ctx: SearchCtx,
    st: ExploreState,
    layer: LayerSpec,
    i: int,
    q: Seq<ExploreState>,
    v: Set<u64>,
) -> (Seq<ExploreState>, Set<u64>)
    decreases i,
{
    if i <= 0 {
        (q, v)
    } else {
        let (q2, v2) = expand_rules(ctx, st, layer, i - 1, q, v);
        rule_step(ctx, st, layer, layer.rules[i - 1], q2, v2)
    }
}

/// The successors of `st`: skipping its layer, then stripping each rule of it.
pub open spec fn spec_expand(
    ctx: SearchCtx,
    st: ExploreState,
    q: Seq<ExploreState>,
    v: Set<u64>,
) -> (Seq<ExploreState>, Set<u64>) {
    if st.state_idx >= ctx.layers.len() || st.c.steps >= ctx.max_steps {
        (q, v)
    } else {
        let (q1, v1) = enqueue(
            q,
            v,
            spec_visit_key(st.len, (st.state_idx + 1) as i32, st.c.steps),
            ExploreState { state_idx: (st.state_idx + 1) as i32, ..st },
        );
        let layer = ctx.layers[st.state_idx as int];
        if !ctx.derivation && layer.layer_id == LAYER_DERIV {
            (q1, v1)
        } else {
            expand_rules(ctx, st, layer, layer.rules.len() as int, q1, v1)
        }
    }
}

/// Whether candidate `c` with penalty `pen` replaces the best lexicon hit.
pub open spec fn lexhit_update(ctx: SearchCtx, s: Search, c: Candidate, pen: int) -> bool {
    c.steps > 0 && (ctx.lex matches Some(lex) && spec_candidate_hits_lexicon(c, ctx.word, lex))
        && match s.best_lexhit {
        None => true,
        Some(prev) => spec_beats(c, prev, pen, s.best_lex_pen, ctx.prefix),
    }
}

/// One step of the search: take the oldest state, score it, enqueue its
/// unseen successors.
pub open spec fn search_step(ctx: SearchCtx, s: Search) -> Search {
    if s.aborted || s.queue.len() == 0 {
        s
    } else {
        let st = s.queue[0];
        let q = s.queue.drop_first();
        if q.len() > QUEUE_MAX {
            Search { queue: Seq::empty(), aborted: true, ..s }
        } else {
            let pen = search_penalty(ctx, st.c);
            let upd = spec_beats(st.c, s.best_scored, pen, s.best_pen, ctx.prefix);
            let lupd = lexhit_update(ctx, s, st.c, pen);
            let (q2, v2) = spec_expand(ctx, st, q, s.visit);
            Search {
                queue: q2,
                visit: v2,
                best_scored: if upd {
                    st.c
                } else {
                    s.best_scored
                },
                best_pen: if upd {
                    pen
                } else {
                    s.best_pen
                },
                best_lexhit: if lupd {
                    Some(st.c)
                } else {
                    s.best_lexhit
                },
                best_lex_pen: if lupd {
                    pen
                } else {
                    s.best_lex_pen
                },
                aborted: false,
            }
        }
    }
}

/// `n` steps of the search.
pub open spec fn search_run(ctx: SearchCtx, s: Search, n: nat) -> Search
    decreases n,
{
    if n == 0 {
        s
    } else {
        search_run(ctx, search_step(ctx, s), (n - 1) as nat)
    }
}

/// The unstripped candidate of the whole search word.
pub open spec fn search_root(ctx: SearchCtx) -> Candidate {
    Candidate::spec_unstripped(
        ctx.len as i32,
        spec_penalty_flags(ctx.word.take(chars_before(ctx.word, ctx.len) as int), ctx.len),
    )
}

/// The search before its first step.
pub open spec fn search_init(ctx: SearchCtx) -> Search {
    let root = search_root(ctx);
    Search {
        queue: seq![
            ExploreState {
                len: ctx.len as i32,
                state_idx: 0,
                c: root,
                nchars: chars_before(ctx.word, ctx.len) as usize,
            },
        ],
        visit: Set::empty().insert(spec_visit_key(ctx.len as i32, 0, 0)),
        best_scored: root,
        best_pen: search_penalty(ctx, root),
        best_lexhit: None,
        best_lex_pen: 0,
        aborted: false,
    }
}

/// What the breadth-first search over the layers answers: the best
/// candidate by score and the best lexicon-confirmed one; the unstripped
/// word if the search gave up.
pub open spec fn spec_explore(ctx: SearchCtx) -> ExploreResult {
    let s = search_run(ctx, search_init(ctx), key_space());
    if s.aborted {
        ExploreResult { best_scored: search_root(ctx), best_lexhit: None }
    } else {
        ExploreResult { best_scored: s.best_scored, best_lexhit: s.best_lexhit }
    }
}

/// A candidate for the first `len` bytes of `word`: its stem ends on a
/// character boundary at or before `len`, and its counters lie within the
/// number of strips.
pub open spec fn cand_ok(word: Seq<char>, len: int, c: Candidate) -> bool {
    &&& 0 <= c.len <= len
    &&& is_boundary(word, c.len as int)
    &&& 0 <= c.steps <= 16
    &&& 0 <= c.nominal_inf <= c.steps
    &&& 0 <= c.verbal_inf <= c.steps
    &&& 0 <= c.deriv <= c.steps
    &&& 0 <= c.weak <= c.steps
    &&& 0 <= c.single_char <= c.steps
}

/// The search's inputs are in range.
pub open spec fn ctx_wf(ctx: SearchCtx) -> bool {
    &&& 0 <= ctx.len < TABLE_LEN
    &&& 1 <= ctx.max_steps <= 16
    &&& ctx.layers.len() < 0x7fff_ffff
}

/// A state of the search is consistent with its word.
pub open spec fn state_wf(ctx: SearchCtx, st: ExploreState) -> bool {
    &&& 0 <= st.len <= ctx.len
    &&& st.nchars <= ctx.word.len()
    &&& byte_len(ctx.word.take(st.nchars as int)) == st.len
    &&& st.c.len == st.len
    &&& st.state_idx >= 0
    &&& 0 <= st.c.steps <= 16
    &&& 0 <= st.c.nominal_inf <= st.c.steps
    &&& 0 <= st.c.verbal_inf <= st.c.steps
    &&& 0 <= st.c.deriv <= st.c.steps
    &&& 0 <= st.c.weak <= st.c.steps
    &&& 0 <= st.c.single_char <= st.c.steps
}

/// Queued states are consistent, and seen keys are finitely many and in range.
pub open spec fn frontier_ok(ctx: SearchCtx, q: Seq<ExploreState>, v: Set<u64>) -> bool {
    &&& forall|i: int| 0 <= i < q.len() ==> state_wf(ctx, #[trigger] q[i])
    &&& v.finite()
    &&& forall|k: u64| v.contains(k) ==> k < key_space()
}

proof fn lemma_visit_len_bound(v: Set<u64>)
    requires
        v.finite(),
        forall|k: u64| v.contains(k) ==> k < key_space(),
    ensures
        v.len() <= key_space(),
{
    let r = Set::<u64>::range(0, (129 * 0x1_0000_0000) as u64);
    vstd::set_lib::range_set_properties::<u64>(0, (129 * 0x1_0000_0000) as u64);
    assert(v.subset_of(r));
    vstd::set_lib::lemma_len_subset(v, r);
}

/// Strips `rule` of `layer` from `st` when it applies, enqueueing the result.
fn try_rule(
    Ghost(ctx): Ghost<SearchCtx>,
    st: &ExploreState,
    layer: &LayerDef,
    rule: &SuffixRule,
    ws: &[char],
    noun_track: bool,
    prefix: &PrefixTables,
    queue: &mut VecDeque<ExploreState>,
    visit: &mut HashSet<u64>,
)
    requires
        ctx_wf(ctx),
        state_wf(ctx, *st),
        ws@ == ctx.word,
        *prefix == ctx.prefix,
        noun_track == ctx.noun_track,
        0 <= st.state_idx < ctx.layers.len(),
        st.c.steps < ctx.max_steps,
        frontier_ok(ctx, old(queue)@, old(visit)@),
    ensures
        (final(queue)@, final(visit)@) == rule_step(
            ctx,
            *st,
            layer@,
            *rule,
            old(queue)@,
            old(visit)@,
        ),
        frontier_ok(ctx, final(queue)@, final(visit)@),
        final(visit)@.len() - final(queue)@.len() == old(visit)@.len() - old(queue)@.len(),
{
    broadcast use vstd::std_specs::hash::group_hash_axioms;

    let sfx_v = chars_of(rule.suffix);
    let sfx = sfx_v.as_slice();
    let st_len = st.len as usize;
    let nsfx = sfx.len();
    assert(sfx@.take(nsfx as int) =~= sfx@);
    proof {
        crate::utf8::lemma_byte_len_ge(sfx@);
    }
    if nsfx == 0 {
        assert(sfx@ =~= Seq::<char>::empty());
        return;
    }
    if !byte_len_below(sfx, nsfx, st_len) {
        return;
    }
    let sb = byte_len_prefix(sfx, nsfx);
    if !prefix_ends_with(ws, st.nchars, sfx) {
        return;
    }
    let base_len = st_len - sb;
    let base_n = st.nchars - nsfx;
    let ghost stem = ws@.take(st.nchars as int);
    let ghost base = ws@.take(base_n as int);
    proof {
        assert(stem =~= base + sfx@);
        crate::utf8::lemma_encode_concat(base, sfx@);
    }
    if prefix.chars[base_len] < 2 {
        return;
    }
    if prefix.syll[base_len] < 1 {
        return;
    }
    if !crate::text::prefix_harmony_ok(ws, base_n, rule.harmony) {
        return;
    }
    if !layer_guard(layer.layer_id, rule.suffix, ws, base_n, st.c.steps) {
        return;
    }
    let new_idx = next_state_idx(noun_track, st.state_idx, layer.layer_id, rule.suffix);
    let flags = penalty_flags_at(ws, base_n, base_len);
    let mut new_c = st.c;
    new_c.len = base_len as i32;
    new_c.steps = new_c.steps + 1;
    new_c.last_suffix = Some(rule.suffix);
    new_c.last_layer = layer.layer_id;
    if rule.weak {
        new_c.weak = new_c.weak + 1;
    }
    new_c.penalty_flags = flags;
    if rule.sfx_chars == 1 {
        new_c.single_char = new_c.single_char + 1;
    }
    if layer.kind == 1 {
        new_c.nominal_inf = new_c.nominal_inf + 1;
    } else if layer.kind == 2 {
        new_c.verbal_inf = new_c.verbal_inf + 1;
    } else {
        new_c.deriv = new_c.deriv + 1;
    }
    assert(new_c == spec_strip(st.c, base_len as int, *rule, layer@, flags));
    let key = visit_key(base_len as i32, new_idx, new_c.steps);
    proof {
        lemma_visit_key_bound(base_len as i32, new_idx, new_c.steps);
    }
    let new_st = ExploreState { len: base_len as i32, state_idx: new_idx, c: new_c, nchars: base_n };
    assert(state_wf(ctx, new_st));
    if visit.insert(key) {
        queue.push_back(new_st);
    }
}

/// Enqueues the unseen successors of `st`.
fn expand_state(
    Ghost(ctx): Ghost<SearchCtx>,
    st: &ExploreState,
    ws: &[char],
    layers: &[LayerDef],
    derivation: bool,
    max_steps: i32,
    noun_track: bool,
    prefix: &PrefixTables,
    queue: &mut VecDeque<ExploreState>,
    visit: &mut HashSet<u64>,
)
    requires
        ctx_wf(ctx),
        state_wf(ctx, *st),
        ws@ == ctx.word,
        layers@.map_values(|l: LayerDef| l@) == ctx.layers,
        derivation == ctx.derivation,
        max_steps == ctx.max_steps,
        *prefix == ctx.prefix,
        noun_track == ctx.noun_track,
        frontier_ok(ctx, old(queue)@, old(visit)@),
    ensures
        (final(queue)@, final(visit)@) == spec_expand(ctx, *st, old(queue)@, old(visit)@),
        frontier_ok(ctx, final(queue)@, final(visit)@),
        final(visit)@.len() - final(queue)@.len() == old(visit)@.len() - old(queue)@.len(),
{
    broadcast use vstd::std_specs::hash::group_hash_axioms;

    let nlayer = layers.len() as i32;
    if st.state_idx >= nlayer || st.c.steps >= max_steps {
        return;
    }
    let next_idx = st.state_idx + 1;
    let key = visit_key(st.len, next_idx, st.c.steps);
    proof {
        lemma_visit_key_bound(st.len, next_idx, st.c.steps);
    }
    let skip = ExploreState { len: st.len, state_idx: next_idx, c: st.c, nchars: st.nchars };
    let ghost q0 = queue@;
    let ghost v0 = visit@;
    if visit.insert(key) {
        queue.push_back(skip);
    }
    assert((queue@, visit@) == enqueue(q0, v0, key, skip));
    let layer = &layers[st.state_idx as usize];
    assert(layer@ == ctx.layers[st.state_idx as int]);
    if !derivation && layer.layer_id == LAYER_DERIV {
        return;
    }
    let ghost q1 = queue@;
    let ghost v1 = visit@;
    let ghost d = visit@.len() - queue@.len();
    let mut ri: usize = 0;
    while ri < layer.rules.len()
        invariant
            ri <= layer.rules@.len(),
            ctx_wf(ctx),
            state_wf(ctx, *st),
            ws@ == ctx.word,
            *prefix == ctx.prefix,
            noun_track == ctx.noun_track,
            layer@ == ctx.layers[st.state_idx as int],
            0 <= st.state_idx < ctx.layers.len(),
            st.c.steps < ctx.max_steps,
            (queue@, visit@) == expand_rules(ctx, *st, layer@, ri as int, q1, v1),
            frontier_ok(ctx, queue@, visit@),
            visit@.len() - queue@.len() == d,
        decreases layer.rules@.len() - ri,
    {
        try_rule(Ghost(ctx), st, layer, &layer.rules[ri], ws, noun_track, prefix, queue, visit);
        ri = ri + 1;
    }
    assert((queue@, visit@) == expand_rules(ctx, *st, layer@, layer.rules@.len() as int, q1, v1));
}

proof fn lemma_run_succ(ctx: SearchCtx, s: Search, n: nat)
    ensures
        search_run(ctx, s, n + 1) == search_step(ctx, search_run(ctx, s, n)),
    decreases n,
{
    if n > 0 {
        lemma_run_succ(ctx, search_step(ctx, s), (n - 1) as nat);
        assert(search_run(ctx, s, n) == search_run(ctx, search_step(ctx, s), (n - 1) as nat));
        assert(search_run(ctx, s, n + 1) == search_run(ctx, search_step(ctx, s), n));
    } else {
        assert(search_run(ctx, s, 0) == s);
        assert(search_run(ctx, s, 1) == search_run(ctx, search_step(ctx, s), 0));
    }
}

proof fn lemma_run_fixed(ctx: SearchCtx, s: Search, n: nat, m: nat)
    requires
        n <= m,
        search_step(ctx, search_run(ctx, s, n)) == search_run(ctx, s, n),
    ensures
        search_run(ctx, s, m) == search_run(ctx, s, n),
    decreases m - n,
{
    if n < m {
        lemma_run_fixed(ctx, s, n, (m - 1) as nat);
        lemma_run_succ(ctx, s, (m - 1) as nat);
    }
}

/// Breadth-first search over the suffix layers of one track (nouns or
/// verbs) for the best stem of the first `len` bytes of `word`.
pub fn explore_track_best(
    word: &str,
    len: usize,
    layers: &[LayerDef],
    cfg: &StemConfig,
    noun_track: bool,
    prefix: &PrefixTables,
) -> (r: ExploreResult)
    requires
        is_boundary(word@, len as int),
        len < TABLE_LEN,
        layers@.len() < 0x7fff_ffff,
    ensures
        r == spec_explore(search_ctx(word@, len as int, layers@.map_values(|l: LayerDef| l@), *cfg, noun_track, *prefix)),
        cand_ok(word@, len as int, r.best_scored),
        r.best_lexhit matches Some(b) ==> cand_ok(word@, len as int, b),
{
    broadcast use vstd::std_specs::hash::group_hash_axioms;

    let ghost ctx = search_ctx(word@, len as int, layers@.map_values(|l: LayerDef| l@), *cfg, noun_track, *prefix);
    let w = chars_of(word);
    let ws = w.as_slice();
    let n0 = char_index_at(ws, len);
    let verb_track = !noun_track;
    let original_chars = prefix.chars[len];
    // The key packs steps into 16 bits; exploration depth is capped at 16.
    let max_steps: i32 = if cfg.max_steps < 1 {
        1
    } else if cfg.max_steps > 16 {
        16
    } else {
        cfg.max_steps
    };

    let mut queue: VecDeque<ExploreState> = VecDeque::with_capacity(1024);
    let mut visit: HashSet<u64> = HashSet::with_capacity(4096);

    let flags0 = penalty_flags_at(ws, n0, len);
    let root = Candidate {
        len: len as i32,
        steps: 0,
        nominal_inf: 0,
        verbal_inf: 0,
        deriv: 0,
        weak: 0,
        single_char: 0,
        penalty_flags: flags0,
        last_suffix: None,
        last_layer: 0,
    };
    assert(root == search_root(ctx));
    assert(cand_ok(word@, len as int, root));
    let mut best_scored = root;
    let mut best_pen = candidate_penalty(
        &best_scored,
        word,
        original_chars,
        verb_track,
        prefix,
        &cfg.weights,
    );
    let mut best_lexhit: Option<Candidate> = None;
    let mut best_lex_pen: i128 = 0;

    let key0 = visit_key(len as i32, 0, 0);
    proof {
        lemma_visit_key_bound(len as i32, 0, 0);
    }
    visit.insert(key0);
    queue.push_back(ExploreState { len: len as i32, state_idx: 0, c: root, nchars: n0 });
    let ghost mut iters: nat = 0;
    assert(queue@ =~= search_init(ctx).queue);
    assert(visit@ =~= search_init(ctx).visit);
    loop
        invariant
            ctx == search_ctx(word@, len as int, layers@.map_values(|l: LayerDef| l@), *cfg, noun_track, *prefix),
            ctx_wf(ctx),
            ws@ == ctx.word,
            original_chars == prefix.chars@[len as int],
            verb_track == !noun_track,
            max_steps == ctx.max_steps,
            n0 == chars_before(ws@, len as int),
            root == search_root(ctx),
            cand_ok(word@, len as int, root),
            (Search {
                queue: queue@,
                visit: visit@,
                best_scored,
                best_pen: best_pen as int,
                best_lexhit,
                best_lex_pen: best_lex_pen as int,
                aborted: false,
            }) == search_run(ctx, search_init(ctx), iters),
            frontier_ok(ctx, queue@, visit@),
            visit@.len() == iters + queue@.len(),
            cand_ok(word@, len as int, best_scored),
            best_lexhit matches Some(b) ==> cand_ok(word@, len as int, b),
        ensures
            search_run(ctx, search_init(ctx), key_space()) == (Search {
                queue: queue@,
                visit: visit@,
                best_scored,
                best_pen: best_pen as int,
                best_lexhit,
                best_lex_pen: best_lex_pen as int,
                aborted: false,
            }),
        decreases key_space() - visit@.len() + queue@.len(),
    {
        proof {
            lemma_visit_len_bound(visit@);
            lemma_run_succ(ctx, search_init(ctx), iters);
        }
        let ghost before = search_run(ctx, search_init(ctx), iters);
        let st = match queue.pop_front() {
            Some(st) => st,
            None => {
                proof {
                    lemma_run_fixed(ctx, search_init(ctx), iters, key_space());
                }
                break;
            },
        };
        if queue.len() > QUEUE_MAX {
            // Fail closed: a truncated search could report a wrong stem as
            // best. Returning the input unchanged (understemming) is safe.
            proof {
                lemma_run_fixed(ctx, search_init(ctx), iters + 1, key_space());
            }
            return ExploreResult { best_scored: root, best_lexhit: None };
        }
        assert(state_wf(ctx, st));
        assert(cand_ok(word@, len as int, st.c)) by {
            assert(0 <= st.nchars <= ctx.word.len() && byte_len(ctx.word.take(st.nchars as int)) == st.c.len);
        }
        let cur_pen = candidate_penalty(
            &st.c,
            word,
            original_chars,
            verb_track,
            prefix,
            &cfg.weights,
        );
        if candidate_beats(&st.c, &best_scored, cur_pen, best_pen, prefix) {
            best_scored = st.c;
            best_pen = cur_pen;
        }
        if st.c.steps > 0 {
            match &cfg.lexicon {
                Some(lex) => {
                    proof {
                        lemma_chars_before_boundary(ws@, st.nchars as int);
                    }
                    let hit = st.c.len > 0 && st.c.len < 128 && hits_stem(
                        &st.c,
                        ws,
                        st.nchars,
                        lex,
                    );
                    if hit {
                        let dominated = match best_lexhit {
                            None => true,
                            Some(prev) => candidate_beats(
                                &st.c,
                                &prev,
                                cur_pen,
                                best_lex_pen,
                                prefix,
                            ),
                        };
                        if dominated {
                            best_lexhit = Some(st.c);
                            best_lex_pen = cur_pen;
                        }
                    }
                },
                None => {},
            }
        }
        expand_state(
            Ghost(ctx),
            &st,
            ws,
            layers,
            cfg.derivation,
            max_steps,
            noun_track,
            prefix,
            &mut queue,
            &mut visit,
        );
        proof {
            iters = iters + 1;
        }
    }
    ExploreResult { best_scored, best_lexhit }
}

} // verus!
