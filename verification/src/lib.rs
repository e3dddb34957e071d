//! A suffix-stripping stemmer for Kazakh (Cyrillic, and Latin transliterated
//! into Cyrillic).
use vstd::prelude::*;

pub mod utf8;
pub mod text;
pub mod lexicon;
pub mod rules;
pub mod explore;
pub mod script;
pub mod laws;
pub mod config;

use crate::explore::{
    char_index_at, explore_track_best, search_ctx, spec_explore, apply_elision_restore, apply_mutation, cand_ok, candidate_beats, candidate_hits_lexicon,
    candidate_penalty, spec_apply_elision_restore, spec_apply_mutation, spec_append_hits,
    spec_beats, spec_candidate_hits_lexicon, spec_candidate_penalty, try_append_vowel_check,
    Candidate, ExploreResult,
};
use crate::lexicon::Lexicon;
use crate::rules::{is_poss_vowel_suffix, spec_poss_vowel_suffix};
use crate::script::{
    analyze_lowered, append_str, lower_kazakh, is_cyrillic_letter, latin_view, spec_classify, spec_cyrillic_letter,
    spec_lower_kazakh, spec_transliterate, LatinAnalysis, ScriptClass,
};
use crate::rules::{noun_layers, spec_noun_layers, spec_verb_layers, verb_layers};
use crate::text::{
    chars_before, fill_prefix_tables, lemma_chars_before_boundary, lemma_tables_counts, spec_tables, syll_count, is_vowel, count_syllables, utf8_char_count, prefix_is_back, spec_vowel, spec_word_is_back, PrefixTables, TABLE_LEN,
};
use crate::utf8::{byte_len, byte_len_below, chars_of, push_char, string_from_chars};

verus! {

/// Words of this many bytes or more are never explored.
pub const MAX_STEM_BYTES: usize = 128;

/// Penalty weights of the candidate score, in thousandths of a point.
#[derive(Clone, Copy, Debug)]
pub struct PenaltyWeights {
    pub w_no_strip: i64,
    pub w_short_char: i64,
    pub w_no_syll: i64,
    pub w_two_char: i64,
    pub w_three_one: i64,
    pub w_deriv: i64,
    pub w_weak: i64,
    pub w_single_char: i64,
    pub w_verb_all_weak: i64,
    pub w_nik_deriv: i64,
    pub w_final_cons: i64,
    pub w_nominal_inf: i64,
    pub w_verbal_inf: i64,
    pub w_removed: i64,
    pub w_verb_track: i64,
}

impl PenaltyWeights {
    /// The tuned default weights.
    pub open spec fn spec_default() -> PenaltyWeights {
        PenaltyWeights {
            w_no_strip: 6000,
            w_short_char: 120000,
            w_no_syll: 90000,
            w_two_char: 8000,
            w_three_one: 2500,
            w_deriv: 3200,
            w_weak: 2500,
            w_single_char: 1200,
            w_verb_all_weak: 10000,
            w_nik_deriv: 20000,
            w_final_cons: 4000,
            w_nominal_inf: 3900,
            w_verbal_inf: 4200,
            w_removed: 320,
            w_verb_track: 1200,
        }
    }
}

impl Default for PenaltyWeights {
    fn default() -> (r: Self)
        ensures
            r == PenaltyWeights::spec_default(),
    {
        PenaltyWeights {
            w_no_strip: 6000,
            w_short_char: 120000,
            w_no_syll: 90000,
            w_two_char: 8000,
            w_three_one: 2500,
            w_deriv: 3200,
            w_weak: 2500,
            w_single_char: 1200,
            w_verb_all_weak: 10000,
            w_nik_deriv: 20000,
            w_final_cons: 4000,
            w_nominal_inf: 3900,
            w_verbal_inf: 4200,
            w_removed: 320,
            w_verb_track: 1200,
        }
    }
}

/// Which scripts the stemmer accepts.
#[derive(Copy, Clone, Debug, PartialEq, Eq, Structural)]
pub enum ScriptMode {
    Auto,
    CyrillicOnly,
}

/// Stemming options.
#[derive(Debug)]
pub struct StemConfig {
    pub derivation: bool,
    pub max_steps: i32,
    pub lexicon: Option<Lexicon>,
    pub weights: PenaltyWeights,
    pub script_mode: ScriptMode,
}

impl Default for StemConfig {
    fn default() -> (r: Self)
        ensures
            r.derivation,
            r.max_steps == 8,
            r.lexicon is None,
            r.weights == PenaltyWeights::spec_default(),
            r.script_mode == ScriptMode::Auto,
    {
        StemConfig {
            derivation: true,
            max_steps: 8,
            lexicon: None,
            weights: PenaltyWeights::default(),
            script_mode: ScriptMode::Auto,
        }
    }
}

/// The candidate that strips nothing from a word of `len` bytes.
fn no_strip_candidate(len: usize) -> (r: Candidate)
    ensures
        r == Candidate::spec_unstripped(len as i32, 0),
{
    Candidate {
        len: len as i32,
        steps: 0,
        nominal_inf: 0,
        verbal_inf: 0,
        deriv: 0,
        weak: 0,
        single_char: 0,
        penalty_flags: 0,
        last_suffix: None,
        last_layer: 0,
    }
}

/// After two or more strips, a consonant-final stem that the lexicon knows
/// only with a harmonic vowel appended (ы/а after back vowels, і/е after
/// front ones) gets that vowel back; otherwise the stem is kept.
pub open spec fn spec_restore_lexicon_vowel(lexeme: Seq<char>, lex: Set<Seq<char>>, steps: i32) -> Seq<char> {
    if steps < 2 || lexeme.len() == 0 || byte_len(lexeme) >= MAX_STEM_BYTES {
        lexeme
    } else if spec_vowel(lexeme.last()) {
        lexeme
    } else {
        let back = spec_word_is_back(lexeme);
        let v1 = if back { 'ы' } else { 'і' };
        let v2 = if back { 'а' } else { 'е' };
        if spec_append_hits(lexeme, v1, lex) {
            lexeme.push(v1)
        } else if spec_append_hits(lexeme, v2, lex) {
            lexeme.push(v2)
        } else {
            lexeme
        }
    }
}

fn restore_lexicon_vowel(lexeme: &str, lexicon: &Lexicon, steps: i32) -> (r: String)
    ensures
        r@ == spec_restore_lexicon_vowel(lexeme@, lexicon@, steps),
{
    let v = chars_of(lexeme);
    let n = v.len();
    assert(v@.take(n as int) =~= v@);
    if steps < 2 || n == 0 || !byte_len_below(v.as_slice(), n, MAX_STEM_BYTES) {
        return string_from_chars(v.as_slice(), n);
    }
    if is_vowel(v[n - 1]) {
        return string_from_chars(v.as_slice(), n);
    }
    let back = prefix_is_back(v.as_slice(), n);
    let v1 = if back { 'ы' } else { 'і' };
    let v2 = if back { 'а' } else { 'е' };
    let mut out = string_from_chars(v.as_slice(), n);
    if try_append_vowel_check(v.as_slice(), v1, lexicon) {
        push_char(&mut out, v1);
    } else if try_append_vowel_check(v.as_slice(), v2, lexicon) {
        push_char(&mut out, v2);
    }
    out
}

/// The sound changes a possessive vowel suffix causes are undone on the
/// stem: devoicing of a final б/ғ/г, then the elided vowel before -н/-з.
pub open spec fn spec_undo_sound_changes(lexeme: Seq<char>, best: Candidate) -> Seq<char> {
    if best.nominal_inf > 0 && (best.last_suffix matches Some(sfx) && spec_poss_vowel_suffix(sfx@)) {
        spec_apply_elision_restore(spec_apply_mutation(lexeme))
    } else {
        lexeme
    }
}

fn undo_sound_changes(lexeme: &mut String, best: &Candidate)
    ensures
        final(lexeme)@ == spec_undo_sound_changes(old(lexeme)@, *best),
{
    let needs_restore = best.nominal_inf > 0 && match best.last_suffix {
        Some(s) => is_poss_vowel_suffix(s),
        None => false,
    };
    if needs_restore {
        apply_mutation(lexeme);
        let restored = apply_elision_restore(lexeme.as_str());
        *lexeme = restored;
    }
}

/// A dictionary-known input is kept whole when the lexicon-confirmed
/// candidate is a single strip of a word of at most two syllables, or loses
/// syllables.
pub open spec fn spec_should_keep_input(c: Candidate, txt: Seq<char>, prefix: PrefixTables, lex: Set<Seq<char>>) -> bool {
    let len = byte_len(txt) as int;
    lex.contains(txt) && ((c.steps == 1 && prefix.syll@[len] <= 2) || prefix.syll@[c.len as int]
        < prefix.syll@[len])
}

fn should_keep_input(candidate: &Candidate, txt: &str, prefix: &PrefixTables, lex: &Lexicon) -> (r: bool)
    requires
        byte_len(txt@) < TABLE_LEN,
        0 <= candidate.len < TABLE_LEN,
    ensures
        r == spec_should_keep_input(*candidate, txt@, *prefix, lex@),
{
    if !lex.contains(txt) {
        return false;
    }
    let len = txt.len();
    let shallow_ambiguous = candidate.steps == 1 && prefix.syll[len] <= 2;
    // Any syllable loss on a dictionary-known input is suspicious.
    let lost_syllables = prefix.syll[candidate.len as usize] < prefix.syll[len];
    shallow_ambiguous || lost_syllables
}

/// The better of the two tracks' lexicon-confirmed candidates, by penalty
/// and the tie-breaks of [`spec_beats`]; the noun one on a tie.
pub open spec fn spec_pick_best_lexhit(
    noun: ExploreResult,
    verb: ExploreResult,
    original_chars: i32,
    prefix: PrefixTables,
    w: PenaltyWeights,
) -> Option<Candidate> {
    match (noun.best_lexhit, verb.best_lexhit) {
        (Some(nc), Some(vc)) => {
            let np = spec_candidate_penalty(nc, original_chars, false, prefix, w);
            let vp = spec_candidate_penalty(vc, original_chars, true, prefix, w);
            Some(if spec_beats(vc, nc, vp, np, prefix) { vc } else { nc })
        },
        (Some(c), None) => Some(c),
        (None, Some(c)) => Some(c),
        (None, None) => None,
    }
}

fn pick_best_lexhit(
    noun: &ExploreResult,
    verb: &ExploreResult,
    txt: &str,
    original_chars: i32,
    prefix: &PrefixTables,
    weights: &PenaltyWeights,
) -> (r: Option<Candidate>)
    requires
        noun.best_lexhit matches Some(c) ==> 0 <= c.len < TABLE_LEN,
        verb.best_lexhit matches Some(c) ==> 0 <= c.len < TABLE_LEN,
    ensures
        r == spec_pick_best_lexhit(*noun, *verb, original_chars, *prefix, *weights),
{
    match (noun.best_lexhit, verb.best_lexhit) {
        (Some(nc), Some(vc)) => {
            let np = candidate_penalty(&nc, txt, original_chars, false, prefix, weights);
            let vp = candidate_penalty(&vc, txt, original_chars, true, prefix, weights);
            Some(
                if candidate_beats(&vc, &nc, vp, np, prefix) {
                    vc
                } else {
                    nc
                },
            )
        },
        (Some(c), None) => Some(c),
        (None, Some(c)) => Some(c),
        (None, None) => None,
    }
}

/// The better of the two tracks' best-scored candidates; when the input is a
/// known word, it is kept whole unless the lexicon confirms that candidate
/// and the candidate neither strips only single characters nor loses
/// syllables.
pub open spec fn spec_pick_best_scored(
    noun: ExploreResult,
    verb: ExploreResult,
    txt: Seq<char>,
    original_chars: i32,
    prefix: PrefixTables,
    w: PenaltyWeights,
    lexicon: Option<Set<Seq<char>>>,
) -> Candidate {
    let np = spec_candidate_penalty(noun.best_scored, original_chars, false, prefix, w);
    let vp = spec_candidate_penalty(verb.best_scored, original_chars, true, prefix, w);
    let best = if spec_beats(verb.best_scored, noun.best_scored, vp, np, prefix) {
        verb.best_scored
    } else {
        noun.best_scored
    };
    let len = byte_len(txt) as int;
    match lexicon {
        Some(lex) => if lex.contains(txt) {
            let only_single_char = best.steps > 0 && best.single_char == best.steps;
            let lost_syllables = prefix.syll@[best.len as int] < prefix.syll@[len];
            let hits_lex = spec_candidate_hits_lexicon(best, txt, lex);
            if !hits_lex || only_single_char || lost_syllables {
                Candidate::spec_unstripped(len as i32, 0)
            } else {
                best
            }
        } else {
            best
        },
        None => best,
    }
}

fn pick_best_scored(
    noun: &ExploreResult,
    verb: &ExploreResult,
    txt: &str,
    original_chars: i32,
    prefix: &PrefixTables,
    weights: &PenaltyWeights,
    lexicon: Option<&Lexicon>,
) -> (r: Candidate)
    requires
        byte_len(txt@) < MAX_STEM_BYTES,
        cand_ok(txt@, byte_len(txt@) as int, noun.best_scored),
        cand_ok(txt@, byte_len(txt@) as int, verb.best_scored),
    ensures
        r == spec_pick_best_scored(
            *noun,
            *verb,
            txt@,
            original_chars,
            *prefix,
            *weights,
            match lexicon {
                Some(l) => Some(l@),
                None => None,
            },
        ),
        cand_ok(txt@, byte_len(txt@) as int, r),
{
    let np = candidate_penalty(&noun.best_scored, txt, original_chars, false, prefix, weights);
    let vp = candidate_penalty(&verb.best_scored, txt, original_chars, true, prefix, weights);
    let best = if candidate_beats(&verb.best_scored, &noun.best_scored, vp, np, prefix) {
        verb.best_scored
    } else {
        noun.best_scored
    };
    let no_strip = no_strip_candidate(txt.len());
    proof {
        lemma_whole_is_boundary(txt@);
    }
    if let Some(lex) = lexicon {
        if lex.contains(txt) {
            let only_single_char = best.steps > 0 && best.single_char == best.steps;
            let lost_syllables = prefix.syll[best.len as usize] < prefix.syll[txt.len()];
            let hits_lex = candidate_hits_lexicon(&best, txt, lex);
            if !hits_lex || only_single_char || lost_syllables {
                return no_strip;
            }
        }
    }
    best
}

/// A word ends on a character boundary.
proof fn lemma_whole_is_boundary(s: Seq<char>)
    ensures
        crate::explore::is_boundary(s, byte_len(s) as int),
{
    assert(s.take(s.len() as int) =~= s);
}

/// The candidate chosen from the two tracks: without a lexicon, or when
/// neither track found a lexicon-confirmed candidate, the best-scored one;
/// otherwise the better confirmed one, unless the input itself is a word
/// that should be kept whole.
pub open spec fn spec_select_best(
    noun: ExploreResult,
    verb: ExploreResult,
    txt: Seq<char>,
    original_chars: i32,
    prefix: PrefixTables,
    cfg: StemConfig,
) -> Candidate {
    match cfg.lexicon {
        None => spec_pick_best_scored(noun, verb, txt, original_chars, prefix, cfg.weights, None),
        Some(lex) => {
            let scored = spec_pick_best_scored(
                noun,
                verb,
                txt,
                original_chars,
                prefix,
                cfg.weights,
                Some(lex@),
            );
            if noun.best_lexhit is None && verb.best_lexhit is None {
                scored
            } else {
                match spec_pick_best_lexhit(noun, verb, original_chars, prefix, cfg.weights) {
                    Some(bl) => if spec_should_keep_input(bl, txt, prefix, lex@) {
                        Candidate::spec_unstripped(byte_len(txt) as i32, 0)
                    } else {
                        bl
                    },
                    None => scored,
                }
            }
        },
    }
}

fn select_best(
    noun: &ExploreResult,
    verb: &ExploreResult,
    txt: &str,
    original_chars: i32,
    prefix: &PrefixTables,
    cfg: &StemConfig,
) -> (r: Candidate)
    requires
        byte_len(txt@) < MAX_STEM_BYTES,
        cand_ok(txt@, byte_len(txt@) as int, noun.best_scored),
        cand_ok(txt@, byte_len(txt@) as int, verb.best_scored),
        noun.best_lexhit matches Some(c) ==> cand_ok(txt@, byte_len(txt@) as int, c),
        verb.best_lexhit matches Some(c) ==> cand_ok(txt@, byte_len(txt@) as int, c),
    ensures
        r == spec_select_best(*noun, *verb, txt@, original_chars, *prefix, *cfg),
        cand_ok(txt@, byte_len(txt@) as int, r),
{
    let lex = match &cfg.lexicon {
        Some(l) => l,
        None => {
            return pick_best_scored(noun, verb, txt, original_chars, prefix, &cfg.weights, None);
        },
    };
    if noun.best_lexhit.is_none() && verb.best_lexhit.is_none() {
        return pick_best_scored(noun, verb, txt, original_chars, prefix, &cfg.weights, Some(lex));
    }
    match pick_best_lexhit(noun, verb, txt, original_chars, prefix, &cfg.weights) {
        Some(bl) => {
            if should_keep_input(&bl, txt, prefix, lex) {
                proof {
                    lemma_whole_is_boundary(txt@);
                }
                no_strip_candidate(txt.len())
            } else {
                bl
            }
        },
        None => pick_best_scored(noun, verb, txt, original_chars, prefix, &cfg.weights, Some(lex)),
    }
}

/// The candidate strips at least one inflection.
pub open spec fn spec_inflectional_strip(best: Candidate) -> bool {
    best.steps > 0 && (best.nominal_inf > 0 || best.verbal_inf > 0)
}

fn is_inflectional_strip(best: &Candidate) -> (r: bool)
    ensures
        r == spec_inflectional_strip(*best),
{
    best.steps > 0 && (best.nominal_inf > 0 || best.verbal_inf > 0)
}

/// A Latin reading is trusted when the lexicon knows the reading or its
/// stem, or when it strips an inflection, keeps at least three characters,
/// and keeps one syllable (with Kazakh diacritics) or two (otherwise).
pub open spec fn spec_latin_confident(
    has_diacritic: bool,
    has_q_or_w: bool,
    best: Candidate,
    stem_chars: i32,
    stem_syll: i32,
    lex_word_hit: bool,
    lex_stem_hit: bool,
) -> bool {
    if lex_word_hit || lex_stem_hit {
        true
    } else if !spec_inflectional_strip(best) || stem_chars < 3 {
        false
    } else if has_diacritic {
        stem_syll >= 1
    } else if has_q_or_w {
        stem_syll >= 2
    } else {
        stem_syll >= 2
    }
}

fn latin_candidate_confident(
    latin: &LatinAnalysis,
    best: &Candidate,
    stem_chars: i32,
    stem_syll: i32,
    lex_word_hit: bool,
    lex_stem_hit: bool,
) -> (r: bool)
    ensures
        r == spec_latin_confident(
            latin.has_diacritic,
            latin.has_q_or_w,
            *best,
            stem_chars,
            stem_syll,
            lex_word_hit,
            lex_stem_hit,
        ),
{
    if lex_word_hit || lex_stem_hit {
        return true;
    }
    if !is_inflectional_strip(best) || stem_chars < 3 {
        return false;
    }
    if latin.has_diacritic {
        return stem_syll >= 1;
    }
    if latin.has_q_or_w {
        return stem_syll >= 2;
    }
    stem_syll >= 2
}

/// The score of a trusted Latin reading: lexicon hits on the stem (120) and
/// on the reading (80), an inflectional strip (35, and 6 per strip), Kazakh
/// diacritics (12) or q/w (8), two per stem syllable, and one per stem
/// character up to eight.
pub open spec fn spec_latin_score(
    has_diacritic: bool,
    has_q_or_w: bool,
    best: Candidate,
    stem_chars: i32,
    stem_syll: i32,
    lex_word_hit: bool,
    lex_stem_hit: bool,
) -> int {
    (if lex_stem_hit { 120int } else { 0int }) + (if lex_word_hit { 80int } else { 0int }) + (
    if spec_inflectional_strip(best) {
        35 + best.steps * 6
    } else {
        0int
    }) + (if has_diacritic {
        12int
    } else if has_q_or_w {
        8int
    } else {
        0int
    }) + stem_syll * 2 + (if stem_chars < 8 { stem_chars as int } else { 8int })
}

fn latin_candidate_score(
    latin: &LatinAnalysis,
    best: &Candidate,
    stem_chars: i32,
    stem_syll: i32,
    lex_word_hit: bool,
    lex_stem_hit: bool,
) -> (r: i64)
    ensures
        r == spec_latin_score(
            latin.has_diacritic,
            latin.has_q_or_w,
            *best,
            stem_chars,
            stem_syll,
            lex_word_hit,
            lex_stem_hit,
        ),
{
    let mut score: i64 = 0;
    if lex_stem_hit {
        score = score + 120;
    }
    if lex_word_hit {
        score = score + 80;
    }
    if is_inflectional_strip(best) {
        score = score + 35 + best.steps as i64 * 6;
    }
    if latin.has_diacritic {
        score = score + 12;
    } else if latin.has_q_or_w {
        score = score + 8;
    }
    score = score + stem_syll as i64 * 2;
    score + if stem_chars < 8 {
        stem_chars as i64
    } else {
        8
    }
}

/// The candidate chosen by searching both tracks of a word.
pub open spec fn spec_search_best(txt: Seq<char>, cfg: StemConfig) -> Candidate {
    let len = byte_len(txt) as int;
    let prefix = spec_tables(txt);
    let noun = spec_explore(search_ctx(txt, len, spec_noun_layers(), cfg, true, prefix));
    let verb = spec_explore(search_ctx(txt, len, spec_verb_layers(), cfg, false, prefix));
    spec_select_best(noun, verb, txt, txt.len() as i32, prefix, cfg)
}

fn search_best(txt: &str, len: usize, prefix: &PrefixTables, cfg: &StemConfig) -> (r: Candidate)
    requires
        len == byte_len(txt@),
        len < MAX_STEM_BYTES,
        *prefix == spec_tables(txt@),
        prefix.describes(txt@),
    ensures
        r == spec_search_best(txt@, *cfg),
        cand_ok(txt@, len as int, r),
{
    proof {
        lemma_whole_is_boundary(txt@);
        assert(txt@.take(txt@.len() as int) =~= txt@);
        lemma_chars_before_boundary(txt@, txt@.len() as int);
        lemma_tables_counts(*prefix, txt@, len as int);
    }
    let original_chars = prefix.chars[len];
    let noun_l = noun_layers();
    let verb_l = verb_layers();
    let noun = explore_track_best(txt, len, noun_l.as_slice(), cfg, true, prefix);
    let verb = explore_track_best(txt, len, verb_l.as_slice(), cfg, false, prefix);
    select_best(&noun, &verb, txt, original_chars, prefix, cfg)
}

/// A stem with the candidate that produced it.
struct StemOutcome {
    stem: String,
    best: Candidate,
}

/// A denominal verb ending: -да/-де/-та/-те.
pub open spec fn spec_denominal_ending(x: Seq<char>) -> bool {
    x == seq!['д', 'а'] || x == seq!['д', 'е'] || x == seq!['т', 'а'] || x == seq!['т', 'е']
}

/// A verbal noun in -у (or in -ю, from a root in -й) or a denominal verb in
/// -да/-де/-та/-те collapses onto its root when the lexicon knows the root
/// and the root has at least two syllables (so that short roots do not
/// swallow homographs: ату is not ат).
pub open spec fn spec_conflate_root(s: Seq<char>, lex: Set<Seq<char>>) -> Seq<char> {
    let n = s.len() as int;
    if n >= 1 && s.last() == 'у' && syll_count(s.drop_last()) >= 2 && lex.contains(s.drop_last()) {
        s.drop_last()
    } else if n >= 1 && s.last() == 'ю' && syll_count(s.drop_last().push('й')) >= 2 && lex.contains(
        s.drop_last().push('й'),
    ) {
        s.drop_last().push('й')
    } else if n >= 2 && spec_denominal_ending(s.subrange(n - 2, n)) && syll_count(s.take(n - 2))
        >= 2 && lex.contains(s.take(n - 2)) {
        s.take(n - 2)
    } else {
        s
    }
}

fn conflate_root(s: &str, lexicon: &Lexicon) -> (r: String)
    ensures
        r@ == spec_conflate_root(s@, lexicon@),
{
    let v = chars_of(s);
    let n = v.len();
    assert(v@.take(n as int) =~= v@);
    if n >= 1 {
        let last = v[n - 1];
        assert(v@.take(n - 1) =~= v@.drop_last());
        if last == 'у' {
            let root = string_from_chars(v.as_slice(), n - 1);
            if count_syllables_at_least_two(&root) && lexicon.contains(root.as_str()) {
                return root;
            }
        } else if last == 'ю' {
            let mut root = string_from_chars(v.as_slice(), n - 1);
            push_char(&mut root, 'й');
            if count_syllables_at_least_two(&root) && lexicon.contains(root.as_str()) {
                return root;
            }
        }
    }
    if n >= 2 {
        let a = v[n - 2];
        let b = v[n - 1];
        proof {
            assert(v@.subrange(n - 2, n as int) =~= seq![a, b]);
        }
        if (a == 'д' || a == 'т') && (b == 'а' || b == 'е') {
            let root = string_from_chars(v.as_slice(), n - 2);
            if count_syllables_at_least_two(&root) && lexicon.contains(root.as_str()) {
                return root;
            }
        }
    }
    string_from_chars(v.as_slice(), n)
}

/// Whether `s` has at least two syllables.
fn count_syllables_at_least_two(s: &String) -> (r: bool)
    ensures
        r == (syll_count(s@) >= 2),
{
    let v = chars_of(s.as_str());
    assert(v@.take(v@.len() as int) =~= v@);
    crate::text::prefix_syllables(v.as_slice(), v.len()) >= 2
}

/// The stem of a lowercase Cyrillic word, with the chosen candidate: words
/// of `MAX_STEM_BYTES` bytes or more and words of fewer than two syllables
/// are kept; otherwise both tracks are searched and the best candidate
/// chosen, its sound changes undone and, with a lexicon, a dropped final
/// vowel restored and a known root of a verbal noun or denominal verb taken.
pub open spec fn spec_stem_canonical(txt: Seq<char>, cfg: StemConfig) -> (Seq<char>, Candidate) {
    let len = byte_len(txt);
    if len >= MAX_STEM_BYTES {
        (txt, Candidate::spec_unstripped((len as usize) as i32, 0))
    } else if syll_count(txt) < 2 {
        (txt, Candidate::spec_unstripped(len as i32, 0))
    } else {
        let best = spec_search_best(txt, cfg);
        let (stem, chosen) = if best.steps == 0 {
            (txt, Candidate::spec_unstripped(len as i32, 0))
        } else {
            let lexeme = spec_undo_sound_changes(
                txt.take(chars_before(txt, best.len as int) as int),
                best,
            );
            (
                match cfg.lexicon {
                    Some(lex) => spec_restore_lexicon_vowel(lexeme, lex@, best.steps),
                    None => lexeme,
                },
                best,
            )
        };
        (
            match cfg.lexicon {
                Some(lex) => spec_conflate_root(stem, lex@),
                None => stem,
            },
            chosen,
        )
    }
}

fn stem_canonical(txt: &str, cfg: &StemConfig) -> (r: StemOutcome)
    ensures
        (r.stem@, r.best) == spec_stem_canonical(txt@, *cfg),
        0 <= r.best.steps <= 16,
{
    let w = chars_of(txt);
    let n = w.len();
    assert(w@.take(n as int) =~= w@);
    // Adversarially long tokens: skip exploration entirely.
    if !byte_len_below(w.as_slice(), n, MAX_STEM_BYTES) {
        return StemOutcome {
            stem: string_from_chars(w.as_slice(), n),
            best: no_strip_candidate(txt.len()),
        };
    }
    let len = txt.len();
    assert(len == byte_len(txt@));
    let prefix = fill_prefix_tables(txt);
    proof {
        assert(txt@.take(txt@.len() as int) =~= txt@);
        lemma_chars_before_boundary(txt@, txt@.len() as int);
        lemma_tables_counts(prefix, txt@, len as int);
    }
    if prefix.syll[len] < 2 {
        return StemOutcome {
            stem: string_from_chars(w.as_slice(), n),
            best: no_strip_candidate(len),
        };
    }
    let best = search_best(txt, len, &prefix, cfg);
    let (lexeme, chosen) = if best.steps == 0 {
        (string_from_chars(w.as_slice(), n), no_strip_candidate(len))
    } else {
        let k = char_index_at(w.as_slice(), best.len as usize);
        let mut lexeme = string_from_chars(w.as_slice(), k);
        undo_sound_changes(&mut lexeme, &best);
        match &cfg.lexicon {
            Some(lex) => {
                lexeme = restore_lexicon_vowel(lexeme.as_str(), lex, best.steps);
            },
            None => {},
        }
        (lexeme, best)
    };
    let stem = match &cfg.lexicon {
        Some(lex) => conflate_root(lexeme.as_str(), lex),
        None => lexeme,
    };
    StemOutcome { stem, best: chosen }
}

/// With a lexicon, stems `s` again as long as that shortens it to a word
/// the lexicon knows, so that a stem stripped only part of the way
/// (таратқандар → таратқан) reaches the known root (таратқан → тарат).
pub open spec fn spec_settle(s: Seq<char>, cfg: StemConfig) -> Seq<char>
    decreases s.len(),
{
    match cfg.lexicon {
        None => s,
        Some(lex) => {
            let next = spec_stem_canonical(s, cfg).0;
            if next.len() < s.len() && lex@.contains(next) {
                spec_settle(next, cfg)
            } else {
                s
            }
        },
    }
}

fn settle(s: String, cfg: &StemConfig) -> (r: String)
    ensures
        r@ == spec_settle(s@, *cfg),
{
    let lex = match &cfg.lexicon {
        None => {
            return s;
        },
        Some(l) => l,
    };
    let ghost s0 = s@;
    let mut cur = s;
    loop
        invariant
            s0 == s@,
            cfg.lexicon == Some(*lex),
            spec_settle(cur@, *cfg) == spec_settle(s0, *cfg),
        decreases cur@.len(),
    {
        let next = stem_canonical(cur.as_str(), cfg).stem;
        let next_len = chars_of(next.as_str()).len();
        let cur_len = chars_of(cur.as_str()).len();
        assert(next@ == spec_stem_canonical(cur@, *cfg).0);
        assert(next_len == next@.len() && cur_len == cur@.len());
        if next_len < cur_len && lex.contains(next.as_str()) {
            assert(spec_settle(cur@, *cfg) == spec_settle(next@, *cfg));
            cur = next;
        } else {
            assert(spec_settle(cur@, *cfg) == cur@);
            return cur;
        }
    }
}

/// The stem of a lowercase Cyrillic word: the first stem, settled, with the
/// candidate of the first pass.
#[verifier::opaque]
pub open spec fn spec_stem_word(txt: Seq<char>, cfg: StemConfig) -> (Seq<char>, Candidate) {
    let first = spec_stem_canonical(txt, cfg);
    (spec_settle(first.0, cfg), first.1)
}

fn stem_word(txt: &str, cfg: &StemConfig) -> (r: StemOutcome)
    ensures
        (r.stem@, r.best) == spec_stem_word(txt@, *cfg),
        0 <= r.best.steps <= 16,
{
    reveal(spec_stem_word);
    let first = stem_canonical(txt, cfg);
    StemOutcome { stem: settle(first.stem, cfg), best: first.best }
}

/// The ranking key of a trusted Latin reading: score, lexicon hit on the
/// stem, lexicon hit on the reading, strips, inflections, stem characters.
pub type LatinKey = (i64, i64, i64, i64, i64, i64);

/// `a` ranks above `b`, comparing their entries in order.
pub open spec fn key_gt(a: LatinKey, b: LatinKey) -> bool {
    if a.0 != b.0 {
        a.0 > b.0
    } else if a.1 != b.1 {
        a.1 > b.1
    } else if a.2 != b.2 {
        a.2 > b.2
    } else if a.3 != b.3 {
        a.3 > b.3
    } else if a.4 != b.4 {
        a.4 > b.4
    } else {
        a.5 > b.5
    }
}

fn latin_key_gt(a: &LatinKey, b: &LatinKey) -> (r: bool)
    ensures
        r == key_gt(*a, *b),
{
    if a.0 != b.0 {
        a.0 > b.0
    } else if a.1 != b.1 {
        a.1 > b.1
    } else if a.2 != b.2 {
        a.2 > b.2
    } else if a.3 != b.3 {
        a.3 > b.3
    } else if a.4 != b.4 {
        a.4 > b.4
    } else {
        a.5 > b.5
    }
}

/// The entry of one Cyrillic reading `cand` of a Latin word, stemmed to
/// `out` (stem and candidate): its key and stem, when the reading is
/// trusted.
pub open spec fn spec_latin_entry(
    latin: (Seq<Seq<char>>, bool, bool),
    cand: Seq<char>,
    out: (Seq<char>, Candidate),
    cfg: StemConfig,
) -> Option<(LatinKey, Seq<char>)> {
    let stem = out.0;
    let best = out.1;
    let stem_chars = stem.len() as i32;
    let stem_syll = syll_count(stem) as i32;
    let word_hit = match cfg.lexicon {
        Some(lex) => lex@.contains(cand),
        None => false,
    };
    let stem_hit = match cfg.lexicon {
        Some(lex) => lex@.contains(stem),
        None => false,
    };
    if !spec_latin_confident(latin.1, latin.2, best, stem_chars, stem_syll, word_hit, stem_hit) {
        None
    } else {
        Some(
            (
                (
                    spec_latin_score(
                        latin.1,
                        latin.2,
                        best,
                        stem_chars,
                        stem_syll,
                        word_hit,
                        stem_hit,
                    ) as i64,
                    if stem_hit { 1i64 } else { 0i64 },
                    if word_hit { 1i64 } else { 0i64 },
                    best.steps as i64,
                    (best.nominal_inf + best.verbal_inf) as i64,
                    stem_chars as i64,
                ),
                stem,
            ),
        )
    }
}

/// The stem of one Cyrillic reading of a Latin word with its key, when the
/// reading is trusted.
pub open spec fn spec_latin_reading(
    latin: (Seq<Seq<char>>, bool, bool),
    cand: Seq<char>,
    cfg: StemConfig,
) -> Option<(LatinKey, Seq<char>)> {
    spec_latin_entry(latin, cand, spec_stem_word(cand, cfg), cfg)
}

fn latin_entry(
    latin: &LatinAnalysis,
    candidate: &String,
    outcome: StemOutcome,
    cfg: &StemConfig,
) -> (r: Option<(LatinKey, String)>)
    requires
        0 <= outcome.best.steps <= 16,
    ensures
        match r {
            Some(e) => spec_latin_entry(latin_view(*latin), candidate@, (outcome.stem@, outcome.best), *cfg)
                == Some((e.0, e.1@)),
            None => spec_latin_entry(latin_view(*latin), candidate@, (outcome.stem@, outcome.best), *cfg) is None,
        },
{
    let stem_chars = utf8_char_count(outcome.stem.as_str());
    let stem_syll = count_syllables(outcome.stem.as_str());
    let (lex_word_hit, lex_stem_hit) = match &cfg.lexicon {
        Some(lex) => (lex.contains(candidate.as_str()), lex.contains(outcome.stem.as_str())),
        None => (false, false),
    };
    if !latin_candidate_confident(
        latin,
        &outcome.best,
        stem_chars,
        stem_syll,
        lex_word_hit,
        lex_stem_hit,
    ) {
        return None;
    }
    let score = latin_candidate_score(
        latin,
        &outcome.best,
        stem_chars,
        stem_syll,
        lex_word_hit,
        lex_stem_hit,
    );
    let key: LatinKey = (
        score,
        if lex_stem_hit { 1 } else { 0 },
        if lex_word_hit { 1 } else { 0 },
        outcome.best.steps as i64,
        outcome.best.nominal_inf as i64 + outcome.best.verbal_inf as i64,
        stem_chars as i64,
    );
    Some((key, outcome.stem))
}

/// The best trusted reading among the first `i` readings: the first one
/// whose key no later one exceeds.
pub open spec fn spec_latin_best(latin: (Seq<Seq<char>>, bool, bool), cfg: StemConfig, i: int) -> Option<
    (LatinKey, Seq<char>),
>
    decreases i,
{
    if i <= 0 {
        None
    } else {
        let prev = spec_latin_best(latin, cfg, i - 1);
        match spec_latin_reading(latin, latin.0[i - 1], cfg) {
            None => prev,
            Some(e) => match prev {
                None => Some(e),
                Some(p) => if key_gt(e.0, p.0) {
                    Some(e)
                } else {
                    prev
                },
            },
        }
    }
}

/// The stem of a Latin word: that of its best trusted reading, if any.
pub open spec fn spec_stem_latin(latin: (Seq<Seq<char>>, bool, bool), cfg: StemConfig) -> Option<Seq<char>> {
    match spec_latin_best(latin, cfg, latin.0.len() as int) {
        Some(e) => Some(e.1),
        None => None,
    }
}

fn stem_latin(latin: &LatinAnalysis, cfg: &StemConfig) -> (r: Option<String>)
    ensures
        match r {
            Some(x) => spec_stem_latin(latin_view(*latin), *cfg) == Some(x@),
            None => spec_stem_latin(latin_view(*latin), *cfg) is None,
        },
{
    let ghost lv = latin_view(*latin);
    let mut best_choice: Option<(LatinKey, String)> = None;
    let mut i: usize = 0;
    while i < latin.candidates.len()
        invariant
            i <= latin.candidates@.len(),
            lv == latin_view(*latin),
            lv.0.len() == latin.candidates@.len(),
            match best_choice {
                Some(e) => spec_latin_best(lv, *cfg, i as int) == Some((e.0, e.1@)),
                None => spec_latin_best(lv, *cfg, i as int) is None,
            },
        decreases latin.candidates@.len() - i,
    {
        let candidate = &latin.candidates[i];
        assert(lv.0[i as int] == candidate@);
        let outcome = stem_word(candidate.as_str(), cfg);
        let entry = latin_entry(latin, candidate, outcome, cfg);
        match entry {
            Some(e) => {
                let should_replace = match &best_choice {
                    None => true,
                    Some(prev) => latin_key_gt(&e.0, &prev.0),
                };
                if should_replace {
                    best_choice = Some(e);
                }
            },
            None => {},
        }
        i = i + 1;
    }
    match best_choice {
        Some(e) => Some(e.1),
        None => None,
    }
}

/// The separators of compound tokens: hyphen and the apostrophes.
pub open spec fn spec_separator(ch: char) -> bool {
    ch == '-' || ch == '\'' || ch == '\u{2019}' || ch == '\u{02BC}'
}

fn is_separator(ch: char) -> (r: bool)
    ensures
        r == spec_separator(ch),
{
    ch == '-' || ch == '\'' || ch == '\u{2019}' || ch == '\u{02BC}'
}

/// One past the last Cyrillic letter of `s` (0 when there is none).
pub open spec fn spec_run_end(s: Seq<char>) -> int
    decreases s.len(),
{
    if s.len() == 0 {
        0
    } else if spec_cyrillic_letter(s.last()) {
        s.len() as int
    } else {
        spec_run_end(s.drop_last())
    }
}

/// The start of the run of Cyrillic letters of `s` that ends at `e`.
pub open spec fn spec_run_start(s: Seq<char>, e: int) -> int
    decreases e,
{
    if e <= 0 {
        0
    } else if spec_cyrillic_letter(s[e - 1]) {
        spec_run_start(s, e - 1)
    } else {
        e
    }
}

/// A token of Cyrillic letters joined by separators (and holding at least
/// one separator and one letter) has its last run of letters stemmed in
/// place, the rest kept verbatim; any other token gives `None`.
pub open spec fn spec_stem_separated(s: Seq<char>, cfg: StemConfig) -> Option<Seq<char>> {
    if exists|i: int| 0 <= i < s.len() && !spec_separator(s[i]) && !spec_cyrillic_letter(s[i]) {
        None
    } else if !(exists|i: int| 0 <= i < s.len() && spec_separator(s[i])) {
        None
    } else {
        let e = spec_run_end(s);
        if e == 0 {
            None
        } else {
            let st = spec_run_start(s, e);
            Some(s.take(st) + spec_stem_word(s.subrange(st, e), cfg).0 + s.skip(e))
        }
    }
}

/// Hyphenated and apostrophe Cyrillic compounds inflect their final element:
/// stems the last Cyrillic run and keeps the rest of the token.
fn stem_separated_cyrillic(lowered: &str, cfg: &StemConfig) -> (r: Option<String>)
    ensures
        match r {
            Some(x) => spec_stem_separated(lowered@, *cfg) == Some(x@),
            None => spec_stem_separated(lowered@, *cfg) is None,
        },
{
    let v = chars_of(lowered);
    let n = v.len();
    let mut has_sep = false;
    let mut i: usize = 0;
    while i < n
        invariant
            i <= n == v@.len(),
            v@ == lowered@,
            has_sep == exists|j: int| 0 <= j < i && spec_separator(v@[j]),
            forall|j: int| 0 <= j < i ==> spec_separator(v@[j]) || spec_cyrillic_letter(v@[j]),
        decreases n - i,
    {
        let ch = v[i];
        if is_separator(ch) {
            has_sep = true;
        } else if !is_cyrillic_letter(ch) {
            return None;
        }
        i = i + 1;
    }
    if !has_sep {
        return None;
    }
    let mut e: usize = n;
    assert(v@.take(n as int) =~= v@);
    while e > 0 && !is_cyrillic_letter(v[e - 1])
        invariant
            e <= n == v@.len(),
            spec_run_end(v@) == spec_run_end(v@.take(e as int)),
        decreases e,
    {
        assert(v@.take(e as int).drop_last() =~= v@.take(e - 1));
        e = e - 1;
    }
    proof {
        if e > 0 {
            assert(v@.take(e as int).last() == v@[e - 1]);
        }
        assert(v@.take(0) =~= Seq::<char>::empty());
    }
    if e == 0 {
        return None;
    }
    let mut st: usize = e;
    while st > 0 && is_cyrillic_letter(v[st - 1])
        invariant
            st <= e <= n == v@.len(),
            spec_run_start(v@, e as int) == spec_run_start(v@, st as int),
        decreases st,
    {
        st = st - 1;
    }
    let run = crate::utf8::string_from_range(v.as_slice(), st, e);
    let stemmed = stem_word(run.as_str(), cfg);
    let mut out = string_from_chars(v.as_slice(), st);
    append_str(&mut out, stemmed.stem.as_str());
    let rest = crate::utf8::string_from_range(v.as_slice(), e, n);
    append_str(&mut out, rest.as_str());
    assert(v@.subrange(e as int, n as int) =~= v@.skip(e as int));
    Some(out)
}

/// The stem of a lowercased token, by its script: Cyrillic words are
/// stemmed directly; Latin words through their best trusted Cyrillic
/// reading (unless only Cyrillic is accepted); separated Cyrillic compounds
/// by their last run; anything else is returned as it is.
pub open spec fn spec_stem_lowered(lowered: Seq<char>, cfg: StemConfig) -> Seq<char> {
    let class = spec_classify(lowered);
    let separated = match spec_stem_separated(lowered, cfg) {
        Some(x) => x,
        None => lowered,
    };
    if class == ScriptClass::Cyrillic {
        spec_stem_word(lowered, cfg).0
    } else if cfg.script_mode == ScriptMode::CyrillicOnly {
        separated
    } else if class == ScriptClass::Latin {
        match spec_transliterate(lowered) {
            None => lowered,
            Some(l) => match spec_stem_latin(l, cfg) {
                Some(x) => x,
                None => lowered,
            },
        }
    } else {
        separated
    }
}

/// Stems a token that is already lowercased (see [`spec_stem_lowered`]).
pub fn stem_lowered(lowered: &str, cfg: &StemConfig) -> (r: String)
    ensures
        r@ == spec_stem_lowered(lowered@, *cfg),
{
    let analyzed = analyze_lowered(lowered);
    if cfg.script_mode == ScriptMode::CyrillicOnly {
        return match analyzed.class {
            ScriptClass::Cyrillic => stem_word(analyzed.lowered.as_str(), cfg).stem,
            _ => match stem_separated_cyrillic(analyzed.lowered.as_str(), cfg) {
                Some(x) => x,
                None => analyzed.lowered,
            },
        };
    }
    match analyzed.class {
        ScriptClass::Cyrillic => stem_word(analyzed.lowered.as_str(), cfg).stem,
        ScriptClass::Latin => {
            let latin = match &analyzed.latin {
                Some(l) => l,
                None => {
                    return analyzed.lowered;
                },
            };
            match stem_latin(latin, cfg) {
                Some(x) => x,
                None => analyzed.lowered,
            }
        },
        _ => match stem_separated_cyrillic(analyzed.lowered.as_str(), cfg) {
            Some(x) => x,
            None => analyzed.lowered,
        },
    }
}

/// The stem of `word`: empty for the empty word; otherwise the stem of its
/// Kazakh lowercase (see [`spec_stem_lowered`]).
pub open spec fn spec_stem(word: Seq<char>, cfg: StemConfig) -> Seq<char> {
    if word.len() == 0 {
        Seq::empty()
    } else {
        spec_stem_lowered(spec_lower_kazakh(word), cfg)
    }
}

/// Stems one token under `cfg` (see [`spec_stem`]).
///
/// Stemming a stem may strip further (without a lexicon адам gives ада);
/// with a lexicon the stem is settled, see `laws::law_settled_stem_stable`.
pub fn stem(word: &str, cfg: &StemConfig) -> (r: String)
    ensures
        r@ == spec_stem(word@, *cfg),
{
    if word.is_empty() {
        return String::new();
    }
    let lowered = lower_kazakh(word);
    stem_lowered(lowered.as_str(), cfg)
}

} // verus!
