//! Properties of the stemmer that hold for all inputs.
use vstd::prelude::*;

use crate::explore::{
    search_penalty, search_root, search_run, search_init, search_step, spec_beats, spec_explore,
    Candidate, Search, SearchCtx,
};
use crate::script::{
    dedup, product, spec_classify, spec_cyrillic_letter, spec_latin_options, spec_lower_kazakh,
    spec_transliterate, translit_cands, ScriptClass, MAX_LATIN_CANDIDATES,
};
use crate::text::{syll_count, PrefixTables};
use crate::utf8::byte_len;
use crate::explore::{
    clamp_steps, enqueue, expand_rules, key_space, lexhit_update, rule_step, search_ctx,
    spec_candidate_hits_lexicon, spec_expand, spec_strip, ExploreResult, ExploreState,
};
use crate::rules::{LayerSpec, LAYER_DERIV};
use crate::rules::{spec_noun_layers, spec_verb_layers};
use crate::text::spec_tables;
use crate::config::spec_with_weight;
use crate::{
    PenaltyWeights, spec_latin_best, spec_search_best, spec_run_end, spec_run_start, spec_separator, spec_settle, spec_stem, spec_stem_canonical, spec_stem_separated,
    spec_stem_word, ScriptMode, StemConfig, MAX_STEM_BYTES,
};

verus! {

/// Candidate comparison is a strict order: no candidate beats itself, no
/// two beat each other, and beating is transitive.
pub proof fn law_beats_strict_order(
    a: Candidate,
    b: Candidate,
    c: Candidate,
    pa: int,
    pb: int,
    pc: int,
    prefix: PrefixTables,
)
    ensures
        !spec_beats(a, a, pa, pa, prefix),
        spec_beats(a, b, pa, pb, prefix) ==> !spec_beats(b, a, pb, pa, prefix),
        spec_beats(a, b, pa, pb, prefix) && spec_beats(b, c, pb, pc, prefix) ==> spec_beats(
            a,
            c,
            pa,
            pc,
            prefix,
        ),
{
}

/// What every state of the search keeps: the best penalty is that of the
/// best candidate, and the unstripped word does not beat the best.
pub open spec fn best_no_worse_than_root(ctx: SearchCtx, s: Search) -> bool {
    let root = search_root(ctx);
    &&& s.best_pen == search_penalty(ctx, s.best_scored)
    &&& !spec_beats(root, s.best_scored, search_penalty(ctx, root), s.best_pen, ctx.prefix)
}

proof fn lemma_step_keeps_best(ctx: SearchCtx, s: Search)
    requires
        best_no_worse_than_root(ctx, s),
    ensures
        best_no_worse_than_root(ctx, search_step(ctx, s)),
{
    if !s.aborted && s.queue.len() > 0 {
        let st = s.queue[0];
        let root = search_root(ctx);
        law_beats_strict_order(
            root,
            st.c,
            s.best_scored,
            search_penalty(ctx, root),
            search_penalty(ctx, st.c),
            s.best_pen,
            ctx.prefix,
        );
    }
}

proof fn lemma_run_keeps_best(ctx: SearchCtx, s: Search, n: nat)
    requires
        best_no_worse_than_root(ctx, s),
    ensures
        best_no_worse_than_root(ctx, search_run(ctx, s, n)),
    decreases n,
{
    if n > 0 {
        lemma_step_keeps_best(ctx, s);
        lemma_run_keeps_best(ctx, search_step(ctx, s), (n - 1) as nat);
    }
}

/// The search's best-scored candidate is never beaten by leaving the word
/// unstripped (and when the search gives up, it is the unstripped word).
pub proof fn law_explore_no_worse_than_unstripped(ctx: SearchCtx)
    ensures
        !spec_beats(
            search_root(ctx),
            spec_explore(ctx).best_scored,
            search_penalty(ctx, search_root(ctx)),
            search_penalty(ctx, spec_explore(ctx).best_scored),
            ctx.prefix,
        ),
{
    let root = search_root(ctx);
    law_beats_strict_order(root, root, root, search_penalty(ctx, root), 0, 0, ctx.prefix);
    lemma_run_keeps_best(ctx, search_init(ctx), crate::explore::key_space());
}

/// The stem of a word its own first pass leaves unchanged settles at once.
proof fn lemma_settle_fixed(s: Seq<char>, cfg: StemConfig)
    requires
        spec_stem_canonical(s, cfg).0 == s,
    ensures
        spec_settle(s, cfg) == s,
{
}

/// A non-empty Cyrillic word of `MAX_STEM_BYTES` bytes or more, once
/// lowercased, is its own stem.
pub proof fn law_overlong_word_kept(word: Seq<char>, cfg: StemConfig)
    requires
        word.len() > 0,
        spec_classify(spec_lower_kazakh(word)) == ScriptClass::Cyrillic,
        byte_len(spec_lower_kazakh(word)) >= MAX_STEM_BYTES,
    ensures
        spec_stem(word, cfg) == spec_lower_kazakh(word),
{
    reveal(spec_stem_word);
    lemma_settle_fixed(spec_lower_kazakh(word), cfg);
}

/// A non-empty Cyrillic word of fewer than two syllables, once lowercased,
/// is its own stem.
pub proof fn law_short_word_kept(word: Seq<char>, cfg: StemConfig)
    requires
        word.len() > 0,
        spec_classify(spec_lower_kazakh(word)) == ScriptClass::Cyrillic,
        syll_count(spec_lower_kazakh(word)) < 2,
    ensures
        spec_stem(word, cfg) == spec_lower_kazakh(word),
{
    reveal(spec_stem_word);
    lemma_settle_fixed(spec_lower_kazakh(word), cfg);
}

/// A token holding a character that is neither a Cyrillic letter nor a
/// separator is not a separated Cyrillic compound.
proof fn lemma_not_compound(s: Seq<char>, cfg: StemConfig, i: int)
    requires
        0 <= i < s.len(),
        !spec_separator(s[i]),
        !spec_cyrillic_letter(s[i]),
    ensures
        spec_stem_separated(s, cfg) is None,
{
}

/// A non-empty token that, once lowercased, is neither Cyrillic nor (where
/// Latin is accepted) Latin, and holds a character that is neither a
/// Cyrillic letter nor a separator, is returned lowercased: mixed-script
/// tokens, Latin words when only Cyrillic is accepted, and tokens with
/// digits or other punctuation all pass through.
pub proof fn law_foreign_token_kept(word: Seq<char>, cfg: StemConfig, i: int)
    requires
        word.len() > 0,
        spec_classify(spec_lower_kazakh(word)) != ScriptClass::Cyrillic,
        cfg.script_mode == ScriptMode::CyrillicOnly || spec_classify(spec_lower_kazakh(word))
            != ScriptClass::Latin,
        0 <= i < spec_lower_kazakh(word).len(),
        !spec_separator(spec_lower_kazakh(word)[i]),
        !spec_cyrillic_letter(spec_lower_kazakh(word)[i]),
    ensures
        spec_stem(word, cfg) == spec_lower_kazakh(word),
{
    lemma_not_compound(spec_lower_kazakh(word), cfg, i);
}

/// Mixed-script tokens pass through lowercased, in either script mode.
pub proof fn law_mixed_script_kept(word: Seq<char>, cfg: StemConfig)
    requires
        word.len() > 0,
        spec_classify(spec_lower_kazakh(word)) == ScriptClass::Mixed,
    ensures
        spec_stem(word, cfg) == spec_lower_kazakh(word),
{
    let s = spec_lower_kazakh(word);
    let i = choose|i: int| 0 <= i < s.len() && !spec_cyrillic_letter(s[i]);
    assert(crate::script::supported_letter(s[i]));
    lemma_not_compound(s, cfg, i);
}

/// When only Cyrillic is accepted, Latin words pass through lowercased.
pub proof fn law_cyrillic_only_keeps_latin(word: Seq<char>, cfg: StemConfig)
    requires
        word.len() > 0,
        cfg.script_mode == ScriptMode::CyrillicOnly,
        spec_classify(spec_lower_kazakh(word)) == ScriptClass::Latin,
    ensures
        spec_stem(word, cfg) == spec_lower_kazakh(word),
{
    let s = spec_lower_kazakh(word);
    let i = choose|i: int| 0 <= i < s.len() && !spec_cyrillic_letter(s[i]);
    assert(crate::script::supported_letter(s[i]));
    lemma_not_compound(s, cfg, i);
}

proof fn lemma_run_end_facts(s: Seq<char>)
    ensures
        0 <= spec_run_end(s) <= s.len(),
        forall|j: int| spec_run_end(s) <= j < s.len() ==> !spec_cyrillic_letter(#[trigger] s[j]),
        (exists|j: int| 0 <= j < s.len() && spec_cyrillic_letter(s[j])) ==> spec_run_end(s) > 0,
        spec_run_end(s) > 0 ==> spec_cyrillic_letter(s[spec_run_end(s) - 1]),
    decreases s.len(),
{
    if s.len() > 0 && !spec_cyrillic_letter(s.last()) {
        let d = s.drop_last();
        lemma_run_end_facts(d);
        if spec_run_end(d) > 0 {
            assert(d[spec_run_end(d) - 1] == s[spec_run_end(d) - 1]);
        }
        assert forall|j: int| spec_run_end(s) <= j < s.len() implies !spec_cyrillic_letter(
            #[trigger] s[j],
        ) by {
            if j < d.len() {
                assert(s[j] == d[j]);
            }
        }
        if exists|j: int| 0 <= j < s.len() && spec_cyrillic_letter(s[j]) {
            let j = choose|j: int| 0 <= j < s.len() && spec_cyrillic_letter(s[j]);
            assert(d[j] == s[j]);
        }
    }
}

proof fn lemma_run_start_facts(s: Seq<char>, e: int)
    requires
        0 <= e <= s.len(),
    ensures
        0 <= spec_run_start(s, e) <= e,
        spec_run_start(s, e) > 0 ==> !spec_cyrillic_letter(s[spec_run_start(s, e) - 1]),
        forall|j: int| spec_run_start(s, e) <= j < e ==> spec_cyrillic_letter(#[trigger] s[j]),
    decreases e,
{
    if e > 0 && spec_cyrillic_letter(s[e - 1]) {
        lemma_run_start_facts(s, e - 1);
    }
}

/// A separated Cyrillic compound (only Cyrillic letters and separators,
/// with at least one of each) has its last run of letters stemmed in place:
/// the result is the text before the run, which ends in a separator, the
/// stem of the run, and the text after it, which is all separators.
pub proof fn law_compound_stems_last_run(word: Seq<char>, cfg: StemConfig)
    requires
        word.len() > 0,
        forall|i: int|
            0 <= i < spec_lower_kazakh(word).len() ==> spec_separator(
                #[trigger] spec_lower_kazakh(word)[i],
            ) || spec_cyrillic_letter(spec_lower_kazakh(word)[i]),
        exists|i: int|
            0 <= i < spec_lower_kazakh(word).len() && spec_separator(
                #[trigger] spec_lower_kazakh(word)[i],
            ),
        exists|i: int|
            0 <= i < spec_lower_kazakh(word).len() && spec_cyrillic_letter(
                #[trigger] spec_lower_kazakh(word)[i],
            ),
    ensures
        ({
            let s = spec_lower_kazakh(word);
            let e = spec_run_end(s);
            let st = spec_run_start(s, e);
            &&& 0 <= st < e <= s.len()
            &&& st > 0 ==> spec_separator(s[st - 1])
            &&& forall|j: int| e <= j < s.len() ==> spec_separator(#[trigger] s[j])
            &&& forall|j: int| st <= j < e ==> spec_cyrillic_letter(#[trigger] s[j])
            &&& spec_stem(word, cfg) == s.take(st) + spec_stem_word(s.subrange(st, e), cfg).0
                + s.skip(e)
        }),
{
    let s = spec_lower_kazakh(word);
    lemma_run_end_facts(s);
    let e = spec_run_end(s);
    lemma_run_start_facts(s, e);
    let st = spec_run_start(s, e);
    let k = choose|i: int| 0 <= i < s.len() && spec_separator(s[i]);
    assert(!crate::script::supported_letter(s[k]));
    assert(spec_classify(s) == ScriptClass::Unsupported);
    assert(!(exists|i: int| 0 <= i < s.len() && !spec_separator(s[i]) && !spec_cyrillic_letter(s[i])));
    assert(e > 0);
    assert(spec_cyrillic_letter(s[e - 1]));
    assert(st < e);
    if st > 0 {
        assert(spec_separator(s[st - 1]) || spec_cyrillic_letter(s[st - 1]));
    }
    assert forall|j: int| e <= j < s.len() implies spec_separator(#[trigger] s[j]) by {
        assert(spec_separator(s[j]) || spec_cyrillic_letter(s[j]));
    }
    assert(spec_stem_separated(s, cfg) == Some(s.take(st) + spec_stem_word(s.subrange(st, e), cfg).0 + s.skip(e)));
}

proof fn lemma_translit_cands_len(s: Seq<char>)
    ensures
        translit_cands(s) matches Some(c) ==> 1 <= c.len() <= MAX_LATIN_CANDIDATES,
    decreases s.len(),
{
    if s.len() > 0 {
        lemma_translit_cands_len(s.drop_last());
        match translit_cands(s.drop_last()) {
            Some(c) => match spec_latin_options(s.last()) {
                Some(o) => {
                    crate::script::lemma_product_len(c, o);
                    if o.len() > 0 {
                        assert(c.len() * o.len() >= 1) by (nonlinear_arith)
                            requires
                                c.len() >= 1,
                                o.len() >= 1,
                        ;
                    }
                },
                None => {},
            },
            None => {},
        }
    }
}

proof fn lemma_contains_push(d: Seq<Seq<char>>, y: Seq<char>, x: Seq<char>)
    ensures
        d.push(y).contains(x) <==> (d.contains(x) || x == y),
{
    let p = d.push(y);
    if d.contains(x) {
        let j = choose|j: int| 0 <= j < d.len() && d[j] == x;
        assert(p[j] == x);
    }
    if x == y {
        assert(p[d.len() as int] == x);
    }
    if p.contains(x) {
        let j = choose|j: int| 0 <= j < p.len() && p[j] == x;
        if j < d.len() {
            assert(d[j] == x);
        }
    }
}

proof fn lemma_dedup(s: Seq<Seq<char>>)
    ensures
        dedup(s).len() <= s.len(),
        s.len() > 0 ==> dedup(s).len() > 0,
        dedup(s).no_duplicates(),
        forall|x: Seq<char>| dedup(s).contains(x) <==> s.contains(x),
    decreases s.len(),
{
    if s.len() > 0 {
        let d = s.drop_last();
        let y = s.last();
        lemma_dedup(d);
        assert(s =~= d.push(y));
        assert forall|x: Seq<char>| dedup(s).contains(x) <==> s.contains(x) by {
            lemma_contains_push(d, y, x);
            lemma_contains_push(dedup(d), y, x);
        }
        if !dedup(d).contains(y) {
            let dd = dedup(d).push(y);
            assert forall|i: int, j: int| 0 <= i < dd.len() && 0 <= j < dd.len() && i != j implies dd[i]
                != dd[j] by {
                if i < dedup(d).len() && j < dedup(d).len() {
                } else if i < dedup(d).len() {
                    assert(dedup(d).contains(dd[i]));
                } else {
                    assert(dedup(d).contains(dd[j]));
                }
            }
        }
    }
}

/// Transliterating a Latin word gives between one and
/// `MAX_LATIN_CANDIDATES` readings, with no reading repeated.
pub proof fn law_transliteration_bounded(s: Seq<char>)
    ensures
        spec_transliterate(s) matches Some(l) ==> 1 <= l.0.len() <= MAX_LATIN_CANDIDATES
            && l.0.no_duplicates(),
{
    lemma_translit_cands_len(s);
    match translit_cands(s) {
        Some(c) => {
            lemma_dedup(c);
        },
        None => {},
    }
}

/// Two configurations that agree but for `max_steps`, whose values clamp
/// alike.
pub open spec fn same_but_steps(c1: StemConfig, c2: StemConfig) -> bool {
    &&& c1.derivation == c2.derivation
    &&& c1.lexicon == c2.lexicon
    &&& c1.weights == c2.weights
    &&& c1.script_mode == c2.script_mode
    &&& clamp_steps(c1.max_steps) == clamp_steps(c2.max_steps)
}

proof fn lemma_canonical_same(txt: Seq<char>, c1: StemConfig, c2: StemConfig)
    requires
        same_but_steps(c1, c2),
    ensures
        spec_stem_canonical(txt, c1) == spec_stem_canonical(txt, c2),
{
    let len = byte_len(txt) as int;
    let prefix = spec_tables(txt);
    assert(search_ctx(txt, len, spec_noun_layers(), c1, true, prefix) == search_ctx(
        txt,
        len,
        spec_noun_layers(),
        c2,
        true,
        prefix,
    ));
    assert(search_ctx(txt, len, spec_verb_layers(), c1, false, prefix) == search_ctx(
        txt,
        len,
        spec_verb_layers(),
        c2,
        false,
        prefix,
    ));
    assert(spec_search_best(txt, c1) == spec_search_best(txt, c2));
}

proof fn lemma_settle_same(s: Seq<char>, c1: StemConfig, c2: StemConfig)
    requires
        same_but_steps(c1, c2),
    ensures
        spec_settle(s, c1) == spec_settle(s, c2),
    decreases s.len(),
{
    lemma_canonical_same(s, c1, c2);
    let next = spec_stem_canonical(s, c1).0;
    if next.len() < s.len() {
        lemma_settle_same(next, c1, c2);
    }
}

proof fn lemma_word_same(txt: Seq<char>, c1: StemConfig, c2: StemConfig)
    requires
        same_but_steps(c1, c2),
    ensures
        spec_stem_word(txt, c1) == spec_stem_word(txt, c2),
{
    reveal(spec_stem_word);
    lemma_canonical_same(txt, c1, c2);
    lemma_settle_same(spec_stem_canonical(txt, c1).0, c1, c2);
}

proof fn lemma_latin_best_same(
    latin: (Seq<Seq<char>>, bool, bool),
    c1: StemConfig,
    c2: StemConfig,
    i: int,
)
    requires
        same_but_steps(c1, c2),
    ensures
        spec_latin_best(latin, c1, i) == spec_latin_best(latin, c2, i),
    decreases i,
{
    if i > 0 {
        lemma_latin_best_same(latin, c1, c2, i - 1);
        lemma_word_same(latin.0[i - 1], c1, c2);
    }
}

/// Only the clamp of `max_steps` to `1..=16` matters: configurations that
/// differ only in `max_steps`, with values that clamp alike, stem every word
/// alike.
pub proof fn law_max_steps_clamped(word: Seq<char>, c1: StemConfig, c2: StemConfig)
    requires
        same_but_steps(c1, c2),
    ensures
        spec_stem(word, c1) == spec_stem(word, c2),
{
    let s = spec_lower_kazakh(word);
    lemma_word_same(s, c1, c2);
    match spec_transliterate(s) {
        Some(l) => {
            lemma_latin_best_same(l, c1, c2, l.0.len() as int);
        },
        None => {},
    }
    let e = spec_run_end(s);
    lemma_word_same(s.subrange(spec_run_start(s, e), e), c1, c2);
}

/// The layers suit the track: noun layers inflect nominally (kind 1) or
/// derive (only in the derivation layer), verb layers inflect verbally.
pub open spec fn layers_fit(ctx: SearchCtx) -> bool {
    forall|i: int|
        0 <= i < ctx.layers.len() ==> #[trigger] layer_fits(ctx.noun_track, ctx.layers[i])
}

pub open spec fn layer_fits(noun_track: bool, layer: LayerSpec) -> bool {
    if noun_track {
        layer.kind != 2 && (layer.kind != 1 ==> layer.layer_id == LAYER_DERIV)
    } else {
        layer.kind == 2
    }
}

/// The search's inputs for which the candidate laws are stated.
pub open spec fn ctx_fits(ctx: SearchCtx) -> bool {
    &&& 0 < ctx.len < crate::text::TABLE_LEN
    &&& 1 <= ctx.max_steps <= 16
    &&& ctx.layers.len() < 16
    &&& layers_fit(ctx)
}

/// What a candidate of the search satisfies: a non-empty stem within the
/// word, the whole word when nothing was stripped, at most `max_steps`
/// strips each counted once by kind, inflections of the track's kind only,
/// and no derivation when derivation is off.
pub open spec fn cand_consistent(ctx: SearchCtx, c: Candidate) -> bool {
    &&& 0 < c.len <= ctx.len
    &&& 0 <= c.steps <= ctx.max_steps
    &&& c.steps == c.nominal_inf + c.verbal_inf + c.deriv
    &&& 0 <= c.nominal_inf && 0 <= c.verbal_inf && 0 <= c.deriv
    &&& 0 <= c.weak <= c.steps
    &&& 0 <= c.single_char <= c.steps
    &&& c.steps == 0 ==> c.len == ctx.len
    &&& ctx.noun_track ==> c.verbal_inf == 0
    &&& !ctx.noun_track ==> c.nominal_inf + c.deriv == 0
    &&& !ctx.derivation ==> c.deriv == 0
}

pub open spec fn state_consistent(ctx: SearchCtx, st: ExploreState) -> bool {
    &&& cand_consistent(ctx, st.c)
    &&& st.len == st.c.len
    &&& 0 <= st.state_idx <= 16
}

pub open spec fn queue_consistent(ctx: SearchCtx, q: Seq<ExploreState>) -> bool {
    forall|i: int| 0 <= i < q.len() ==> #[trigger] state_consistent(ctx, q[i])
}

/// What every state of the search keeps about its candidates.
pub open spec fn search_consistent(ctx: SearchCtx, s: Search) -> bool {
    &&& queue_consistent(ctx, s.queue)
    &&& cand_consistent(ctx, s.best_scored)
    &&& s.best_lexhit matches Some(c) ==> {
        &&& cand_consistent(ctx, c)
        &&& c.steps > 0
        &&& ctx.lex matches Some(lex)
        &&& spec_candidate_hits_lexicon(c, ctx.word, lex)
    }
}

proof fn lemma_enqueue_consistent(ctx: SearchCtx, q: Seq<ExploreState>, v: Set<u64>, key: u64, st: ExploreState)
    requires
        queue_consistent(ctx, q),
        state_consistent(ctx, st),
    ensures
        queue_consistent(ctx, enqueue(q, v, key, st).0),
{
    if !v.contains(key) {
        let q2 = q.push(st);
        assert forall|i: int| 0 <= i < q2.len() implies #[trigger] state_consistent(ctx, q2[i]) by {
            if i < q.len() {
                assert(q2[i] == q[i]);
            }
        }
    }
}

proof fn lemma_rule_step_consistent(
    ctx: SearchCtx,
    st: ExploreState,
    layer: LayerSpec,
    rule: crate::rules::SuffixRule,
    q: Seq<ExploreState>,
    v: Set<u64>,
)
    requires
        ctx_fits(ctx),
        state_consistent(ctx, st),
        layer_fits(ctx.noun_track, layer),
        ctx.derivation || layer.layer_id != LAYER_DERIV,
        st.c.steps < ctx.max_steps,
        st.state_idx < ctx.layers.len(),
        queue_consistent(ctx, q),
    ensures
        queue_consistent(ctx, rule_step(ctx, st, layer, rule, q, v).0),
{
    let sfx = rule.suffix@;
    let sb = byte_len(sfx) as int;
    let stem = ctx.word.take(st.nchars as int);
    if sb == 0 || sb >= st.len || !crate::text::ends_with(stem, sfx) {
    } else {
        let base_len = st.len - sb;
        let base_n = st.nchars - sfx.len();
        let base = ctx.word.take(base_n);
        if ctx.prefix.chars@[base_len] < 2 || ctx.prefix.syll@[base_len] < 1
            || !crate::text::spec_harmony_ok(base, rule.harmony) || !crate::explore::spec_layer_guard(
            layer.layer_id,
            sfx,
            base,
            st.c.steps,
        ) {
        } else {
            let new_idx = crate::explore::spec_next_state_idx(
                ctx.noun_track,
                st.state_idx,
                layer.layer_id,
                sfx,
            );
            let new_c = spec_strip(
                st.c,
                base_len,
                rule,
                layer,
                crate::explore::spec_penalty_flags(base, base_len),
            );
            let ns = ExploreState {
                len: base_len as i32,
                state_idx: new_idx as i32,
                c: new_c,
                nchars: base_n as usize,
            };
            assert(state_consistent(ctx, ns));
            lemma_enqueue_consistent(
                ctx,
                q,
                v,
                crate::explore::spec_visit_key(base_len as i32, new_idx as i32, new_c.steps),
                ns,
            );
        }
    }
}

proof fn lemma_expand_rules_consistent(
    ctx: SearchCtx,
    st: ExploreState,
    layer: LayerSpec,
    i: int,
    q: Seq<ExploreState>,
    v: Set<u64>,
)
    requires
        ctx_fits(ctx),
        state_consistent(ctx, st),
        layer_fits(ctx.noun_track, layer),
        ctx.derivation || layer.layer_id != LAYER_DERIV,
        st.c.steps < ctx.max_steps,
        st.state_idx < ctx.layers.len(),
        queue_consistent(ctx, q),
    ensures
        queue_consistent(ctx, expand_rules(ctx, st, layer, i, q, v).0),
    decreases i,
{
    if i > 0 {
        lemma_expand_rules_consistent(ctx, st, layer, i - 1, q, v);
        let (q2, v2) = expand_rules(ctx, st, layer, i - 1, q, v);
        lemma_rule_step_consistent(ctx, st, layer, layer.rules[i - 1], q2, v2);
    }
}

proof fn lemma_expand_consistent(ctx: SearchCtx, st: ExploreState, q: Seq<ExploreState>, v: Set<u64>)
    requires
        ctx_fits(ctx),
        state_consistent(ctx, st),
        queue_consistent(ctx, q),
    ensures
        queue_consistent(ctx, spec_expand(ctx, st, q, v).0),
{
    if st.state_idx >= ctx.layers.len() || st.c.steps >= ctx.max_steps {
    } else {
        let skip = ExploreState { state_idx: (st.state_idx + 1) as i32, ..st };
        assert(state_consistent(ctx, skip));
        lemma_enqueue_consistent(
            ctx,
            q,
            v,
            crate::explore::spec_visit_key(st.len, (st.state_idx + 1) as i32, st.c.steps),
            skip,
        );
        let (q1, v1) = enqueue(
            q,
            v,
            crate::explore::spec_visit_key(st.len, (st.state_idx + 1) as i32, st.c.steps),
            skip,
        );
        let layer = ctx.layers[st.state_idx as int];
        assert(layer_fits(ctx.noun_track, layer));
        if !ctx.derivation && layer.layer_id == LAYER_DERIV {
        } else {
            lemma_expand_rules_consistent(ctx, st, layer, layer.rules.len() as int, q1, v1);
        }
    }
}

proof fn lemma_step_consistent(ctx: SearchCtx, s: Search)
    requires
        ctx_fits(ctx),
        search_consistent(ctx, s),
    ensures
        search_consistent(ctx, search_step(ctx, s)),
{
    if !s.aborted && s.queue.len() > 0 {
        let st = s.queue[0];
        let q = s.queue.drop_first();
        assert(state_consistent(ctx, st));
        if q.len() <= crate::explore::QUEUE_MAX {
            assert(queue_consistent(ctx, q)) by {
                assert forall|i: int| 0 <= i < q.len() implies #[trigger] state_consistent(ctx, q[i]) by {
                    assert(q[i] == s.queue[i + 1]);
                }
            }
            lemma_expand_consistent(ctx, st, q, s.visit);
        } else {
            assert(queue_consistent(ctx, Seq::<ExploreState>::empty()));
        }
    }
}

proof fn lemma_run_consistent(ctx: SearchCtx, s: Search, n: nat)
    requires
        ctx_fits(ctx),
        search_consistent(ctx, s),
    ensures
        search_consistent(ctx, search_run(ctx, s, n)),
    decreases n,
{
    if n > 0 {
        lemma_step_consistent(ctx, s);
        lemma_run_consistent(ctx, search_step(ctx, s), (n - 1) as nat);
    }
}

/// The candidates the search answers are consistent (see
/// [`cand_consistent`]); a lexicon-confirmed candidate strips something
/// and is confirmed by the lexicon, so there is none without a lexicon;
/// and when the search gives up, it answers the unstripped word and no
/// lexicon candidate.
pub proof fn law_explore_candidates(ctx: SearchCtx)
    requires
        ctx_fits(ctx),
    ensures
        cand_consistent(ctx, spec_explore(ctx).best_scored),
        spec_explore(ctx).best_lexhit matches Some(c) ==> cand_consistent(ctx, c) && c.steps > 0
            && (ctx.lex matches Some(lex) && spec_candidate_hits_lexicon(c, ctx.word, lex)),
        ctx.lex is None ==> spec_explore(ctx).best_lexhit is None,
        search_run(ctx, search_init(ctx), key_space()).aborted ==> spec_explore(ctx)
            == (ExploreResult { best_scored: search_root(ctx), best_lexhit: None }),
{
    let init = search_init(ctx);
    assert(cand_consistent(ctx, search_root(ctx)));
    assert(queue_consistent(ctx, init.queue)) by {
        assert forall|i: int| 0 <= i < init.queue.len() implies #[trigger] state_consistent(
            ctx,
            init.queue[i],
        ) by {
            assert(i == 0);
        }
    }
    lemma_run_consistent(ctx, init, key_space());
}

proof fn lemma_track_layers_fit(ctx: SearchCtx)
    requires
        ctx.layers == (if ctx.noun_track {
            spec_noun_layers()
        } else {
            spec_verb_layers()
        }),
    ensures
        layers_fit(ctx),
        ctx.layers.len() < 16,
{
    reveal(spec_noun_layers);
    reveal(spec_verb_layers);
    assert forall|i: int| 0 <= i < ctx.layers.len() implies #[trigger] layer_fits(
        ctx.noun_track,
        ctx.layers[i],
    ) by {}
}

/// The search over the noun layers (for the noun track) or the verb layers
/// (for the verb track) of a word's first `len` bytes answers consistent
/// candidates: each strip counted once as nominal, verbal or derivational,
/// at most `max_steps` (clamped to `1..=16`) of them, only nominal and
/// derivational strips on the noun track and only verbal ones on the verb
/// track, no derivation when it is off, a non-empty stem that is the whole
/// prefix when nothing was stripped, and lexicon candidates only with a
/// lexicon that confirms them. When the search gives up it answers the
/// unstripped prefix.
pub proof fn law_track_search_candidates(
    word: Seq<char>,
    len: int,
    cfg: StemConfig,
    noun_track: bool,
    prefix: PrefixTables,
)
    requires
        0 < len < crate::text::TABLE_LEN,
    ensures
        ({
            let ctx = search_ctx(
                word,
                len,
                if noun_track {
                    spec_noun_layers()
                } else {
                    spec_verb_layers()
                },
                cfg,
                noun_track,
                prefix,
            );
            let r = spec_explore(ctx);
            &&& cand_consistent(ctx, r.best_scored)
            &&& r.best_scored.steps <= clamp_steps(cfg.max_steps)
            &&& (r.best_lexhit matches Some(c) ==> cand_consistent(ctx, c) && c.steps > 0
                && (cfg.lexicon matches Some(lex) && spec_candidate_hits_lexicon(c, word, lex@)))
            &&& (cfg.lexicon is None ==> r.best_lexhit is None)
            &&& (search_run(ctx, search_init(ctx), key_space()).aborted ==> r == (ExploreResult {
                best_scored: search_root(ctx),
                best_lexhit: None,
            }))
        }),
{
    let ctx = search_ctx(
        word,
        len,
        if noun_track {
            spec_noun_layers()
        } else {
            spec_verb_layers()
        },
        cfg,
        noun_track,
        prefix,
    );
    lemma_track_layers_fit(ctx);
    law_explore_candidates(ctx);
}

/// With a lexicon, a settled stem is stable: stemming it once more never
/// gives a shorter word that the lexicon knows. (Stemming is not idempotent
/// in general: without a lexicon адамдар gives адам, and адам gives ада.)
pub proof fn law_settled_stem_stable(s: Seq<char>, cfg: StemConfig)
    requires
        cfg.lexicon is Some,
    ensures
        ({
            let t = spec_settle(s, cfg);
            let next = spec_stem_canonical(t, cfg).0;
            !(next.len() < t.len() && cfg.lexicon.unwrap()@.contains(next))
        }),
    decreases s.len(),
{
    let next = spec_stem_canonical(s, cfg).0;
    if next.len() < s.len() && cfg.lexicon.unwrap()@.contains(next) {
        law_settled_stem_stable(next, cfg);
    }
}

/// The candidates the search scores in `n` steps from `s`, in order: the
/// candidate of each state it takes from the queue.
pub open spec fn scored_in(ctx: SearchCtx, s: Search, n: nat) -> Seq<Candidate>
    decreases n,
{
    if n == 0 {
        Seq::empty()
    } else {
        let head = if !s.aborted && s.queue.len() > 0 && s.queue.drop_first().len()
            <= crate::explore::QUEUE_MAX {
            seq![s.queue[0].c]
        } else {
            Seq::empty()
        };
        head + scored_in(ctx, search_step(ctx, s), (n - 1) as nat)
    }
}

pub open spec fn best_pen_ok(ctx: SearchCtx, s: Search) -> bool {
    s.best_pen == search_penalty(ctx, s.best_scored)
}

proof fn lemma_step_unbeaten(ctx: SearchCtx, s: Search, c: Candidate, pc: int)
    requires
        best_pen_ok(ctx, s),
        !spec_beats(c, s.best_scored, pc, s.best_pen, ctx.prefix),
    ensures
        best_pen_ok(ctx, search_step(ctx, s)),
        !spec_beats(
            c,
            search_step(ctx, s).best_scored,
            pc,
            search_step(ctx, s).best_pen,
            ctx.prefix,
        ),
{
    if !s.aborted && s.queue.len() > 0 {
        let st = s.queue[0];
        law_beats_strict_order(
            c,
            st.c,
            s.best_scored,
            pc,
            search_penalty(ctx, st.c),
            s.best_pen,
            ctx.prefix,
        );
    }
}

proof fn lemma_run_unbeaten(ctx: SearchCtx, s: Search, n: nat, c: Candidate, pc: int)
    requires
        best_pen_ok(ctx, s),
        !spec_beats(c, s.best_scored, pc, s.best_pen, ctx.prefix),
    ensures
        best_pen_ok(ctx, search_run(ctx, s, n)),
        !spec_beats(
            c,
            search_run(ctx, s, n).best_scored,
            pc,
            search_run(ctx, s, n).best_pen,
            ctx.prefix,
        ),
    decreases n,
{
    if n > 0 {
        lemma_step_unbeaten(ctx, s, c, pc);
        lemma_run_unbeaten(ctx, search_step(ctx, s), (n - 1) as nat, c, pc);
    }
}

proof fn lemma_scored_unbeaten(ctx: SearchCtx, s: Search, n: nat)
    requires
        best_pen_ok(ctx, s),
    ensures
        best_pen_ok(ctx, search_run(ctx, s, n)),
        forall|i: int|
            0 <= i < scored_in(ctx, s, n).len() ==> !spec_beats(
                #[trigger] scored_in(ctx, s, n)[i],
                search_run(ctx, s, n).best_scored,
                search_penalty(ctx, scored_in(ctx, s, n)[i]),
                search_run(ctx, s, n).best_pen,
                ctx.prefix,
            ),
        search_run(ctx, s, n).best_scored == s.best_scored || scored_in(ctx, s, n).contains(
            search_run(ctx, s, n).best_scored,
        ),
    decreases n,
{
    if n > 0 {
        let s1 = search_step(ctx, s);
        let r = search_run(ctx, s, n);
        assert(r == search_run(ctx, s1, (n - 1) as nat));
        law_beats_strict_order(s.best_scored, s.best_scored, s.best_scored, s.best_pen, 0, 0, ctx.prefix);
        lemma_step_unbeaten(ctx, s, s.best_scored, s.best_pen);
        lemma_scored_unbeaten(ctx, s1, (n - 1) as nat);
        let tail = scored_in(ctx, s1, (n - 1) as nat);
        let sc = scored_in(ctx, s, n);
        if !s.aborted && s.queue.len() > 0 && s.queue.drop_first().len() <= crate::explore::QUEUE_MAX {
            let st = s.queue[0];
            let pst = search_penalty(ctx, st.c);
            law_beats_strict_order(st.c, st.c, st.c, pst, 0, 0, ctx.prefix);
            assert(!spec_beats(st.c, s1.best_scored, pst, s1.best_pen, ctx.prefix));
            lemma_run_unbeaten(ctx, s1, (n - 1) as nat, st.c, pst);
            assert(sc == seq![st.c] + tail);
            assert forall|i: int| 0 <= i < sc.len() implies !spec_beats(
                #[trigger] sc[i],
                r.best_scored,
                search_penalty(ctx, sc[i]),
                r.best_pen,
                ctx.prefix,
            ) by {
                if i > 0 {
                    assert(sc[i] == tail[i - 1]);
                }
            }
            if r.best_scored == s1.best_scored {
                if s1.best_scored != s.best_scored {
                    assert(s1.best_scored == st.c);
                    assert(sc[0] == st.c);
                }
            } else {
                let j = choose|j: int| 0 <= j < tail.len() && tail[j] == r.best_scored;
                assert(sc[j + 1] == r.best_scored);
            }
        } else {
            assert(sc =~= tail);
            assert(s1.best_scored == s.best_scored);
        }
    }
}

/// The search's best candidate is one it scored (or the unstripped word it
/// starts from), and no candidate it scored beats it; when it gives up it
/// answers the unstripped word. The search scores the first state it meets
/// for each stem length, layer and strip count, so candidates reached later
/// by another path with the same length, layer and count are not scored.
pub proof fn law_explore_best_is_least(ctx: SearchCtx)
    ensures
        ({
            let run = search_run(ctx, search_init(ctx), key_space());
            let sc = scored_in(ctx, search_init(ctx), key_space());
            let best = spec_explore(ctx).best_scored;
            &&& run.aborted ==> best == search_root(ctx)
            &&& !run.aborted ==> (best == search_root(ctx) || sc.contains(best))
            &&& !run.aborted ==> forall|i: int|
                0 <= i < sc.len() ==> !spec_beats(
                    #[trigger] sc[i],
                    best,
                    search_penalty(ctx, sc[i]),
                    search_penalty(ctx, best),
                    ctx.prefix,
                )
        }),
{
    lemma_scored_unbeaten(ctx, search_init(ctx), key_space());
}

/// A possessive that begins with a vowel (-ы/-і, -сы/-сі, -ым/-ім, -ың/-ің,
/// -ымыз/-іміз, -ыңыз/-іңіз), stripped as a nominal inflection, has the
/// sound changes it causes undone on the stem: a final б, ғ becomes п, қ
/// (кітабым gives кітап), and an elided vowel is restored.
pub proof fn law_vowel_possessive_undoes_sound_changes(
    lexeme: Seq<char>,
    best: Candidate,
    sfx: &'static str,
)
    requires
        best.nominal_inf > 0,
        best.last_suffix == Some(sfx),
        sfx@ == seq!['ы'] || sfx@ == seq!['і'] || sfx@ == seq!['с', 'ы'] || sfx@ == seq!['с', 'і']
            || sfx@ == seq!['ы', 'м'] || sfx@ == seq!['і', 'м'] || sfx@ == seq!['ы', 'ң'] || sfx@
            == seq!['і', 'ң'] || sfx@ == seq!['ы', 'м', 'ы', 'з'] || sfx@ == seq!['і', 'м', 'і', 'з']
            || sfx@ == seq!['ы', 'ң', 'ы', 'з'] || sfx@ == seq!['і', 'ң', 'і', 'з'],
    ensures
        crate::spec_undo_sound_changes(lexeme, best) == crate::explore::spec_apply_elision_restore(
            crate::explore::spec_apply_mutation(lexeme),
        ),
        byte_len(lexeme) >= 2 && lexeme.last() == 'б' ==> crate::spec_undo_sound_changes(
            lexeme,
            best,
        ) == lexeme.drop_last().push('п'),
        byte_len(lexeme) >= 2 && lexeme.last() == 'ғ' ==> crate::spec_undo_sound_changes(
            lexeme,
            best,
        ) == lexeme.drop_last().push('қ'),
{
    if byte_len(lexeme) >= 2 && lexeme.len() == 0 {
        assert(lexeme =~= Seq::<char>::empty());
        assert(byte_len(lexeme) == 0);
    }
}

/// The Cyrillic reading of each letter of the Kazakh Latin alphabet.
pub proof fn law_latin_alphabet()
    ensures
        spec_latin_options('a') == Some(seq!['а']),
        spec_latin_options('ä') == Some(seq!['ә']),
        spec_latin_options('b') == Some(seq!['б']),
        spec_latin_options('d') == Some(seq!['д']),
        spec_latin_options('e') == Some(seq!['е']),
        spec_latin_options('f') == Some(seq!['ф']),
        spec_latin_options('g') == Some(seq!['г']),
        spec_latin_options('ğ') == Some(seq!['ғ']),
        spec_latin_options('ı') == Some(seq!['і']),
        spec_latin_options('j') == Some(seq!['ж']),
        spec_latin_options('k') == Some(seq!['к']),
        spec_latin_options('l') == Some(seq!['л']),
        spec_latin_options('m') == Some(seq!['м']),
        spec_latin_options('n') == Some(seq!['н']),
        spec_latin_options('ñ') == Some(seq!['ң']),
        spec_latin_options('o') == Some(seq!['о']),
        spec_latin_options('ö') == Some(seq!['ө']),
        spec_latin_options('p') == Some(seq!['п']),
        spec_latin_options('q') == Some(seq!['қ']),
        spec_latin_options('r') == Some(seq!['р']),
        spec_latin_options('s') == Some(seq!['с']),
        spec_latin_options('ş') == Some(seq!['ш']),
        spec_latin_options('t') == Some(seq!['т']),
        spec_latin_options('u') == Some(seq!['у']),
        spec_latin_options('ū') == Some(seq!['ұ']),
        spec_latin_options('ü') == Some(seq!['ү']),
        spec_latin_options('v') == Some(seq!['в']),
        spec_latin_options('w') == Some(seq!['у']),
        spec_latin_options('y') == Some(seq!['ы']),
        spec_latin_options('z') == Some(seq!['з']),
        spec_latin_options('h') == Some(seq!['х', 'һ']),
        spec_latin_options('i') == Some(seq!['и', 'й']),
{
}

proof fn lemma_product_members(c: Seq<Seq<char>>, o: Seq<char>, x: Seq<char>)
    requires
        product(c, o).contains(x),
    ensures
        exists|a: Seq<char>, b: char| c.contains(a) && o.contains(b) && x == a.push(b),
    decreases c.len(),
{
    let d = c.drop_last();
    let m = o.map_values(|b: char| c.last().push(b));
    assert(product(c, o) == product(d, o) + m);
    let j = choose|j: int| 0 <= j < product(c, o).len() && product(c, o)[j] == x;
    if j < product(d, o).len() {
        assert(product(d, o)[j] == x);
        lemma_product_members(d, o, x);
        let (a, b) = choose|a: Seq<char>, b: char| d.contains(a) && o.contains(b) && x == a.push(b);
        let k = choose|k: int| 0 <= k < d.len() && d[k] == a;
        assert(c[k] == a);
    } else {
        let t = j - product(d, o).len();
        assert(m[t] == x);
        assert(o.contains(o[t]));
        assert(c.contains(c.last())) by {
            assert(c[c.len() - 1] == c.last());
        }
    }
}

/// `x` reads the Latin word `s` letter by letter: one letter per Latin
/// letter, each a reading of it.
pub open spec fn reads_as(s: Seq<char>, x: Seq<char>) -> bool {
    &&& x.len() == s.len()
    &&& forall|i: int| 0 <= i < s.len() ==> #[trigger] reads_at(s[i], x[i])
}

/// `y` is a reading of the Latin letter `ch`.
pub open spec fn reads_at(ch: char, y: char) -> bool {
    match spec_latin_options(ch) {
        Some(o) => o.contains(y),
        None => false,
    }
}

proof fn lemma_reads_extend(d: Seq<char>, ch: char, o: Seq<char>, a: Seq<char>, b: char)
    requires
        reads_as(d, a),
        spec_latin_options(ch) == Some(o),
        o.contains(b),
    ensures
        reads_as(d.push(ch), a.push(b)),
{
    let s = d.push(ch);
    let x = a.push(b);
    assert forall|i: int| 0 <= i < s.len() implies #[trigger] reads_at(s[i], x[i]) by {
        if i < d.len() {
            assert(s[i] == d[i]);
            assert(x[i] == a[i]);
            assert(reads_at(d[i], a[i]));
        } else {
            assert(s[i] == ch);
            assert(x[i] == b);
        }
    }
    assert(x.len() == s.len());
    assert(reads_as(s, x));
}

proof fn lemma_translit_readings(s: Seq<char>)
    ensures
        translit_cands(s) matches Some(c) ==> forall|x: Seq<char>|
            #[trigger] c.contains(x) ==> reads_as(s, x),
    decreases s.len(),
{
    if s.len() > 0 {
        let d = s.drop_last();
        assert(d.push(s.last()) =~= s);
        lemma_translit_readings(d);
        match translit_cands(d) {
            Some(c0) => match spec_latin_options(s.last()) {
                Some(o) => {
                    if c0.len() * o.len() <= MAX_LATIN_CANDIDATES {
                        assert(translit_cands(s) == Some(product(c0, o)));
                        assert forall|x: Seq<char>| #[trigger] product(c0, o).contains(x) implies reads_as(s, x) by {
                            lemma_product_members(c0, o, x);
                            let (a, b) = choose|a: Seq<char>, b: char|
                                c0.contains(a) && o.contains(b) && x == a.push(b);
                            lemma_reads_extend(d, s.last(), o, a, b);
                        }
                    }
                },
                None => {},
            },
            None => {},
        }
    } else {
        assert forall|x: Seq<char>| #[trigger] seq![Seq::<char>::empty()].contains(x) implies reads_as(s, x) by {
            let j = choose|j: int| 0 <= j < 1 && seq![Seq::<char>::empty()][j] == x;
        }
    }
}

/// Every Cyrillic reading of a Latin word has one letter per Latin letter,
/// each a reading of that letter (see [`reads_at`]); so a reading has ы
/// wherever the word has y.
pub proof fn law_transliteration_letterwise(s: Seq<char>)
    ensures
        spec_transliterate(s) matches Some(l) ==> forall|j: int|
            0 <= j < l.0.len() ==> reads_as(s, #[trigger] l.0[j]),
        spec_transliterate(s) matches Some(l) ==> forall|j: int, i: int|
            0 <= j < l.0.len() && 0 <= i < s.len() && s[i] == 'y' ==> #[trigger] l.0[j][i] == 'ы',
{
    lemma_translit_readings(s);
    if let Some(l) = spec_transliterate(s) {
        assert forall|j: int, i: int|
            0 <= j < l.0.len() && 0 <= i < s.len() && s[i] == 'y' implies #[trigger] l.0[j][i] == 'ы' by {
            let c = translit_cands(s).unwrap();
            lemma_dedup(c);
            assert(dedup(c)[j] == l.0[j]);
            assert(dedup(c).contains(l.0[j]));
            assert(c.contains(l.0[j]));
            assert(reads_as(s, l.0[j]));
            assert(reads_at(s[i], l.0[j][i]));
            let k = choose|k: int| 0 <= k < 1 && seq!['ы'][k] == l.0[j][i];
        }
    }
    match translit_cands(s) {
        Some(c) => {
            lemma_dedup(c);
            assert forall|j: int| 0 <= j < dedup(c).len() implies c.contains(#[trigger] dedup(c)[j]) by {
                assert(dedup(c).contains(dedup(c)[j]));
            }
        },
        None => {},
    }
}

/// Every letter that has a reading is a Latin letter and not a Cyrillic
/// one; so a non-empty token of such letters classifies as Latin, unless
/// one of them is not alphabetic.
pub proof fn law_readable_letters_are_latin(c: char, s: Seq<char>)
    ensures
        spec_latin_options(c) is Some ==> crate::script::spec_latin_letter(c)
            && !spec_cyrillic_letter(c),
        s.len() > 0 && (forall|i: int| 0 <= i < s.len() ==> (#[trigger] spec_latin_options(s[i])) is Some)
            ==> spec_classify(s) == ScriptClass::Latin || exists|i: int|
            0 <= i < s.len() && !crate::script::char_is_alphabetic(s[i]),
{
    if s.len() > 0 && (forall|i: int| 0 <= i < s.len() ==> (#[trigger] spec_latin_options(s[i])) is Some) {
        assert forall|i: int| 0 <= i < s.len() implies crate::script::spec_latin_letter(s[i])
            && !spec_cyrillic_letter(s[i]) by {
            assert(spec_latin_options(s[i]) is Some);
        }
        assert(!spec_cyrillic_letter(s[0]));
    }
}

proof fn lemma_last_vowel_index(s: Seq<char>)
    ensures
        crate::explore::spec_last_vowel(s) matches Some(v) ==> exists|j: int|
            0 <= j < s.len() && s[j] == v && crate::text::spec_vowel(v) && forall|k: int|
                j < k < s.len() ==> !crate::text::spec_vowel(#[trigger] s[k]),
    decreases s.len(),
{
    if s.len() > 0 && !crate::text::spec_vowel(s.last()) {
        let d = s.drop_last();
        lemma_last_vowel_index(d);
        if let Some(v) = crate::explore::spec_last_vowel(d) {
            let j = choose|j: int|
                0 <= j < d.len() && d[j] == v && crate::text::spec_vowel(v) && forall|k: int|
                    j < k < d.len() ==> !crate::text::spec_vowel(#[trigger] d[k]);
            assert(s[j] == v);
            assert forall|k: int| j < k < s.len() implies !crate::text::spec_vowel(#[trigger] s[k]) by {
                if k < d.len() {
                    assert(s[k] == d[k]);
                }
            }
        }
    } else if s.len() > 0 {
        assert(s[s.len() - 1] == s.last());
    }
}

/// When a vowel is restored before a final -н/-з, it follows the harmony of
/// the word's last vowel: ы after a back vowel, і after a front one (ерн
/// gives ерін); it stands just before the final consonant.
pub proof fn law_elision_vowel_follows_harmony(s: Seq<char>)
    ensures
        crate::explore::spec_try_elision_restore(s) matches Some(r) ==> exists|j: int|
            0 <= j < s.len() - 1 && crate::text::spec_vowel(s[j]) && (forall|k: int|
                j < k < s.len() ==> !crate::text::spec_vowel(#[trigger] s[k])) && r == s.drop_last().push(
                if crate::text::spec_back_vowel(s[j]) {
                    'ы'
                } else {
                    'і'
                },
            ).push(s.last()) && (crate::text::spec_front_vowel(s[j]) ==> r[s.len() - 1] == 'і') && (
            crate::text::spec_back_vowel(s[j]) ==> r[s.len() - 1] == 'ы'),
{
    lemma_last_vowel_index(s);
    if let Some(r) = crate::explore::spec_try_elision_restore(s) {
        let v = crate::explore::spec_last_vowel(s).unwrap();
        let j = choose|j: int|
            0 <= j < s.len() && s[j] == v && crate::text::spec_vowel(v) && forall|k: int|
                j < k < s.len() ==> !crate::text::spec_vowel(#[trigger] s[k]);
        assert(j != s.len() - 1);
    }
}

proof fn lemma_weight_named_no_strip(w: PenaltyWeights, value: i64)
    ensures
        spec_with_weight(w, "w_no_strip"@, value) == Some(PenaltyWeights { w_no_strip: value, ..w }),
{
    reveal_strlit("w_no_strip");

}

proof fn lemma_weight_named_short_char(w: PenaltyWeights, value: i64)
    ensures
        spec_with_weight(w, "w_short_char"@, value) == Some(PenaltyWeights { w_short_char: value, ..w }),
{
    reveal_strlit("w_no_strip");
    reveal_strlit("w_short_char");
    assert("w_short_char"@.len() != "w_no_strip"@.len());
}

proof fn lemma_weight_named_no_syll(w: PenaltyWeights, value: i64)
    ensures
        spec_with_weight(w, "w_no_syll"@, value) == Some(PenaltyWeights { w_no_syll: value, ..w }),
{
    reveal_strlit("w_no_strip");
    reveal_strlit("w_short_char");
    reveal_strlit("w_no_syll");
    assert("w_no_syll"@.len() != "w_no_strip"@.len());
    assert("w_no_syll"@.len() != "w_short_char"@.len());
}

proof fn lemma_weight_named_two_char(w: PenaltyWeights, value: i64)
    ensures
        spec_with_weight(w, "w_two_char"@, value) == Some(PenaltyWeights { w_two_char: value, ..w }),
{
    reveal_strlit("w_no_strip");
    reveal_strlit("w_short_char");
    reveal_strlit("w_no_syll");
    reveal_strlit("w_two_char");
    assert("w_two_char"@[2] != "w_no_strip"@[2]);
    assert("w_two_char"@.len() != "w_short_char"@.len());
    assert("w_two_char"@.len() != "w_no_syll"@.len());
}

proof fn lemma_weight_named_three_one(w: PenaltyWeights, value: i64)
    ensures
        spec_with_weight(w, "w_three_one"@, value) == Some(PenaltyWeights { w_three_one: value, ..w }),
{
    reveal_strlit("w_no_strip");
    reveal_strlit("w_short_char");
    reveal_strlit("w_no_syll");
    reveal_strlit("w_two_char");
    reveal_strlit("w_three_one");
    assert("w_three_one"@.len() != "w_no_strip"@.len());
    assert("w_three_one"@.len() != "w_short_char"@.len());
    assert("w_three_one"@.len() != "w_no_syll"@.len());
    assert("w_three_one"@.len() != "w_two_char"@.len());
}

proof fn lemma_weight_named_deriv(w: PenaltyWeights, value: i64)
    ensures
        spec_with_weight(w, "w_deriv"@, value) == Some(PenaltyWeights { w_deriv: value, ..w }),
{
    reveal_strlit("w_no_strip");
    reveal_strlit("w_short_char");
    reveal_strlit("w_no_syll");
    reveal_strlit("w_two_char");
    reveal_strlit("w_three_one");
    reveal_strlit("w_deriv");
    assert("w_deriv"@.len() != "w_no_strip"@.len());
    assert("w_deriv"@.len() != "w_short_char"@.len());
    assert("w_deriv"@.len() != "w_no_syll"@.len());
    assert("w_deriv"@.len() != "w_two_char"@.len());
    assert("w_deriv"@.len() != "w_three_one"@.len());
}

proof fn lemma_weight_named_weak(w: PenaltyWeights, value: i64)
    ensures
        spec_with_weight(w, "w_weak"@, value) == Some(PenaltyWeights { w_weak: value, ..w }),
{
    reveal_strlit("w_no_strip");
    reveal_strlit("w_short_char");
    reveal_strlit("w_no_syll");
    reveal_strlit("w_two_char");
    reveal_strlit("w_three_one");
    reveal_strlit("w_deriv");
    reveal_strlit("w_weak");
    assert("w_weak"@.len() != "w_no_strip"@.len());
    assert("w_weak"@.len() != "w_short_char"@.len());
    assert("w_weak"@.len() != "w_no_syll"@.len());
    assert("w_weak"@.len() != "w_two_char"@.len());
    assert("w_weak"@.len() != "w_three_one"@.len());
    assert("w_weak"@.len() != "w_deriv"@.len());
}

proof fn lemma_weight_named_single_char(w: PenaltyWeights, value: i64)
    ensures
        spec_with_weight(w, "w_single_char"@, value) == Some(PenaltyWeights { w_single_char: value, ..w }),
{
    reveal_strlit("w_no_strip");
    reveal_strlit("w_short_char");
    reveal_strlit("w_no_syll");
    reveal_strlit("w_two_char");
    reveal_strlit("w_three_one");
    reveal_strlit("w_deriv");
    reveal_strlit("w_weak");
    reveal_strlit("w_single_char");
    assert("w_single_char"@.len() != "w_no_strip"@.len());
    assert("w_single_char"@.len() != "w_short_char"@.len());
    assert("w_single_char"@.len() != "w_no_syll"@.len());
    assert("w_single_char"@.len() != "w_two_char"@.len());
    assert("w_single_char"@.len() != "w_three_one"@.len());
    assert("w_single_char"@.len() != "w_deriv"@.len());
    assert("w_single_char"@.len() != "w_weak"@.len());
}

proof fn lemma_weight_named_verb_all_weak(w: PenaltyWeights, value: i64)
    ensures
        spec_with_weight(w, "w_verb_all_weak"@, value) == Some(PenaltyWeights { w_verb_all_weak: value, ..w }),
{
    reveal_strlit("w_no_strip");
    reveal_strlit("w_short_char");
    reveal_strlit("w_no_syll");
    reveal_strlit("w_two_char");
    reveal_strlit("w_three_one");
    reveal_strlit("w_deriv");
    reveal_strlit("w_weak");
    reveal_strlit("w_single_char");
    reveal_strlit("w_verb_all_weak");
    assert("w_verb_all_weak"@.len() != "w_no_strip"@.len());
    assert("w_verb_all_weak"@.len() != "w_short_char"@.len());
    assert("w_verb_all_weak"@.len() != "w_no_syll"@.len());
    assert("w_verb_all_weak"@.len() != "w_two_char"@.len());
    assert("w_verb_all_weak"@.len() != "w_three_one"@.len());
    assert("w_verb_all_weak"@.len() != "w_deriv"@.len());
    assert("w_verb_all_weak"@.len() != "w_weak"@.len());
    assert("w_verb_all_weak"@.len() != "w_single_char"@.len());
}

proof fn lemma_weight_named_nik_deriv(w: PenaltyWeights, value: i64)
    ensures
        spec_with_weight(w, "w_nik_deriv"@, value) == Some(PenaltyWeights { w_nik_deriv: value, ..w }),
{
    reveal_strlit("w_no_strip");
    reveal_strlit("w_short_char");
    reveal_strlit("w_no_syll");
    reveal_strlit("w_two_char");
    reveal_strlit("w_three_one");
    reveal_strlit("w_deriv");
    reveal_strlit("w_weak");
    reveal_strlit("w_single_char");
    reveal_strlit("w_verb_all_weak");
    reveal_strlit("w_nik_deriv");
    assert("w_nik_deriv"@.len() != "w_no_strip"@.len());
    assert("w_nik_deriv"@.len() != "w_short_char"@.len());
    assert("w_nik_deriv"@.len() != "w_no_syll"@.len());
    assert("w_nik_deriv"@.len() != "w_two_char"@.len());
    assert("w_nik_deriv"@[2] != "w_three_one"@[2]);
    assert("w_nik_deriv"@.len() != "w_deriv"@.len());
    assert("w_nik_deriv"@.len() != "w_weak"@.len());
    assert("w_nik_deriv"@.len() != "w_single_char"@.len());
    assert("w_nik_deriv"@.len() != "w_verb_all_weak"@.len());
}

proof fn lemma_weight_named_final_cons(w: PenaltyWeights, value: i64)
    ensures
        spec_with_weight(w, "w_final_cons"@, value) == Some(PenaltyWeights { w_final_cons: value, ..w }),
{
    reveal_strlit("w_no_strip");
    reveal_strlit("w_short_char");
    reveal_strlit("w_no_syll");
    reveal_strlit("w_two_char");
    reveal_strlit("w_three_one");
    reveal_strlit("w_deriv");
    reveal_strlit("w_weak");
    reveal_strlit("w_single_char");
    reveal_strlit("w_verb_all_weak");
    reveal_strlit("w_nik_deriv");
    reveal_strlit("w_final_cons");
    assert("w_final_cons"@.len() != "w_no_strip"@.len());
    assert("w_final_cons"@[2] != "w_short_char"@[2]);
    assert("w_final_cons"@.len() != "w_no_syll"@.len());
    assert("w_final_cons"@.len() != "w_two_char"@.len());
    assert("w_final_cons"@.len() != "w_three_one"@.len());
    assert("w_final_cons"@.len() != "w_deriv"@.len());
    assert("w_final_cons"@.len() != "w_weak"@.len());
    assert("w_final_cons"@.len() != "w_single_char"@.len());
    assert("w_final_cons"@.len() != "w_verb_all_weak"@.len());
    assert("w_final_cons"@.len() != "w_nik_deriv"@.len());
}

proof fn lemma_weight_named_nominal_inf(w: PenaltyWeights, value: i64)
    ensures
        spec_with_weight(w, "w_nominal_inf"@, value) == Some(PenaltyWeights { w_nominal_inf: value, ..w }),
{
    reveal_strlit("w_no_strip");
    reveal_strlit("w_short_char");
    reveal_strlit("w_no_syll");
    reveal_strlit("w_two_char");
    reveal_strlit("w_three_one");
    reveal_strlit("w_deriv");
    reveal_strlit("w_weak");
    reveal_strlit("w_single_char");
    reveal_strlit("w_verb_all_weak");
    reveal_strlit("w_nik_deriv");
    reveal_strlit("w_final_cons");
    reveal_strlit("w_nominal_inf");
    assert("w_nominal_inf"@.len() != "w_no_strip"@.len());
    assert("w_nominal_inf"@.len() != "w_short_char"@.len());
    assert("w_nominal_inf"@.len() != "w_no_syll"@.len());
    assert("w_nominal_inf"@.len() != "w_two_char"@.len());
    assert("w_nominal_inf"@.len() != "w_three_one"@.len());
    assert("w_nominal_inf"@.len() != "w_deriv"@.len());
    assert("w_nominal_inf"@.len() != "w_weak"@.len());
    assert("w_nominal_inf"@[2] != "w_single_char"@[2]);
    assert("w_nominal_inf"@.len() != "w_verb_all_weak"@.len());
    assert("w_nominal_inf"@.len() != "w_nik_deriv"@.len());
    assert("w_nominal_inf"@.len() != "w_final_cons"@.len());
}

proof fn lemma_weight_named_verbal_inf(w: PenaltyWeights, value: i64)
    ensures
        spec_with_weight(w, "w_verbal_inf"@, value) == Some(PenaltyWeights { w_verbal_inf: value, ..w }),
{
    reveal_strlit("w_no_strip");
    reveal_strlit("w_short_char");
    reveal_strlit("w_no_syll");
    reveal_strlit("w_two_char");
    reveal_strlit("w_three_one");
    reveal_strlit("w_deriv");
    reveal_strlit("w_weak");
    reveal_strlit("w_single_char");
    reveal_strlit("w_verb_all_weak");
    reveal_strlit("w_nik_deriv");
    reveal_strlit("w_final_cons");
    reveal_strlit("w_nominal_inf");
    reveal_strlit("w_verbal_inf");
    assert("w_verbal_inf"@.len() != "w_no_strip"@.len());
    assert("w_verbal_inf"@[2] != "w_short_char"@[2]);
    assert("w_verbal_inf"@.len() != "w_no_syll"@.len());
    assert("w_verbal_inf"@.len() != "w_two_char"@.len());
    assert("w_verbal_inf"@.len() != "w_three_one"@.len());
    assert("w_verbal_inf"@.len() != "w_deriv"@.len());
    assert("w_verbal_inf"@.len() != "w_weak"@.len());
    assert("w_verbal_inf"@.len() != "w_single_char"@.len());
    assert("w_verbal_inf"@.len() != "w_verb_all_weak"@.len());
    assert("w_verbal_inf"@.len() != "w_nik_deriv"@.len());
    assert("w_verbal_inf"@[2] != "w_final_cons"@[2]);
    assert("w_verbal_inf"@.len() != "w_nominal_inf"@.len());
}

proof fn lemma_weight_named_removed(w: PenaltyWeights, value: i64)
    ensures
        spec_with_weight(w, "w_removed"@, value) == Some(PenaltyWeights { w_removed: value, ..w }),
{
    reveal_strlit("w_no_strip");
    reveal_strlit("w_short_char");
    reveal_strlit("w_no_syll");
    reveal_strlit("w_two_char");
    reveal_strlit("w_three_one");
    reveal_strlit("w_deriv");
    reveal_strlit("w_weak");
    reveal_strlit("w_single_char");
    reveal_strlit("w_verb_all_weak");
    reveal_strlit("w_nik_deriv");
    reveal_strlit("w_final_cons");
    reveal_strlit("w_nominal_inf");
    reveal_strlit("w_verbal_inf");
    reveal_strlit("w_removed");
    assert("w_removed"@.len() != "w_no_strip"@.len());
    assert("w_removed"@.len() != "w_short_char"@.len());
    assert("w_removed"@[2] != "w_no_syll"@[2]);
    assert("w_removed"@.len() != "w_two_char"@.len());
    assert("w_removed"@.len() != "w_three_one"@.len());
    assert("w_removed"@.len() != "w_deriv"@.len());
    assert("w_removed"@.len() != "w_weak"@.len());
    assert("w_removed"@.len() != "w_single_char"@.len());
    assert("w_removed"@.len() != "w_verb_all_weak"@.len());
    assert("w_removed"@.len() != "w_nik_deriv"@.len());
    assert("w_removed"@.len() != "w_final_cons"@.len());
    assert("w_removed"@.len() != "w_nominal_inf"@.len());
    assert("w_removed"@.len() != "w_verbal_inf"@.len());
}

proof fn lemma_weight_named_verb_track(w: PenaltyWeights, value: i64)
    ensures
        spec_with_weight(w, "w_verb_track"@, value) == Some(PenaltyWeights { w_verb_track: value, ..w }),
{
    reveal_strlit("w_no_strip");
    reveal_strlit("w_short_char");
    reveal_strlit("w_no_syll");
    reveal_strlit("w_two_char");
    reveal_strlit("w_three_one");
    reveal_strlit("w_deriv");
    reveal_strlit("w_weak");
    reveal_strlit("w_single_char");
    reveal_strlit("w_verb_all_weak");
    reveal_strlit("w_nik_deriv");
    reveal_strlit("w_final_cons");
    reveal_strlit("w_nominal_inf");
    reveal_strlit("w_verbal_inf");
    reveal_strlit("w_removed");
    reveal_strlit("w_verb_track");
    assert("w_verb_track"@.len() != "w_no_strip"@.len());
    assert("w_verb_track"@[2] != "w_short_char"@[2]);
    assert("w_verb_track"@.len() != "w_no_syll"@.len());
    assert("w_verb_track"@.len() != "w_two_char"@.len());
    assert("w_verb_track"@.len() != "w_three_one"@.len());
    assert("w_verb_track"@.len() != "w_deriv"@.len());
    assert("w_verb_track"@.len() != "w_weak"@.len());
    assert("w_verb_track"@.len() != "w_single_char"@.len());
    assert("w_verb_track"@.len() != "w_verb_all_weak"@.len());
    assert("w_verb_track"@.len() != "w_nik_deriv"@.len());
    assert("w_verb_track"@[2] != "w_final_cons"@[2]);
    assert("w_verb_track"@.len() != "w_nominal_inf"@.len());
    assert("w_verb_track"@[6] != "w_verbal_inf"@[6]);
    assert("w_verb_track"@.len() != "w_removed"@.len());
}

/// Setting a weight by its name changes exactly the field of that name.
pub proof fn law_set_weight_by_name(w: PenaltyWeights, value: i64)
    ensures
        spec_with_weight(w, "w_no_strip"@, value) == Some(PenaltyWeights { w_no_strip: value, ..w }),
        spec_with_weight(w, "w_short_char"@, value) == Some(PenaltyWeights { w_short_char: value, ..w }),
        spec_with_weight(w, "w_no_syll"@, value) == Some(PenaltyWeights { w_no_syll: value, ..w }),
        spec_with_weight(w, "w_two_char"@, value) == Some(PenaltyWeights { w_two_char: value, ..w }),
        spec_with_weight(w, "w_three_one"@, value) == Some(PenaltyWeights { w_three_one: value, ..w }),
        spec_with_weight(w, "w_deriv"@, value) == Some(PenaltyWeights { w_deriv: value, ..w }),
        spec_with_weight(w, "w_weak"@, value) == Some(PenaltyWeights { w_weak: value, ..w }),
        spec_with_weight(w, "w_single_char"@, value) == Some(PenaltyWeights { w_single_char: value, ..w }),
        spec_with_weight(w, "w_verb_all_weak"@, value) == Some(PenaltyWeights { w_verb_all_weak: value, ..w }),
        spec_with_weight(w, "w_nik_deriv"@, value) == Some(PenaltyWeights { w_nik_deriv: value, ..w }),
        spec_with_weight(w, "w_final_cons"@, value) == Some(PenaltyWeights { w_final_cons: value, ..w }),
        spec_with_weight(w, "w_nominal_inf"@, value) == Some(PenaltyWeights { w_nominal_inf: value, ..w }),
        spec_with_weight(w, "w_verbal_inf"@, value) == Some(PenaltyWeights { w_verbal_inf: value, ..w }),
        spec_with_weight(w, "w_removed"@, value) == Some(PenaltyWeights { w_removed: value, ..w }),
        spec_with_weight(w, "w_verb_track"@, value) == Some(PenaltyWeights { w_verb_track: value, ..w }),
{
    lemma_weight_named_no_strip(w, value);
    lemma_weight_named_short_char(w, value);
    lemma_weight_named_no_syll(w, value);
    lemma_weight_named_two_char(w, value);
    lemma_weight_named_three_one(w, value);
    lemma_weight_named_deriv(w, value);
    lemma_weight_named_weak(w, value);
    lemma_weight_named_single_char(w, value);
    lemma_weight_named_verb_all_weak(w, value);
    lemma_weight_named_nik_deriv(w, value);
    lemma_weight_named_final_cons(w, value);
    lemma_weight_named_nominal_inf(w, value);
    lemma_weight_named_verbal_inf(w, value);
    lemma_weight_named_removed(w, value);
    lemma_weight_named_verb_track(w, value);
}

} // verus!
