use kazsearch_core::config::{
    clamp_max_steps, dict_param, dict_script_mode, is_weight_param, lexicon_path,
    parse_script_mode, set_weight, DictParam,
};
use kazsearch_core::explore::{
    apply_elision_restore, apply_mutation, candidate_beats, candidate_hits_lexicon,
    candidate_penalty, explore_track_best, Candidate,
};
use kazsearch_core::lexicon::Lexicon;
use kazsearch_core::rules::{noun_layers, verb_layers};
use kazsearch_core::script::{analyze_input, is_cyrillic_letter, lower_kazakh, ScriptClass};
use kazsearch_core::text::{
    count_syllables, ends_with_any, ends_with_suffix, fill_prefix_tables, harmony_ok, is_loan_vowel,
    is_vocalic, suffix_in, trim, utf8_char_count, utf8_last_cp,
};
use kazsearch_core::{stem, stem_lowered, PenaltyWeights, ScriptMode, StemConfig, MAX_STEM_BYTES};

fn lexicon_of(words: &[&str]) -> Lexicon {
    let mut lex = Lexicon::new();
    for w in words {
        lex.insert(w.to_string());
    }
    lex
}

fn cand(len: i32, steps: i32) -> Candidate {
    Candidate { len, steps, ..Default::default() }
}

#[test]
fn test_beats_is_a_strict_order() {
    let prefix = fill_prefix_tables("алмалар");
    let a = cand(8, 1);
    let b = cand(14, 0);
    let c = cand(6, 2);
    assert!(!candidate_beats(&a, &a, 5, 5, &prefix));
    assert!(candidate_beats(&a, &b, -10, 0, &prefix));
    assert!(!candidate_beats(&b, &a, 0, -10, &prefix));
    assert!(candidate_beats(&b, &c, 0, 7, &prefix));
    assert!(candidate_beats(&a, &c, -10, 7, &prefix));
    // Equal penalties: the longer stem wins the last tie-break.
    assert!(candidate_beats(&b, &a, 3, 3, &prefix));
}

#[test]
fn test_candidate_penalty_formula() {
    let word = "алмалар";
    let prefix = fill_prefix_tables(word);
    let w = PenaltyWeights::default();
    let mut c = cand(8, 1);
    c.nominal_inf = 1;
    // Stem "алма": 4 characters, 2 syllables; 3 characters removed.
    assert_eq!(candidate_penalty(&c, word, 7, false, &prefix, &w), -3900 - 3 * 320);
    assert_eq!(candidate_penalty(&c, word, 7, true, &prefix, &w), -3900 - 3 * 320 + 1200);
    // The unstripped word pays the no-strip weight only.
    assert_eq!(candidate_penalty(&cand(14, 0), word, 7, false, &prefix, &w), 6000);
    // Two-character stem of one syllable, one weak single-character strip.
    let mut d = cand(4, 1);
    d.weak = 1;
    d.single_char = 1;
    d.nominal_inf = 1;
    assert_eq!(candidate_penalty(&d, word, 7, false, &prefix, &w), 8000 + 2500 + 1200 - 3900 - 5 * 320);
}

#[test]
fn test_explore_never_worse_than_unstripped() {
    let cfg = StemConfig::default();
    let w = PenaltyWeights::default();
    for word in ["алмалар", "мектептеріміздегі", "барады", "бас", "идеяға"] {
        let len = word.len();
        let prefix = fill_prefix_tables(word);
        let original = utf8_char_count(word);
        for (layers, noun) in [(noun_layers(), true), (verb_layers(), false)] {
            let r = explore_track_best(word, len, &layers, &cfg, noun, &prefix);
            let root = Candidate { len: len as i32, ..Default::default() };
            let mut root_flagged = root;
            root_flagged.penalty_flags = r.best_scored.penalty_flags;
            let best_pen = candidate_penalty(&r.best_scored, word, original, !noun, &prefix, &w);
            let root_pen = candidate_penalty(&root, word, original, !noun, &prefix, &w);
            if r.best_scored.steps > 0 {
                assert!(!candidate_beats(&root, &r.best_scored, root_pen, best_pen, &prefix));
            }
            assert!(r.best_scored.len >= 0 && r.best_scored.len as usize <= len);
        }
    }
}

#[test]
fn test_explore_finds_plural_strip() {
    let cfg = StemConfig::default();
    let word = "алмалар";
    let prefix = fill_prefix_tables(word);
    let r = explore_track_best(word, word.len(), &noun_layers(), &cfg, true, &prefix);
    assert_eq!(r.best_scored.len as usize, "алма".len());
    assert_eq!(r.best_scored.steps, 1);
    assert_eq!(r.best_scored.nominal_inf, 1);
    assert_eq!(r.best_scored.last_suffix, Some("лар"));
    assert!(r.best_lexhit.is_none());
}

#[test]
fn test_short_and_overlong_words_kept() {
    let cfg = StemConfig::default();
    assert_eq!(stem("Бас", &cfg), "бас");
    assert_eq!(stem("Ә", &cfg), "ә");
    let long_word = "АЛМА".repeat(40);
    assert!(long_word.len() >= MAX_STEM_BYTES);
    assert_eq!(stem(&long_word, &cfg), "алма".repeat(40));
}

#[test]
fn test_foreign_tokens_kept() {
    let cfg = StemConfig::default();
    assert_eq!(stem("abc123", &cfg), "abc123");
    assert_eq!(stem("  ", &cfg), "  ");
    assert_eq!(stem("алmaлар", &cfg), "алmaлар");
    let cyr = StemConfig { script_mode: ScriptMode::CyrillicOnly, ..Default::default() };
    assert_eq!(stem("QALALAR", &cyr), "qalalar");
}

#[test]
fn test_compound_keeps_all_but_last_run() {
    let cfg = StemConfig::default();
    assert_eq!(stem("АЛМА-АЛМАЛАР", &cfg), "алма-алма");
    assert_eq!(stem("-алмалар", &cfg), "-алма");
    assert_eq!(stem("алма-", &cfg), "алма-");
}

#[test]
fn test_max_steps_only_its_clamp_matters() {
    let words = ["мектептеріміздегі", "алмаларымыздағы", "бармаған", "кітаптарымыздағы"];
    for (a, b) in [(100, 16), (-5, 1), (0, 1), (i32::MAX, 16), (i32::MIN, 1)] {
        let ca = StemConfig { max_steps: a, ..Default::default() };
        let cb = StemConfig { max_steps: b, ..Default::default() };
        for w in words {
            assert_eq!(stem(w, &ca), stem(w, &cb));
        }
    }
    assert_eq!(clamp_max_steps(-7), 1);
    assert_eq!(clamp_max_steps(9), 9);
    assert_eq!(clamp_max_steps(40), 16);
}

#[test]
fn test_transliteration_bounded_and_distinct() {
    let a = analyze_input("hi");
    assert_eq!(a.class, ScriptClass::Latin);
    let l = a.latin.unwrap();
    assert_eq!(l.candidates, vec!["хи", "хй", "һи", "һй"]);
    assert!(!l.has_diacritic && !l.has_q_or_w);
    // 2^10 readings exceed the cap: no reading at all.
    assert!(analyze_input("hihihihihi").latin.is_none());
    let q = analyze_input("qäz").latin.unwrap();
    assert_eq!(q.candidates, vec!["қәз"]);
    assert!(q.has_diacritic && q.has_q_or_w);
    assert_eq!(analyze_input("a1").class, ScriptClass::Unsupported);
}

#[test]
fn test_latin_words_follow_cyrillic_stems() {
    let cfg = StemConfig::default();
    assert_eq!(stem("qalalar", &cfg), "қала");
    assert_eq!(stem("äkeler", &cfg), "әке");
    // Not confident without an inflection: kept as typed.
    assert_eq!(stem("qala", &cfg), "qala");
    assert_eq!(stem("äke", &cfg), "äke");
}

#[test]
fn test_lowercase_wrappers() {
    // char::to_lowercase: Kazakh capitals map to their small letters.
    assert_eq!(lower_kazakh("ӘЛЕМ"), "әлем");
    // NFC: и + combining breve composes to й.
    assert_eq!(lower_kazakh("и\u{0306}"), "й");
    assert_eq!(stem("ӘЛЕМДЕР", &StemConfig::default()), "әлем");
    // char::is_alphabetic: the Cyrillic thousands sign is no letter.
    assert_eq!(analyze_input("а\u{0482}").class, ScriptClass::Unsupported);
    assert_eq!(analyze_input("алма").class, ScriptClass::Cyrillic);
}

#[test]
fn test_stem_lowered_skips_lowercasing() {
    let cfg = StemConfig::default();
    assert_eq!(stem_lowered("алмалар", &cfg), "алма");
    // No lowercasing here: capital vowels are not counted as syllables.
    assert_eq!(stem_lowered("АЛМАЛАР", &cfg), "АЛМАЛАР");
}

#[test]
fn test_loan_vowel_guards() {
    let cfg = StemConfig::default();
    assert_eq!(stem("идеям", &cfg), "идея");
    assert!(is_vocalic('я') && is_loan_vowel('э') && !is_vocalic('б'));
    // Elision restore does not fire after a vowel (native or loan).
    assert_eq!(apply_elision_restore("академиян"), "академиян");
    assert_eq!(apply_elision_restore("ауз"), "ауыз");
}

#[test]
fn test_mutation_and_elision_edges() {
    let mut s = "б".to_string();
    apply_mutation(&mut s);
    assert_eq!(s, "п");
    let mut s = "аб".to_string();
    apply_mutation(&mut s);
    assert_eq!(s, "ап");
    let mut s = "ауг".to_string();
    apply_mutation(&mut s);
    assert_eq!(s, "ауг");
    assert_eq!(apply_elision_restore("н"), "н");
    assert_eq!(apply_elision_restore("мрн"), "мрн");
    assert_eq!(apply_elision_restore("мұрн"), "мұрын");
}

#[test]
fn test_lexicon_sound_change_paths() {
    let cfg = StemConfig { lexicon: Some(lexicon_of(&["кітап", "алма", "ауыз"])), ..Default::default() };
    assert_eq!(stem("кітабы", &cfg), "кітап");
    assert_eq!(stem("кітаптары", &cfg), "кітап");
    assert_eq!(stem("ауызы", &cfg), "ауыз");
    assert_eq!(stem("кітаптан", &cfg), "кітап");
}

#[test]
fn test_candidate_hits_lexicon_cases() {
    let lex = lexicon_of(&["кітап", "ауыз"]);
    let word = "кітабы";
    let mut c = cand("кітаб".len() as i32, 1);
    c.nominal_inf = 1;
    c.last_suffix = Some("ы");
    // Found only after devoicing б to п.
    assert!(candidate_hits_lexicon(&c, word, &lex));
    c.last_suffix = Some("лар");
    assert!(!candidate_hits_lexicon(&c, word, &lex));
    assert!(!candidate_hits_lexicon(&cand(0, 1), word, &lex));
    assert!(candidate_hits_lexicon(&cand("кітап".len() as i32, 1), "кітаптар", &lex));
}

#[test]
fn test_conflation_needs_two_syllable_root() {
    let cfg = StemConfig { lexicon: Some(lexicon_of(&["жаз", "жазу", "оқыт", "оқыту"])), ..Default::default() };
    assert_eq!(stem("оқыту", &cfg), "оқыт");
    assert_eq!(stem("жазу", &cfg), "жазу");
}

#[test]
fn test_lexicon_insert_then_contains() {
    let mut lex = Lexicon::new();
    assert!(lex.is_empty());
    assert!(lex.insert("алма".to_string()));
    assert!(!lex.insert("алма".to_string()));
    assert!(lex.insert("бала".to_string()));
    assert!(lex.contains("алма") && lex.contains("бала") && !lex.contains("ала"));
    assert_eq!(lex.len(), 2);
}

#[test]
fn test_lexicon_from_text() {
    let lex = Lexicon::from_text("# stems\nалма\r\n\n  бала  \n#кітап\nдос").unwrap();
    assert_eq!(lex.len(), 3);
    assert!(lex.contains("алма") && lex.contains("бала") && lex.contains("дос"));
    assert!(!lex.contains("#кітап") && !lex.contains("кітап"));
    let long = "а".repeat(64);
    let err = Lexicon::from_text(&format!("алма\n{}\nбала", long)).unwrap_err();
    assert_eq!(err, long);
    assert!(Lexicon::from_text("").unwrap().is_empty());
}

#[test]
fn test_parse_script_mode_names() {
    assert_eq!(parse_script_mode(""), Ok(ScriptMode::Auto));
    assert_eq!(parse_script_mode("  AUTO "), Ok(ScriptMode::Auto));
    assert_eq!(parse_script_mode("Cyrillic_Only"), Ok(ScriptMode::CyrillicOnly));
    assert_eq!(parse_script_mode("cyrillic-only"), Ok(ScriptMode::CyrillicOnly));
    assert_eq!(parse_script_mode("\tcyrillic\n"), Ok(ScriptMode::CyrillicOnly));
    assert_eq!(parse_script_mode("latin"), Err(()));
    assert_eq!(dict_script_mode("auto"), Some(ScriptMode::Auto));
    assert_eq!(dict_script_mode("cyrillic_only"), Some(ScriptMode::CyrillicOnly));
    assert_eq!(dict_script_mode("AUTO"), None);
}

#[test]
fn test_weight_names_and_setting() {
    let mut w = PenaltyWeights::default();
    assert!(is_weight_param("w_removed"));
    assert!(set_weight("w_removed", 500, &mut w));
    assert_eq!(w.w_removed, 500);
    assert_eq!(w.w_no_strip, 6000);
    assert!(!is_weight_param("w_bogus"));
    assert!(!set_weight("w_bogus", 1, &mut w));
    assert_eq!(w.w_removed, 500);
    for name in ["w_no_strip", "w_short_char", "w_verb_track", "w_nik_deriv"] {
        assert!(is_weight_param(name));
        assert_eq!(dict_param(name), Some(DictParam::Weight));
    }
    assert_eq!(dict_param("derivation"), Some(DictParam::Derivation));
    assert_eq!(dict_param("max_steps"), Some(DictParam::MaxSteps));
    assert_eq!(dict_param("lexicon"), Some(DictParam::Lexicon));
    assert_eq!(dict_param("script_mode"), Some(DictParam::ScriptMode));
    assert_eq!(dict_param("nonsense"), None);
}

#[test]
fn test_lexicon_path_setting() {
    assert_eq!(lexicon_path("  /tmp/kaz.dict \n"), Some("/tmp/kaz.dict".to_string()));
    assert_eq!(lexicon_path(" \t "), None);
    assert_eq!(trim("\u{3000}алма\u{A0}"), "алма");
}

#[test]
fn test_text_helpers() {
    assert_eq!(ends_with_suffix("алмалар", "лар"), Some("алма"));
    assert_eq!(ends_with_suffix("лар", "лар"), None);
    assert_eq!(ends_with_suffix("алма", ""), None);
    assert_eq!(ends_with_suffix("алма", "ла"), None);
    assert!(ends_with_any("мектептер", &["лар", "тер"]));
    assert!(!ends_with_any("мектеп", &["лар", "тер"]));
    assert!(suffix_in("сы", &["ы", "сы"]));
    assert!(!suffix_in("с", &["ы", "сы"]));
    assert_eq!(utf8_last_cp("алма"), Some('а'));
    assert_eq!(utf8_last_cp(""), None);
    assert_eq!(utf8_char_count("мектеп"), 6);
    assert_eq!(count_syllables("идея"), 3);
    assert!(is_cyrillic_letter('ә') && !is_cyrillic_letter('a'));
}

#[test]
fn test_harmony_tables_agree() {
    for word in ["мектептер", "алмаларымыздағы", "идеяға", "университеттер"] {
        let prefix = fill_prefix_tables(word);
        for (b, _) in word.char_indices().chain(std::iter::once((word.len(), ' '))) {
            for h in 0u8..3 {
                assert_eq!(prefix.harmony_ok_at(b, h), harmony_ok(&word[..b], h));
            }
        }
    }
}

#[test]
fn test_readme_examples() {
    let plain = StemConfig::default();
    for (w, s) in [
        ("мектептерде", "мектеп"),
        ("мектептің", "мектеп"),
        ("мектептегі", "мектеп"),
        ("мектептерінде", "мектеп"),
        ("оқушылар", "оқушы"),
        ("оқушыларды", "оқушы"),
        ("дәрігерлерге", "дәрігер"),
        ("дәрігерлердің", "дәрігер"),
        ("технологияларды", "технология"),
    ] {
        assert_eq!(stem(w, &plain), s);
    }
    // With the stems in the lexicon, every form of the table meets its stem.
    let cfg = StemConfig {
        lexicon: Some(lexicon_of(&["мектеп", "оқушы", "дәрігер", "технология"])),
        ..Default::default()
    };
    for (w, s) in [
        ("мектептерде", "мектеп"),
        ("мектептің", "мектеп"),
        ("оқушыларды", "оқушы"),
        ("дәрігерлердің", "дәрігер"),
        ("технологияларды", "технология"),
        ("технологиясын", "технология"),
    ] {
        assert_eq!(stem(w, &cfg), s);
    }
}

#[test]
fn test_explore_candidates_consistent() {
    let lex_cfg = StemConfig { lexicon: Some(lexicon_of(&["алма", "бар"])), ..Default::default() };
    let no_deriv = StemConfig { derivation: false, max_steps: 2, ..Default::default() };
    for cfg in [StemConfig::default(), lex_cfg, no_deriv] {
        for word in ["алмаларымыздағы", "бармаған", "алмалық", "барады"] {
            let len = word.len();
            let prefix = fill_prefix_tables(word);
            for (layers, noun) in [(noun_layers(), true), (verb_layers(), false)] {
                let r = explore_track_best(word, len, &layers, &cfg, noun, &prefix);
                let mut cands = vec![r.best_scored];
                cands.extend(r.best_lexhit);
                for c in cands {
                    assert!(c.len > 0 && c.len as usize <= len && word.is_char_boundary(c.len as usize));
                    assert_eq!(c.steps, c.nominal_inf + c.verbal_inf + c.deriv);
                    assert!(c.weak <= c.steps && c.steps <= cfg.max_steps.clamp(1, 16));
                    assert!(c.steps > 0 || c.len as usize == len);
                    if noun {
                        assert_eq!(c.verbal_inf, 0);
                    } else {
                        assert_eq!(c.nominal_inf + c.deriv, 0);
                    }
                    if !cfg.derivation {
                        assert_eq!(c.deriv, 0);
                    }
                }
                match (&cfg.lexicon, r.best_lexhit) {
                    (None, hit) => assert!(hit.is_none()),
                    (Some(lex), Some(c)) => {
                        assert!(c.steps > 0 && candidate_hits_lexicon(&c, word, lex));
                    }
                    (Some(_), None) => {}
                }
            }
        }
    }
}

#[test]
fn test_settled_stem_and_idempotence_limits() {
    let plain = StemConfig::default();
    // Not idempotent without a lexicon.
    assert_eq!(stem("адамдар", &plain), "адам");
    assert_eq!(stem("адам", &plain), "ада");
    let cfg = StemConfig { lexicon: Some(lexicon_of(&["тарат", "тарату"])), ..Default::default() };
    let once = stem("таратқандар", &cfg);
    assert_eq!(once, "тарат");
    assert_eq!(stem(&once, &cfg), once);
}

#[test]
fn test_readme_examples_with_lexicon_all_forms() {
    let cfg = StemConfig {
        lexicon: Some(lexicon_of(&["мектеп", "оқушы", "дәрігер", "технология"])),
        ..Default::default()
    };
    for (w, s) in [
        ("мектептерде", "мектеп"),
        ("мектептің", "мектеп"),
        ("оқушылар", "оқушы"),
        ("оқушыларды", "оқушы"),
        ("дәрігерлерге", "дәрігер"),
        ("дәрігерлердің", "дәрігер"),
        ("технологияларды", "технология"),
        ("технологиясын", "технология"),
    ] {
        assert_eq!(stem(w, &cfg), s);
    }
}
