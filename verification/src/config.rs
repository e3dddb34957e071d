//! Configuration text: names of script modes, penalty weights and
//! dictionary parameters, and the clamping of the search depth.
use vstd::prelude::*;

use crate::explore::clamp_steps;
use crate::text::{spec_trim, trim};
use crate::utf8::{chars_eq, chars_of, str_eq};
use crate::{PenaltyWeights, ScriptMode};

verus! {

/// ASCII lowercase of one character.
pub open spec fn spec_ascii_lower(c: char) -> char {
    if 'A' <= c && c <= 'Z' {
        ((c as u32) + 32) as char
    } else {
        c
    }
}

/// ASCII lowercase of a string (other characters unchanged).
pub open spec fn ascii_lower(s: Seq<char>) -> Seq<char> {
    s.map_values(|c: char| spec_ascii_lower(c))
}

fn ascii_lower_char(c: char) -> (r: char)
    ensures
        r == spec_ascii_lower(c),
{
    if 'A' <= c && c <= 'Z' {
        let b = c as u8;
        assert(b == c as u32);
        (b + 32) as char
    } else {
        c
    }
}

/// The characters of `s` in ASCII lowercase.
fn ascii_lowercase(s: &str) -> (r: Vec<char>)
    ensures
        r@ == ascii_lower(s@),
{
    let v = chars_of(s);
    let mut out: Vec<char> = Vec::new();
    let mut i: usize = 0;
    while i < v.len()
        invariant
            i <= v@.len(),
            v@ == s@,
            out@ == ascii_lower(s@).take(i as int),
        decreases v@.len() - i,
    {
        out.push(ascii_lower_char(v[i]));
        assert(out@ =~= ascii_lower(s@).take(i + 1));
        i = i + 1;
    }
    assert(ascii_lower(s@).take(v@.len() as int) =~= ascii_lower(s@));
    out
}

/// The script mode a setting names, ignoring surrounding whitespace and
/// ASCII case: empty or "auto" for `Auto`; "cyrillic_only", "cyrillic-only"
/// or "cyrillic" for `CyrillicOnly`; any other name is refused.
pub open spec fn spec_parse_script_mode(raw: Seq<char>) -> Result<ScriptMode, ()> {
    let k = ascii_lower(spec_trim(raw));
    if k.len() == 0 || k == "auto"@ {
        Ok(ScriptMode::Auto)
    } else if k == "cyrillic_only"@ || k == "cyrillic-only"@ || k == "cyrillic"@ {
        Ok(ScriptMode::CyrillicOnly)
    } else {
        Err(())
    }
}

/// Parses a script-mode setting (see [`spec_parse_script_mode`]).
pub fn parse_script_mode(raw: &str) -> (r: Result<ScriptMode, ()>)
    ensures
        r == spec_parse_script_mode(raw@),
{
    let trimmed = trim(raw);
    let k = ascii_lowercase(trimmed.as_str());
    let ks = k.as_slice();
    if ks.len() == 0 || chars_eq(ks, chars_of("auto").as_slice()) {
        return Ok(ScriptMode::Auto);
    }
    if chars_eq(ks, chars_of("cyrillic_only").as_slice()) || chars_eq(
        ks,
        chars_of("cyrillic-only").as_slice(),
    ) || chars_eq(ks, chars_of("cyrillic").as_slice()) {
        return Ok(ScriptMode::CyrillicOnly);
    }
    Err(())
}

/// The lexicon path a setting names: the setting without surrounding
/// whitespace, or none when nothing is left.
pub open spec fn spec_lexicon_path(raw: Seq<char>) -> Option<Seq<char>> {
    if spec_trim(raw).len() == 0 {
        None
    } else {
        Some(spec_trim(raw))
    }
}

/// The lexicon path a setting names (see [`spec_lexicon_path`]).
pub fn lexicon_path(raw: &str) -> (r: Option<String>)
    ensures
        match r {
            Some(p) => spec_lexicon_path(raw@) == Some(p@),
            None => spec_lexicon_path(raw@) is None,
        },
{
    let t = trim(raw);
    if chars_of(t.as_str()).len() == 0 {
        None
    } else {
        Some(t)
    }
}

/// `name` is the name of a penalty weight.
pub open spec fn spec_is_weight_param(name: Seq<char>) -> bool {
    name == "w_no_strip"@
        || name == "w_short_char"@
        || name == "w_no_syll"@
        || name == "w_two_char"@
        || name == "w_three_one"@
        || name == "w_deriv"@
        || name == "w_weak"@
        || name == "w_single_char"@
        || name == "w_verb_all_weak"@
        || name == "w_nik_deriv"@
        || name == "w_final_cons"@
        || name == "w_nominal_inf"@
        || name == "w_verbal_inf"@
        || name == "w_removed"@
        || name == "w_verb_track"@
}

/// Whether `name` names a penalty weight.
pub fn is_weight_param(name: &str) -> (r: bool)
    ensures
        r == spec_is_weight_param(name@),
{
    str_eq(name, "w_no_strip")
        || str_eq(name, "w_short_char")
        || str_eq(name, "w_no_syll")
        || str_eq(name, "w_two_char")
        || str_eq(name, "w_three_one")
        || str_eq(name, "w_deriv")
        || str_eq(name, "w_weak")
        || str_eq(name, "w_single_char")
        || str_eq(name, "w_verb_all_weak")
        || str_eq(name, "w_nik_deriv")
        || str_eq(name, "w_final_cons")
        || str_eq(name, "w_nominal_inf")
        || str_eq(name, "w_verbal_inf")
        || str_eq(name, "w_removed")
        || str_eq(name, "w_verb_track")
}

/// `w` with the weight called `name` set to `value` (in thousandths), or
/// none when no weight has that name.
pub open spec fn spec_with_weight(w: PenaltyWeights, name: Seq<char>, value: i64) -> Option<PenaltyWeights> {
    if name == "w_no_strip"@ {
        Some(PenaltyWeights { w_no_strip: value, ..w })
    } else if name == "w_short_char"@ {
        Some(PenaltyWeights { w_short_char: value, ..w })
    } else if name == "w_no_syll"@ {
        Some(PenaltyWeights { w_no_syll: value, ..w })
    } else if name == "w_two_char"@ {
        Some(PenaltyWeights { w_two_char: value, ..w })
    } else if name == "w_three_one"@ {
        Some(PenaltyWeights { w_three_one: value, ..w })
    } else if name == "w_deriv"@ {
        Some(PenaltyWeights { w_deriv: value, ..w })
    } else if name == "w_weak"@ {
        Some(PenaltyWeights { w_weak: value, ..w })
    } else if name == "w_single_char"@ {
        Some(PenaltyWeights { w_single_char: value, ..w })
    } else if name == "w_verb_all_weak"@ {
        Some(PenaltyWeights { w_verb_all_weak: value, ..w })
    } else if name == "w_nik_deriv"@ {
        Some(PenaltyWeights { w_nik_deriv: value, ..w })
    } else if name == "w_final_cons"@ {
        Some(PenaltyWeights { w_final_cons: value, ..w })
    } else if name == "w_nominal_inf"@ {
        Some(PenaltyWeights { w_nominal_inf: value, ..w })
    } else if name == "w_verbal_inf"@ {
        Some(PenaltyWeights { w_verbal_inf: value, ..w })
    } else if name == "w_removed"@ {
        Some(PenaltyWeights { w_removed: value, ..w })
    } else if name == "w_verb_track"@ {
        Some(PenaltyWeights { w_verb_track: value, ..w })
    } else {
        None
    }
}

/// Sets the weight called `name` to `value` (in thousandths); false, with
/// the weights unchanged, when no weight has that name.
pub fn set_weight(name: &str, value: i64, w: &mut PenaltyWeights) -> (r: bool)
    ensures
        match spec_with_weight(*old(w), name@, value) {
            Some(nw) => r && *final(w) == nw,
            None => !r && *final(w) == *old(w),
        },
{
    if str_eq(name, "w_no_strip") {
        w.w_no_strip = value;
    } else if str_eq(name, "w_short_char") {
        w.w_short_char = value;
    } else if str_eq(name, "w_no_syll") {
        w.w_no_syll = value;
    } else if str_eq(name, "w_two_char") {
        w.w_two_char = value;
    } else if str_eq(name, "w_three_one") {
        w.w_three_one = value;
    } else if str_eq(name, "w_deriv") {
        w.w_deriv = value;
    } else if str_eq(name, "w_weak") {
        w.w_weak = value;
    } else if str_eq(name, "w_single_char") {
        w.w_single_char = value;
    } else if str_eq(name, "w_verb_all_weak") {
        w.w_verb_all_weak = value;
    } else if str_eq(name, "w_nik_deriv") {
        w.w_nik_deriv = value;
    } else if str_eq(name, "w_final_cons") {
        w.w_final_cons = value;
    } else if str_eq(name, "w_nominal_inf") {
        w.w_nominal_inf = value;
    } else if str_eq(name, "w_verbal_inf") {
        w.w_verbal_inf = value;
    } else if str_eq(name, "w_removed") {
        w.w_removed = value;
    } else if str_eq(name, "w_verb_track") {
        w.w_verb_track = value;
    } else {
        return false;
    }
    true
}

/// The parameters of a text-search dictionary.
#[derive(Copy, Clone, Debug, PartialEq, Eq, Structural)]
pub enum DictParam {
    Derivation,
    MaxSteps,
    Lexicon,
    ScriptMode,
    Weight,
}

/// The dictionary parameter called `name`, if any.
pub open spec fn spec_dict_param(name: Seq<char>) -> Option<DictParam> {
    if name == "derivation"@ {
        Some(DictParam::Derivation)
    } else if name == "max_steps"@ {
        Some(DictParam::MaxSteps)
    } else if name == "lexicon"@ {
        Some(DictParam::Lexicon)
    } else if name == "script_mode"@ {
        Some(DictParam::ScriptMode)
    } else if spec_is_weight_param(name) {
        Some(DictParam::Weight)
    } else {
        None
    }
}

/// Which dictionary parameter `name` is; none for an unrecognized name.
pub fn dict_param(name: &str) -> (r: Option<DictParam>)
    ensures
        r == spec_dict_param(name@),
{
    if str_eq(name, "derivation") {
        Some(DictParam::Derivation)
    } else if str_eq(name, "max_steps") {
        Some(DictParam::MaxSteps)
    } else if str_eq(name, "lexicon") {
        Some(DictParam::Lexicon)
    } else if str_eq(name, "script_mode") {
        Some(DictParam::ScriptMode)
    } else if is_weight_param(name) {
        Some(DictParam::Weight)
    } else {
        None
    }
}

/// The script mode a dictionary's `script_mode` parameter names, exactly
/// "auto" or "cyrillic_only".
pub open spec fn spec_dict_script_mode(val: Seq<char>) -> Option<ScriptMode> {
    if val == "auto"@ {
        Some(ScriptMode::Auto)
    } else if val == "cyrillic_only"@ {
        Some(ScriptMode::CyrillicOnly)
    } else {
        None
    }
}

/// The script mode of a dictionary parameter (see [`spec_dict_script_mode`]).
pub fn dict_script_mode(val: &str) -> (r: Option<ScriptMode>)
    ensures
        r == spec_dict_script_mode(val@),
{
    if str_eq(val, "auto") {
        Some(ScriptMode::Auto)
    } else if str_eq(val, "cyrillic_only") {
        Some(ScriptMode::CyrillicOnly)
    } else {
        None
    }
}

/// `max_steps` clamped to `1..=16`.
pub fn clamp_max_steps(v: i32) -> (r: i32)
    ensures
        r == clamp_steps(v),
{
    if v < 1 {
        1
    } else if v > 16 {
        16
    } else {
        v
    }
}

/// `is_weight_param` recognizes exactly the names `set_weight` accepts.
pub proof fn law_weight_names_agree(w: PenaltyWeights, name: Seq<char>, value: i64)
    ensures
        spec_is_weight_param(name) <==> spec_with_weight(w, name, value) is Some,
{
}

} // verus!
